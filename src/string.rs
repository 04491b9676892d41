use vstd::prelude::*;

use crate::buffer::{payload, LockState, ObjectBuffer, ABSENT, MIB};
use crate::errors::ConnectorXPythonError;
use crate::int64::{lemma_offset_monotone, lemma_tiles, offset_of};
use vstd::string::StringSliceAdditionalSpecFns;
use vstd::utf8::{encode_scalar, encode_utf8};

verus! {

/// Flush threshold of string columns, in MiB.
pub const STRING_BUF_SIZE_MB: usize = 4;

/// Encodes one character as UTF-8 (at most four bytes).
pub fn encode_char(c: char) -> (r: Vec<u8>)
    ensures
        r@ == encode_utf8(seq![c]),
        r@.len() <= 4,
{
    let x = c as u32;
    let r = if x < 0x80 {
        vec![(x & 0x7F) as u8]
    } else if x < 0x800 {
        vec![0xC0u8 | ((x >> 6) & 0x1F) as u8, 0x80u8 | (x & 0x3F) as u8]
    } else if x < 0x10000 {
        vec![
            0xE0u8 | ((x >> 12) & 0x0F) as u8,
            0x80u8 | ((x >> 6) & 0x3F) as u8,
            0x80u8 | (x & 0x3F) as u8,
        ]
    } else {
        vec![
            0xF0u8 | ((x >> 18) & 0x7) as u8,
            0x80u8 | ((x >> 12) & 0x3F) as u8,
            0x80u8 | ((x >> 6) & 0x3F) as u8,
            0x80u8 | (x & 0x3F) as u8,
        ]
    };
    proof {
        assert(seq![c].drop_first() =~= Seq::<char>::empty());
        assert(encode_utf8(seq![c]) =~= encode_scalar(x) + encode_utf8(Seq::<char>::empty()));
        assert(r@ =~= encode_scalar(x));
    }
    r
}

/// A string destination column of one partition: values are queued as
/// UTF-8 bytes and materialized into string objects in batches.
pub struct StringColumn {
    buf: ObjectBuffer,
}

impl StringColumn {
    /// The variable-length writer behind the column.
    pub closed spec fn buffer(&self) -> ObjectBuffer {
        self.buf
    }

    /// The writer's invariant.
    pub open spec fn wf(&self) -> bool {
        self.buffer().wf()
    }

    /// A column of `nrows` rows that flushes once `buf_size` bytes are queued.
    pub fn new(nrows: usize, buf_size: usize) -> (r: Self)
        ensures
            r.wf(),
            r.buffer().rows() == nrows,
            r.buffer().threshold() == buf_size,
            r.buffer().contents() == Seq::<Option<Seq<u8>>>::empty(),
            r.buffer().pending() == Seq::<Option<Seq<u8>>>::empty(),
            r.buffer().materialized() == Seq::<Option<Seq<u8>>>::empty(),
            r.buffer().buffered() == 0,
    {
        StringColumn { buf: ObjectBuffer::new(nrows, buf_size) }
    }

    pub fn len(&self) -> (r: usize)
        ensures
            r == self.buffer().rows(),
    {
        self.buf.len()
    }

    /// Queued bytes at which a write forces a flush.
    pub fn threshold_bytes(&self) -> (r: usize)
        ensures
            r == self.buffer().threshold(),
    {
        self.buf.threshold_bytes()
    }

    /// Number of rows already materialized.
    pub fn materialized_count(&self) -> (r: usize)
        requires
            self.wf(),
        ensures
            r == self.buffer().materialized().len(),
    {
        self.buf.materialized_count()
    }

    /// Number of values waiting to be materialized.
    pub fn pending_count(&self) -> (r: usize)
        requires
            self.wf(),
        ensures
            r == self.buffer().pending().len(),
    {
        self.buf.pending_count()
    }

    /// Number of queued payload bytes.
    pub fn buffered_bytes(&self) -> (r: usize)
        ensures
            r == self.buffer().buffered(),
    {
        self.buf.buffered_bytes()
    }

    /// The bytes of the string at row `k`, `None` for the absent value.
    pub fn get(&self, k: usize) -> (r: Option<Vec<u8>>)
        requires
            k < self.buffer().rows(),
        ensures
            crate::buffer::slot_view(r) == self.buffer().slots_view()[k as int],
    {
        self.buf.slot(k)
    }

    /// Hands the materialized rows over, one per row.
    pub fn into_slots(self) -> (r: Vec<Option<Vec<u8>>>)
        ensures
            r@.map_values(|s: Option<Vec<u8>>| crate::buffer::slot_view(s))
                == self.buffer().slots_view(),
            r@.len() == self.buffer().rows(),
    {
        self.buf.into_slots()
    }

    /// Queues a string by its UTF-8 bytes and flushes once the threshold is reached.
    pub fn write(&mut self, val: &str, lock: LockState) -> (r: Result<(), ConnectorXPythonError>)
        requires
            old(self).wf(),
            old(self).buffer().contents().len() < old(self).buffer().rows(),
            old(self).buffer().buffered() + val.spec_bytes().len() < ABSENT,
        ensures
            final(self).wf(),
            final(self).buffer().rows() == old(self).buffer().rows(),
            final(self).buffer().threshold() == old(self).buffer().threshold(),
            final(self).buffer().contents() == old(self).buffer().contents().push(
                Some(val.spec_bytes()),
            ),
            ({
                let after = old(self).buffer().buffered() + val.spec_bytes().len();
                &&& (r is Err <==> (after >= old(self).buffer().threshold() && lock
                    == LockState::Poisoned))
                &&& (after < old(self).buffer().threshold() ==> final(self).buffer().materialized() == old(self).buffer().materialized() && final(self).buffer().buffered() == after)
                &&& ((after >= old(self).buffer().threshold() && lock != LockState::Poisoned)
                    ==> final(self).buffer().pending().len() == 0 && final(self).buffer().buffered() == 0)
            }),
            r is Err ==> r->Err_0 == ConnectorXPythonError::AllocLockPoisoned,
    {
        self.buf.write(Some(val.as_bytes()), lock)
    }

    /// Queues a possibly absent string; an absent one adds no payload bytes.
    pub fn write_opt(&mut self, val: Option<&str>, lock: LockState) -> (r: Result<
        (),
        ConnectorXPythonError,
    >)
        requires
            old(self).wf(),
            old(self).buffer().contents().len() < old(self).buffer().rows(),
            val is Some ==> old(self).buffer().buffered() + val->0.spec_bytes().len() < ABSENT,
        ensures
            final(self).wf(),
            final(self).buffer().rows() == old(self).buffer().rows(),
            final(self).buffer().threshold() == old(self).buffer().threshold(),
            final(self).buffer().contents() == old(self).buffer().contents().push(
                match val {
                    Some(s) => Some(s.spec_bytes()),
                    None => None,
                },
            ),
            ({
                let after = old(self).buffer().buffered() + payload(
                    match val {
                        Some(s) => Some(s.spec_bytes()),
                        None => None,
                    },
                ).len();
                &&& (r is Err <==> (after >= old(self).buffer().threshold() && lock
                    == LockState::Poisoned))
                &&& (after < old(self).buffer().threshold() ==> final(self).buffer().materialized() == old(self).buffer().materialized() && final(self).buffer().buffered() == after)
                &&& ((after >= old(self).buffer().threshold() && lock != LockState::Poisoned)
                    ==> final(self).buffer().pending().len() == 0 && final(self).buffer().buffered() == 0)
            }),
            r is Err ==> r->Err_0 == ConnectorXPythonError::AllocLockPoisoned,
    {
        match val {
            Some(s) => self.buf.write(Some(s.as_bytes()), lock),
            None => self.buf.write(None, lock),
        }
    }

    /// Queues one character by its UTF-8 encoding.
    pub fn write_char(&mut self, val: char, lock: LockState) -> (r: Result<
        (),
        ConnectorXPythonError,
    >)
        requires
            old(self).wf(),
            old(self).buffer().contents().len() < old(self).buffer().rows(),
            old(self).buffer().buffered() + 4 < ABSENT,
        ensures
            final(self).wf(),
            final(self).buffer().rows() == old(self).buffer().rows(),
            final(self).buffer().threshold() == old(self).buffer().threshold(),
            final(self).buffer().contents() == old(self).buffer().contents().push(
                Some(encode_utf8(seq![val])),
            ),
            ({
                let after = old(self).buffer().buffered() + encode_utf8(seq![val]).len();
                &&& (r is Err <==> (after >= old(self).buffer().threshold() && lock
                    == LockState::Poisoned))
                &&& (after < old(self).buffer().threshold() ==> final(self).buffer().materialized()
                    == old(self).buffer().materialized() && final(self).buffer().buffered() == after)
                &&& ((after >= old(self).buffer().threshold() && lock != LockState::Poisoned)
                    ==> final(self).buffer().pending().len() == 0)
            }),
    {
        let bytes = encode_char(val);
        self.buf.write(Some(bytes.as_slice()), lock)
    }

    /// Queues a possibly absent character by its UTF-8 encoding.
    pub fn write_char_opt(&mut self, val: Option<char>, lock: LockState) -> (r: Result<
        (),
        ConnectorXPythonError,
    >)
        requires
            old(self).wf(),
            old(self).buffer().contents().len() < old(self).buffer().rows(),
            old(self).buffer().buffered() + 4 < ABSENT,
        ensures
            final(self).wf(),
            final(self).buffer().rows() == old(self).buffer().rows(),
            final(self).buffer().threshold() == old(self).buffer().threshold(),
            final(self).buffer().contents() == old(self).buffer().contents().push(
                match val {
                    Some(ch) => Some(encode_utf8(seq![ch])),
                    None => None,
                },
            ),
            ({
                let after = old(self).buffer().buffered() + match val {
                    Some(ch) => encode_utf8(seq![ch]).len(),
                    None => 0,
                };
                &&& (r is Err <==> (after >= old(self).buffer().threshold() && lock
                    == LockState::Poisoned))
                &&& (after < old(self).buffer().threshold() ==> final(self).buffer().materialized()
                    == old(self).buffer().materialized() && final(self).buffer().buffered() == after)
                &&& ((after >= old(self).buffer().threshold() && lock != LockState::Poisoned)
                    ==> final(self).buffer().pending().len() == 0)
            }),
    {
        match val {
            Some(ch) => self.write_char(ch, lock),
            None => self.buf.write(None, lock),
        }
    }

    /// Materializes the queued strings (see `ObjectBuffer::flush`).
    pub fn flush(&mut self, force: bool, lock: LockState) -> (r: Result<
        (),
        ConnectorXPythonError,
    >)
        requires
            old(self).wf(),
        ensures
            final(self).wf(),
            final(self).buffer().rows() == old(self).buffer().rows(),
            final(self).buffer().threshold() == old(self).buffer().threshold(),
            final(self).buffer().contents() == old(self).buffer().contents(),
            old(self).buffer().pending().len() == 0 ==> r is Ok && *final(self) == *old(self),
            r is Err <==> (old(self).buffer().pending().len() > 0 && lock == LockState::Poisoned),
            r is Err ==> r->Err_0 == ConnectorXPythonError::AllocLockPoisoned && *final(self)
                == *old(self),
            (old(self).buffer().pending().len() > 0 && !force && lock == LockState::Contended)
                ==> *final(self) == *old(self),
            (lock == LockState::Free || (force && lock == LockState::Contended)) ==> final(self).buffer().pending().len() == 0 && final(self).buffer().buffered() == 0,
    {
        self.buf.flush(force, lock)
    }

    /// Forces a flush once the queued bytes reach the threshold.
    pub fn try_flush(&mut self, lock: LockState) -> (r: Result<(), ConnectorXPythonError>)
        requires
            old(self).wf(),
        ensures
            final(self).wf(),
            final(self).buffer().rows() == old(self).buffer().rows(),
            final(self).buffer().contents() == old(self).buffer().contents(),
            old(self).buffer().buffered() < old(self).buffer().threshold() ==> r is Ok && *final(self) == *old(self),
            r is Err <==> (old(self).buffer().buffered() >= old(self).buffer().threshold() && old(self).buffer().pending().len() > 0 && lock == LockState::Poisoned),
            (old(self).buffer().buffered() >= old(self).buffer().threshold() && lock
                != LockState::Poisoned) ==> final(self).buffer().pending().len() == 0,
    {
        self.buf.try_flush(lock)
    }

    /// Flushes the residue and seals the column.
    pub fn finalize(&mut self, lock: LockState) -> (r: Result<(), ConnectorXPythonError>)
        requires
            old(self).wf(),
        ensures
            final(self).wf(),
            final(self).buffer().rows() == old(self).buffer().rows(),
            final(self).buffer().contents() == old(self).buffer().contents(),
            r is Ok <==> ((old(self).buffer().pending().len() == 0 || lock
                != LockState::Poisoned) && old(self).buffer().contents().len() == old(self).buffer().rows()),
            r is Ok ==> final(self).buffer().materialized() == old(self).buffer().contents(),
            r is Ok ==> final(self).buffer().buffered() == 0 && final(self).buffer().slots_view()
                == old(self).buffer().contents(),
            old(self).buffer().pending().len() == 0 ==> *final(self) == *old(self),
            (old(self).buffer().pending().len() > 0 && lock == LockState::Poisoned) ==> r
                == Err::<(), _>(ConnectorXPythonError::AllocLockPoisoned),
            (r is Err && (old(self).buffer().pending().len() == 0 || lock
                != LockState::Poisoned)) ==> r == Err::<(), _>(
                ConnectorXPythonError::FinalizeIncomplete,
            ),
    {
        self.buf.finalize(lock)
    }

    /// Splits the rows into consecutive row-disjoint columns of `counts[j]`
    /// rows each, taken in order from the first row; each keeps its rows'
    /// slots, inherits the threshold and starts with an empty buffer.
    pub fn partition(self, counts: &[usize]) -> (r: Vec<StringColumn>)
        requires
            offset_of(counts@, counts@.len() as int) <= self.buffer().rows(),
        ensures
            r@.len() == counts@.len(),
            forall|j: int|
                0 <= j < r@.len() ==> {
                    &&& (#[trigger] r@[j]).wf()
                    &&& r@[j].buffer().rows() == counts@[j]
                    &&& r@[j].buffer().slots_view() == self.buffer().slots_view().subrange(
                        offset_of(counts@, j),
                        offset_of(counts@, j + 1),
                    )
                    &&& r@[j].buffer().threshold() == self.buffer().threshold()
                    &&& r@[j].buffer().contents() == Seq::<Option<Seq<u8>>>::empty()
                    &&& r@[j].buffer().pending() == Seq::<Option<Seq<u8>>>::empty()
                    &&& r@[j].buffer().materialized() == Seq::<Option<Seq<u8>>>::empty()
                    &&& r@[j].buffer().buffered() == 0
                },
    {
        let ghost whole = self.buffer().slots_view();
        let ghost th = self.buffer().threshold();
        let ghost n = counts@.len() as int;
        proof {
            assert forall|t: int| 0 <= t <= n implies 0 <= #[trigger] offset_of(counts@, t)
                <= offset_of(counts@, n) by {
                lemma_offset_monotone(counts@, t, n);
            }
        }
        let mut rest = self.buf;
        let mut out: Vec<StringColumn> = Vec::new();
        let mut j: usize = 0;
        proof {
            assert(rest.slots_view() =~= whole.subrange(0, whole.len() as int));
        }
        while j < counts.len()
            invariant
                j <= n,
                n == counts@.len(),
                offset_of(counts@, n) <= whole.len(),
                forall|t: int| 0 <= t <= n ==> 0 <= #[trigger] offset_of(counts@, t) <= offset_of(counts@, n),
                rest.threshold() == th,
                rest.slots_view() == whole.subrange(offset_of(counts@, j as int), whole.len() as int),
                out@.len() == j,
                forall|t: int|
                    0 <= t < j ==> {
                        &&& (#[trigger] out@[t]).wf()
                        &&& out@[t].buffer().rows() == counts@[t]
                        &&& out@[t].buffer().slots_view() == whole.subrange(
                            offset_of(counts@, t),
                            offset_of(counts@, t + 1),
                        )
                        &&& out@[t].buffer().threshold() == th
                        &&& out@[t].buffer().contents() == Seq::<Option<Seq<u8>>>::empty()
                        &&& out@[t].buffer().pending() == Seq::<Option<Seq<u8>>>::empty()
                        &&& out@[t].buffer().materialized() == Seq::<Option<Seq<u8>>>::empty()
                        &&& out@[t].buffer().buffered() == 0
                    },
            decreases n - j,
        {
            let c = counts[j];
            proof {
                assert(offset_of(counts@, j as int + 1) == offset_of(counts@, j as int) + c);
                assert(offset_of(counts@, j as int + 1) <= offset_of(counts@, n));
            }
            let (head, tail) = rest.split_front(c);
            proof {
                let lo = offset_of(counts@, j as int);
                let hi = offset_of(counts@, j as int + 1);
                assert(head.slots_view() =~= whole.subrange(lo, hi));
                assert(tail.slots_view() =~= whole.subrange(hi, whole.len() as int));
                assert(head.contents() =~= Seq::<Option<Seq<u8>>>::empty());
            }
            out.push(StringColumn { buf: head });
            rest = tail;
            j = j + 1;
        }
        out
    }
}

/// Partitioning loses and duplicates no row and keeps row order: when the
/// counts cover every row, the parts' slots laid end to end are the
/// column's own.
pub proof fn lemma_partition_preserves_rows(col: StringColumn, counts: Seq<usize>, parts: Seq<StringColumn>)
    requires
        offset_of(counts, counts.len() as int) == col.buffer().rows(),
        parts.len() == counts.len(),
        forall|j: int|
            0 <= j < parts.len() ==> (#[trigger] parts[j]).buffer().slots_view()
                == col.buffer().slots_view().subrange(offset_of(counts, j), offset_of(counts, j + 1)),
    ensures
        parts.map_values(|c: StringColumn| c.buffer().slots_view()).flatten_alt()
            == col.buffer().slots_view(),
{
    let views = parts.map_values(|c: StringColumn| c.buffer().slots_view());
    assert forall|j: int| 0 <= j < views.len() implies #[trigger] views[j]
        == col.buffer().slots_view().subrange(offset_of(counts, j), offset_of(counts, j + 1)) by {
        assert(views[j] == parts[j].buffer().slots_view());
    }
    lemma_tiles(col.buffer().slots_view(), counts, views);
}

/// A 2-D block of object cells: `ncols` columns of `nrows` rows each.
pub struct StringBlock {
    ncols: usize,
    nrows: usize,
    buf_size_mb: usize,
}

impl StringBlock {
    pub closed spec fn shape(&self) -> (nat, nat) {
        (self.ncols as nat, self.nrows as nat)
    }

    /// Flush threshold, in bytes, of the columns the block splits into.
    pub closed spec fn threshold(&self) -> nat {
        (self.buf_size_mb * MIB) as nat
    }

    /// The threshold is the column kind's default.
    pub closed spec fn wf(&self) -> bool {
        self.buf_size_mb == STRING_BUF_SIZE_MB
    }

    /// A block of `ncols` columns of `nrows` rows with the default threshold.
    pub fn new(ncols: usize, nrows: usize) -> (r: Self)
        ensures
            r.wf(),
            r.shape() == (ncols as nat, nrows as nat),
            r.threshold() == STRING_BUF_SIZE_MB * MIB,
    {
        StringBlock { ncols, nrows, buf_size_mb: STRING_BUF_SIZE_MB }
    }

    /// One writer per column, in column order, each over `nrows` rows and
    /// with an empty buffer.
    pub fn split(self) -> (r: Vec<StringColumn>)
        requires
            self.wf(),
        ensures
            r@.len() == self.shape().0,
            forall|j: int|
                0 <= j < r@.len() ==> {
                    &&& (#[trigger] r@[j]).wf()
                    &&& r@[j].buffer().rows() == self.shape().1
                    &&& r@[j].buffer().threshold() == self.threshold()
                    &&& r@[j].buffer().contents() == Seq::<Option<Seq<u8>>>::empty()
                    &&& r@[j].buffer().pending() == Seq::<Option<Seq<u8>>>::empty()
                    &&& r@[j].buffer().buffered() == 0
                },
    {
        let th = self.buf_size_mb * MIB;
        let mut ret: Vec<StringColumn> = Vec::new();
        let mut j: usize = 0;
        while j < self.ncols
            invariant
                j <= self.ncols,
                th == self.threshold(),
                ret@.len() == j,
                forall|t: int|
                    0 <= t < j ==> {
                        &&& (#[trigger] ret@[t]).wf()
                        &&& ret@[t].buffer().rows() == self.nrows
                        &&& ret@[t].buffer().threshold() == th
                        &&& ret@[t].buffer().contents() == Seq::<Option<Seq<u8>>>::empty()
                        &&& ret@[t].buffer().pending() == Seq::<Option<Seq<u8>>>::empty()
                        &&& ret@[t].buffer().buffered() == 0
                    },
            decreases self.ncols - j,
        {
            ret.push(StringColumn::new(self.nrows, th));
            j = j + 1;
        }
        ret
    }
}

} // verus!
