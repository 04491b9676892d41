use vstd::prelude::*;

use crate::errors::ConnectorXPythonError;

verus! {

/// Length entry that marks a queued value as absent.
pub const ABSENT: usize = usize::MAX;

/// Bytes in a mebibyte.
pub const MIB: usize = 1048576;

/// What the caller found when it went for the allocation lock.
#[derive(Debug, Clone, Copy, PartialEq, Eq, Structural)]
pub enum LockState {
    /// The lock was free and is now held.
    Free,
    /// Another writer holds the lock; a forced flush waits for it, any other returns.
    Contended,
    /// The lock is poisoned.
    Poisoned,
}

/// Entry of the length vector for a queued value.
pub open spec fn encoded_len(v: Option<Seq<u8>>) -> int {
    match v {
        Some(b) => b.len() as int,
        None => ABSENT as int,
    }
}

/// Bytes that a queued value contributes to the payload buffer.
pub open spec fn payload(v: Option<Seq<u8>>) -> Seq<u8> {
    match v {
        Some(b) => b,
        None => Seq::empty(),
    }
}

/// The payload buffer of a queue of values: their bytes, concatenated in order.
pub open spec fn concat_payloads(q: Seq<Option<Seq<u8>>>) -> Seq<u8>
    decreases q.len(),
{
    if q.len() == 0 {
        Seq::empty()
    } else {
        concat_payloads(q.drop_last()) + payload(q.last())
    }
}

pub open spec fn slot_view(s: Option<Vec<u8>>) -> Option<Seq<u8>> {
    match s {
        Some(v) => Some(v@),
        None => None,
    }
}

proof fn lemma_concat_prefix(q: Seq<Option<Seq<u8>>>, k: int)
    requires
        0 <= k <= q.len(),
    ensures
        concat_payloads(q.take(k)).len() <= concat_payloads(q).len(),
        concat_payloads(q).subrange(0, concat_payloads(q.take(k)).len() as int) == concat_payloads(
            q.take(k),
        ),
    decreases q.len(),
{
    if k == q.len() {
        assert(q.take(k) =~= q);
        assert(concat_payloads(q).subrange(0, concat_payloads(q).len() as int) =~= concat_payloads(q));
    } else {
        let p = q.drop_last();
        lemma_concat_prefix(p, k);
        assert(p.take(k) =~= q.take(k));
        let cp = concat_payloads(p);
        let ck = concat_payloads(q.take(k));
        assert(concat_payloads(q).subrange(0, ck.len() as int) =~= cp.subrange(0, ck.len() as int));
    }
}

proof fn lemma_concat_step(q: Seq<Option<Seq<u8>>>, k: int)
    requires
        0 <= k < q.len(),
    ensures
        concat_payloads(q.take(k + 1)) == concat_payloads(q.take(k)) + payload(q[k]),
{
    assert(q.take(k + 1).drop_last() =~= q.take(k));
}

/// A row-slice of handle slots filled through a queue: values are queued as
/// payload bytes plus a length vector, and materialized into the slots in
/// batches by `flush`.
pub struct ObjectBuffer {
    slots: Vec<Option<Vec<u8>>>,
    next_write: usize,
    buf: Vec<u8>,
    lengths: Vec<usize>,
    threshold: usize,
    queued: Ghost<Seq<Option<Seq<u8>>>>,
}

impl ObjectBuffer {
    /// Number of rows (handle slots) of this writer.
    pub open spec fn rows(&self) -> nat {
        self.slots_view().len()
    }

    /// Soft high-water mark of the payload buffer.
    pub closed spec fn threshold(&self) -> nat {
        self.threshold as nat
    }

    /// Values queued since the last flush, in write order.
    pub closed spec fn pending(&self) -> Seq<Option<Seq<u8>>> {
        self.queued@
    }

    /// Number of bytes in the payload buffer.
    pub closed spec fn buffered(&self) -> nat {
        self.buf@.len()
    }

    /// The handle slots as values: `None` is the absent-value handle.
    pub closed spec fn slots_view(&self) -> Seq<Option<Seq<u8>>> {
        self.slots@.map_values(|s: Option<Vec<u8>>| slot_view(s))
    }

    /// The values already materialized into slots, in row order.
    pub closed spec fn materialized(&self) -> Seq<Option<Seq<u8>>> {
        self.slots_view().take(self.next_write as int)
    }

    /// Every value written so far, materialized or queued, in row order.
    pub open spec fn contents(&self) -> Seq<Option<Seq<u8>>> {
        self.materialized() + self.pending()
    }

    /// The queue agrees with the payload buffer and the length vector, and
    /// fits, after the materialized rows, within the slots.
    pub closed spec fn wf(&self) -> bool {
        &&& self.next_write + self.queued@.len() <= self.slots@.len()
        &&& self.lengths@.len() == self.queued@.len()
        &&& forall|k: int|
            0 <= k < self.queued@.len() ==> self.lengths@[k] == encoded_len(
                #[trigger] self.queued@[k],
            )
        &&& forall|k: int|
            0 <= k < self.queued@.len() ==> (#[trigger] self.queued@[k] is Some
                ==> self.queued@[k]->0.len() < ABSENT)
        &&& self.buf@ == concat_payloads(self.queued@)
    }

    /// A writer of `nrows` slots, all holding the absent-value handle,
    /// with an empty queue.
    pub fn new(nrows: usize, threshold: usize) -> (r: Self)
        ensures
            r.wf(),
            r.rows() == nrows,
            r.threshold() == threshold,
            r.contents() == Seq::<Option<Seq<u8>>>::empty(),
            r.pending() == Seq::<Option<Seq<u8>>>::empty(),
            r.materialized() == Seq::<Option<Seq<u8>>>::empty(),
            r.buffered() == 0,
    {
        let mut slots: Vec<Option<Vec<u8>>> = Vec::new();
        let mut k: usize = 0;
        while k < nrows
            invariant
                k <= nrows,
                slots@.len() == k,
            decreases nrows - k,
        {
            slots.push(None);
            k = k + 1;
        }
        let r = ObjectBuffer {
            slots,
            next_write: 0,
            buf: Vec::new(),
            lengths: Vec::new(),
            threshold,
            queued: Ghost(Seq::empty()),
        };
        assert(r.contents() =~= Seq::<Option<Seq<u8>>>::empty());
        assert(r.materialized() =~= Seq::<Option<Seq<u8>>>::empty());
        r
    }

    pub fn len(&self) -> (r: usize)
        ensures
            r == self.rows(),
    {
        self.slots.len()
    }

    pub fn threshold_bytes(&self) -> (r: usize)
        ensures
            r == self.threshold(),
    {
        self.threshold
    }

    /// Number of rows already materialized into slots.
    pub fn materialized_count(&self) -> (r: usize)
        requires
            self.wf(),
        ensures
            r == self.materialized().len(),
    {
        self.next_write
    }

    /// Number of values waiting in the queue.
    pub fn pending_count(&self) -> (r: usize)
        requires
            self.wf(),
        ensures
            r == self.pending().len(),
    {
        self.lengths.len()
    }

    /// Number of payload bytes waiting in the queue.
    pub fn buffered_bytes(&self) -> (r: usize)
        ensures
            r == self.buffered(),
    {
        self.buf.len()
    }

    /// The value held by slot `k`: `None` for the absent-value handle.
    pub fn slot(&self, k: usize) -> (r: Option<Vec<u8>>)
        requires
            k < self.rows(),
        ensures
            slot_view(r) == self.slots_view()[k as int],
    {
        match &self.slots[k] {
            Some(v) => Some(copy_range(v, 0, v.len())),
            None => None,
        }
    }

    /// Hands the slots over, one per row.
    pub fn into_slots(self) -> (r: Vec<Option<Vec<u8>>>)
        ensures
            r@.map_values(|s: Option<Vec<u8>>| slot_view(s)) == self.slots_view(),
            r@.len() == self.rows(),
    {
        self.slots
    }

    /// Queues one value (`None` for absent). Nothing is materialized.
    pub fn push(&mut self, val: Option<&[u8]>)
        requires
            old(self).wf(),
            old(self).contents().len() < old(self).rows(),
            val is Some ==> old(self).buffered() + val->0@.len() < ABSENT,
        ensures
            final(self).wf(),
            final(self).rows() == old(self).rows(),
            final(self).threshold() == old(self).threshold(),
            final(self).materialized() == old(self).materialized(),
            final(self).pending() == old(self).pending().push(
                match val {
                    Some(b) => Some(b@),
                    None => None,
                },
            ),
            final(self).buffered() == old(self).buffered() + payload(
                match val {
                    Some(b) => Some(b@),
                    None => None,
                },
            ).len(),
    {
        let ghost q = self.queued@;
        let ghost ol = self.lengths@;
        let ghost v: Option<Seq<u8>> = match val {
            Some(b) => Some(b@),
            None => None,
        };
        match val {
            Some(bytes) => {
                self.lengths.push(bytes.len());
                append_bytes(&mut self.buf, bytes);
            },
            None => {
                self.lengths.push(ABSENT);
                assert(concat_payloads(q) + Seq::<u8>::empty() =~= concat_payloads(q));
            },
        }
        self.queued = Ghost(q.push(v));
        assert(q.push(v).drop_last() =~= q);
        assert forall|k: int|
            0 <= k < self.queued@.len() implies self.lengths@[k] == encoded_len(
            #[trigger] self.queued@[k],
        ) by {
            if k < q.len() {
                assert(self.queued@[k] == q[k]);
                assert(self.lengths@[k] == ol[k]);
            }
        }
    }

    /// Materializes every queued value into the next slots, in order, and
    /// empties the queue. A queue that is empty is left alone without going
    /// for the lock; a non-forced flush returns at once when the lock is
    /// contended; a poisoned lock fails the flush and leaves the writer as it was.
    pub fn flush(&mut self, force: bool, lock: LockState) -> (r: Result<
        (),
        ConnectorXPythonError,
    >)
        requires
            old(self).wf(),
        ensures
            final(self).wf(),
            final(self).rows() == old(self).rows(),
            final(self).threshold() == old(self).threshold(),
            final(self).contents() == old(self).contents(),
            old(self).pending().len() == 0 ==> r is Ok && *final(self) == *old(self),
            r is Err <==> (old(self).pending().len() > 0 && lock == LockState::Poisoned),
            r is Err ==> r->Err_0 == ConnectorXPythonError::AllocLockPoisoned && *final(self)
                == *old(self),
            (old(self).pending().len() > 0 && !force && lock == LockState::Contended) ==> *final(self) == *old(self),
            (lock == LockState::Free || (force && lock == LockState::Contended)) ==> final(self).pending().len() == 0 && final(self).buffered() == 0,
    {
        let n = self.lengths.len();
        if n == 0 {
            return Ok(());
        }
        match lock {
            LockState::Poisoned => {
                return Err(ConnectorXPythonError::AllocLockPoisoned);
            },
            LockState::Contended => {
                if !force {
                    return Ok(());
                }
            },
            LockState::Free => {},
        }
        let ghost q = self.queued@;
        let ghost before = self.slots_view();
        let ghost nw = self.next_write as int;
        let ghost th = self.threshold;
        let base = self.next_write;
        let total = self.slots.len();
        let blen = self.buf.len();
        let mut start: usize = 0;
        let mut k: usize = 0;
        while k < n
            invariant
                self.wf(),
                self.queued@ == q,
                self.next_write == base,
                self.threshold == th,
                n == q.len(),
                0 <= k <= n,
                base + n <= self.slots@.len(),
                total == self.slots@.len(),
                blen == self.buf@.len(),
                start == concat_payloads(q.take(k as int)).len(),
                self.slots@.len() == before.len(),
                forall|t: int| 0 <= t < base ==> #[trigger] self.slots_view()[t] == before[t],
                forall|t: int| 0 <= t < k ==> #[trigger] self.slots_view()[base + t] == q[t],
            decreases n - k,
        {
            let len = self.lengths[k];
            proof {
                lemma_concat_step(q, k as int);
                lemma_concat_prefix(q, k as int + 1);
            }
            let ghost old_slots = self.slots_view();
            if len == ABSENT {
                self.slots.set(base + k, None);
            } else {
                let end = start + len;
                let obj = copy_range(&self.buf, start, end);
                proof {
                    let pre = concat_payloads(q.take(k as int));
                    let pre1 = concat_payloads(q.take(k as int + 1));
                    assert(self.buf@.subrange(0, pre1.len() as int) == pre1);
                    assert(obj@ =~= pre1.subrange(start as int, end as int));
                    assert(pre1.subrange(start as int, end as int) =~= payload(q[k as int]));
                }
                self.slots.set(base + k, Some(obj));
                start = end;
            }
            assert forall|t: int| 0 <= t < base implies #[trigger] self.slots_view()[t] == before[t] by {
                assert(self.slots_view()[t] == old_slots[t]);
            }
            assert forall|t: int| 0 <= t < k + 1 implies #[trigger] self.slots_view()[base + t] == q[t] by {
                if t < k {
                    assert(self.slots_view()[base + t] == old_slots[base + t]);
                }
            }
            k = k + 1;
        }
        let ghost sv = self.slots_view();
        assert(forall|u: int| 0 <= u < n ==> #[trigger] sv[base + u] == q[u]);
        assert(forall|u: int| 0 <= u < base ==> #[trigger] sv[u] == before[u]);
        self.buf.clear();
        self.lengths.clear();
        self.next_write = base + n;
        self.queued = Ghost(Seq::empty());
        assert(self.slots_view() == sv);
        assert forall|t: int| 0 <= t < nw + q.len() implies #[trigger] self.materialized()[t] == (
        before.take(nw) + q)[t] by {
            if t >= nw {
                let u = t - nw;
                assert(sv[base + u] == q[u]);
            } else {
                assert(sv[t] == before[t]);
            }
        }
        assert(self.materialized() =~= before.take(nw) + q);
        assert(self.pending() + Seq::empty() =~= self.pending());
        assert(self.contents() =~= before.take(nw) + q);
        Ok(())
    }

    /// Flushes when the payload buffer has reached the threshold.
    pub fn try_flush(&mut self, lock: LockState) -> (r: Result<(), ConnectorXPythonError>)
        requires
            old(self).wf(),
        ensures
            final(self).wf(),
            final(self).rows() == old(self).rows(),
            final(self).threshold() == old(self).threshold(),
            final(self).contents() == old(self).contents(),
            old(self).buffered() < old(self).threshold() ==> r is Ok && *final(self) == *old(self),
            r is Err <==> (old(self).buffered() >= old(self).threshold() && old(self).pending().len() > 0 && lock == LockState::Poisoned),
            r is Err ==> r->Err_0 == ConnectorXPythonError::AllocLockPoisoned && *final(self)
                == *old(self),
            (old(self).buffered() >= old(self).threshold() && lock != LockState::Poisoned)
                ==> final(self).pending().len() == 0 && final(self).buffered() == 0,
    {
        if self.buf.len() >= self.threshold {
            self.flush(true, lock)
        } else {
            Ok(())
        }
    }

    /// Queues one value and flushes if the buffer has reached the threshold.
    pub fn write(&mut self, val: Option<&[u8]>, lock: LockState) -> (r: Result<
        (),
        ConnectorXPythonError,
    >)
        requires
            old(self).wf(),
            old(self).contents().len() < old(self).rows(),
            val is Some ==> old(self).buffered() + val->0@.len() < ABSENT,
        ensures
            final(self).wf(),
            final(self).rows() == old(self).rows(),
            final(self).threshold() == old(self).threshold(),
            final(self).contents() == old(self).contents().push(
                match val {
                    Some(b) => Some(b@),
                    None => None,
                },
            ),
            ({
                let after = old(self).buffered() + payload(
                    match val {
                        Some(b) => Some(b@),
                        None => None,
                    },
                ).len();
                &&& (r is Err <==> (after >= old(self).threshold() && lock
                    == LockState::Poisoned))
                &&& (after < old(self).threshold() ==> final(self).materialized() == old(self).materialized() && final(self).buffered() == after)
                &&& ((after >= old(self).threshold() && lock != LockState::Poisoned)
                    ==> final(self).pending().len() == 0 && final(self).buffered() == 0)
            }),
            r is Err ==> r->Err_0 == ConnectorXPythonError::AllocLockPoisoned,
    {
        let ghost c = self.contents();
        self.push(val);
        assert(self.contents() =~= c.push(
            match val {
                Some(b) => Some(b@),
                None => None,
            },
        ));
        self.try_flush(lock)
    }

    /// Flushes what is queued and seals the writer: succeeds exactly when the
    /// lock can be had (or nothing is queued) and every row has been written.
    pub fn finalize(&mut self, lock: LockState) -> (r: Result<(), ConnectorXPythonError>)
        requires
            old(self).wf(),
        ensures
            final(self).wf(),
            final(self).rows() == old(self).rows(),
            final(self).contents() == old(self).contents(),
            r is Ok <==> ((old(self).pending().len() == 0 || lock != LockState::Poisoned) && old(self).contents().len() == old(self).rows()),
            r is Ok ==> final(self).materialized() == old(self).contents() && final(self).pending().len() == 0,
            r is Ok ==> final(self).buffered() == 0 && final(self).slots_view() == old(self).contents(),
            old(self).pending().len() == 0 ==> *final(self) == *old(self),
            (old(self).pending().len() > 0 && lock == LockState::Poisoned) ==> r
                == Err::<(), _>(ConnectorXPythonError::AllocLockPoisoned),
            (r is Err && (old(self).pending().len() == 0 || lock != LockState::Poisoned)) ==> r
                == Err::<(), _>(ConnectorXPythonError::FinalizeIncomplete),
    {
        match self.flush(true, lock) {
            Ok(()) => {},
            Err(e) => {
                return Err(e);
            },
        }
        assert(self.contents() =~= self.materialized());
        if self.next_write == self.slots.len() {
            assert(self.slots_view().take(self.next_write as int) =~= self.slots_view());
            Ok(())
        } else {
            Err(ConnectorXPythonError::FinalizeIncomplete)
        }
    }

    /// Splits off the first `c` rows into a writer of their own, the rest
    /// into another; both keep the threshold and start with an empty queue.
    pub fn split_front(self, c: usize) -> (r: (ObjectBuffer, ObjectBuffer))
        requires
            c <= self.rows(),
        ensures
            r.0.wf(),
            r.1.wf(),
            r.0.slots_view() == self.slots_view().subrange(0, c as int),
            r.1.slots_view() == self.slots_view().subrange(c as int, self.rows() as int),
            r.0.threshold() == self.threshold(),
            r.1.threshold() == self.threshold(),
            r.0.pending() == Seq::<Option<Seq<u8>>>::empty(),
            r.1.pending() == Seq::<Option<Seq<u8>>>::empty(),
            r.0.materialized() == Seq::<Option<Seq<u8>>>::empty(),
            r.1.materialized() == Seq::<Option<Seq<u8>>>::empty(),
            r.0.buffered() == 0,
            r.1.buffered() == 0,
    {
        let ghost whole = self.slots_view();
        let threshold = self.threshold;
        let mut head = self.slots;
        let tail = head.split_off(c);
        let a = ObjectBuffer {
            slots: head,
            next_write: 0,
            buf: Vec::new(),
            lengths: Vec::new(),
            threshold,
            queued: Ghost(Seq::empty()),
        };
        let b = ObjectBuffer {
            slots: tail,
            next_write: 0,
            buf: Vec::new(),
            lengths: Vec::new(),
            threshold,
            queued: Ghost(Seq::empty()),
        };
        assert(a.slots_view() =~= whole.subrange(0, c as int));
        assert(b.slots_view() =~= whole.subrange(c as int, whole.len() as int));
        assert(a.materialized() =~= Seq::<Option<Seq<u8>>>::empty());
        assert(b.materialized() =~= Seq::<Option<Seq<u8>>>::empty());
        (a, b)
    }
}

/// Appends `bytes` to the end of `buf`.
fn append_bytes(buf: &mut Vec<u8>, bytes: &[u8])
    ensures
        final(buf)@ == old(buf)@ + bytes@,
{
    let ghost b0 = buf@;
    let n = bytes.len();
    let mut k: usize = 0;
    while k < n
        invariant
            k <= n,
            n == bytes@.len(),
            buf@ == b0 + bytes@.take(k as int),
        decreases n - k,
    {
        buf.push(bytes[k]);
        k = k + 1;
        assert(buf@ =~= b0 + bytes@.take(k as int));
    }
    assert(bytes@.take(n as int) =~= bytes@);
}

/// A fresh vector holding `src[start..end]`.
fn copy_range(src: &Vec<u8>, start: usize, end: usize) -> (r: Vec<u8>)
    requires
        start <= end <= src@.len(),
    ensures
        r@ == src@.subrange(start as int, end as int),
{
    let mut r: Vec<u8> = Vec::new();
    let mut k = start;
    while k < end
        invariant
            start <= k <= end,
            end <= src@.len(),
            r@ == src@.subrange(start as int, k as int),
        decreases end - k,
    {
        r.push(src[k]);
        k = k + 1;
        assert(r@ =~= src@.subrange(start as int, k as int));
    }
    r
}

} // verus!
