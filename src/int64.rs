use vstd::prelude::*;

use crate::errors::ConnectorXPythonError;

verus! {

/// Sum of the first `j` partition sizes: the row at which partition `j` starts.
pub open spec fn offset_of(counts: Seq<usize>, j: int) -> int
    decreases j,
{
    if j <= 0 {
        0
    } else {
        offset_of(counts, j - 1) + counts[j - 1]
    }
}

/// Partition offsets never decrease.
pub proof fn lemma_offset_monotone(counts: Seq<usize>, a: int, b: int)
    requires
        0 <= a <= b,
    ensures
        0 <= offset_of(counts, a) <= offset_of(counts, b),
    decreases b,
{
    if a < b {
        lemma_offset_monotone(counts, a, b - 1);
    } else if b > 0 {
        lemma_offset_monotone(counts, 0, b - 1);
    }
}

/// Slices of `whole` cut at the offsets of `counts`, laid end to end, give
/// back `whole`.
pub proof fn lemma_tiles<T>(whole: Seq<T>, counts: Seq<usize>, parts: Seq<Seq<T>>)
    requires
        parts.len() == counts.len(),
        offset_of(counts, counts.len() as int) == whole.len(),
        forall|j: int|
            0 <= j < parts.len() ==> #[trigger] parts[j] == whole.subrange(
                offset_of(counts, j),
                offset_of(counts, j + 1),
            ),
    ensures
        parts.flatten_alt() == whole,
{
    lemma_tiles_prefix(whole, counts, parts, parts.len() as int);
    assert(parts.take(parts.len() as int) =~= parts);
    assert(whole.subrange(0, whole.len() as int) =~= whole);
}

proof fn lemma_tiles_prefix<T>(whole: Seq<T>, counts: Seq<usize>, parts: Seq<Seq<T>>, m: int)
    requires
        0 <= m <= parts.len(),
        parts.len() == counts.len(),
        offset_of(counts, counts.len() as int) == whole.len(),
        forall|j: int|
            0 <= j < parts.len() ==> #[trigger] parts[j] == whole.subrange(
                offset_of(counts, j),
                offset_of(counts, j + 1),
            ),
    ensures
        parts.take(m).flatten_alt() == whole.subrange(0, offset_of(counts, m)),
    decreases m,
{
    lemma_offset_monotone(counts, m, counts.len() as int);
    if m == 0 {
        assert(whole.subrange(0, 0) =~= Seq::<T>::empty());
    } else {
        lemma_tiles_prefix(whole, counts, parts, m - 1);
        lemma_offset_monotone(counts, m - 1, m);
        assert(parts.take(m).drop_last() =~= parts.take(m - 1));
        assert(parts.take(m).last() == parts[m - 1]);
        assert(whole.subrange(0, offset_of(counts, m - 1)) + whole.subrange(
            offset_of(counts, m - 1),
            offset_of(counts, m),
        ) =~= whole.subrange(0, offset_of(counts, m)));
    }
}

/// The cell that a row holds, read through the optional validity mask.
/// A `true` mask bit means that the value is absent.
pub open spec fn masked_cell(data: Seq<i64>, mask: Option<Seq<bool>>, k: int) -> Option<i64> {
    match mask {
        Some(m) => if m[k] {
            None
        } else {
            Some(data[k])
        },
        None => Some(data[k]),
    }
}

/// A fixed-width 64-bit integer destination column, with an optional
/// validity mask (null-as-true), filled row by row through a write cursor.
pub struct Int64Column {
    data: Vec<i64>,
    mask: Option<Vec<bool>>,
    i: usize,
}

impl Int64Column {
    /// Number of rows the column holds.
    pub open spec fn rows(&self) -> nat {
        self.data_view().len()
    }

    /// Whether the column carries a validity mask.
    pub open spec fn nullable(&self) -> bool {
        self.mask_view() is Some
    }

    /// The raw value buffer.
    pub closed spec fn data_view(&self) -> Seq<i64> {
        self.data@
    }

    /// The raw validity mask, if any.
    pub closed spec fn mask_view(&self) -> Option<Seq<bool>> {
        match self.mask {
            Some(m) => Some(m@),
            None => None,
        }
    }

    /// Position of the write cursor.
    pub closed spec fn cursor(&self) -> nat {
        self.i as nat
    }

    /// The cell stored at row `k`, as the mask reads it.
    pub open spec fn cell(&self, k: int) -> Option<i64> {
        masked_cell(self.data_view(), self.mask_view(), k)
    }

    /// The cells written so far, in row order.
    pub open spec fn written(&self) -> Seq<Option<i64>> {
        Seq::new(self.cursor(), |k: int| self.cell(k))
    }

    /// The cursor stays within the rows and a mask covers every row.
    pub open spec fn wf(&self) -> bool {
        &&& self.cursor() <= self.rows()
        &&& (self.mask_view() is Some ==> self.mask_view()->0.len() == self.rows())
    }

    /// A column of `nrows` rows, zero-filled, with a mask when `nullable`.
    pub fn new(nrows: usize, nullable: bool) -> (r: Self)
        ensures
            r.wf(),
            r.rows() == nrows,
            r.nullable() == nullable,
            r.cursor() == 0,
            r.data_view() == Seq::new(nrows as nat, |k: int| 0i64),
            nullable ==> r.mask_view() == Some(Seq::new(nrows as nat, |k: int| false)),
    {
        let data: Vec<i64> = vec![0i64; nrows];
        let mask = if nullable {
            Some(vec![false; nrows])
        } else {
            None
        };
        let r = Int64Column { data, mask, i: 0 };
        assert(r.data_view() =~= Seq::new(nrows as nat, |k: int| 0i64));
        if nullable {
            assert(r.mask_view()->0 =~= Seq::new(nrows as nat, |k: int| false));
        }
        r
    }

    /// A column over the given buffers; the mask must cover every row.
    pub fn from_parts(data: Vec<i64>, mask: Option<Vec<bool>>) -> (r: Result<
        Self,
        ConnectorXPythonError,
    >)
        ensures
            r is Ok <==> (mask is None || mask->0@.len() == data@.len()),
            r is Err ==> r->Err_0 == ConnectorXPythonError::ShapeMismatch,
            r is Ok ==> {
                &&& r->Ok_0.wf()
                &&& r->Ok_0.data_view() == data@
                &&& r->Ok_0.nullable() == (mask is Some)
                &&& (mask is Some ==> r->Ok_0.mask_view() == Some(mask->0@))
                &&& r->Ok_0.cursor() == 0
            },
    {
        let ok = match &mask {
            Some(m) => m.len() == data.len(),
            None => true,
        };
        if ok {
            Ok(Int64Column { data, mask, i: 0 })
        } else {
            Err(ConnectorXPythonError::ShapeMismatch)
        }
    }

    pub fn len(&self) -> (r: usize)
        requires
            self.wf(),
        ensures
            r == self.rows(),
    {
        self.data.len()
    }

    pub fn is_nullable(&self) -> (r: bool)
        ensures
            r == self.nullable(),
    {
        self.mask.is_some()
    }

    /// The cell at row `k`: `None` where the mask marks it absent.
    pub fn get(&self, k: usize) -> (r: Option<i64>)
        requires
            self.wf(),
            k < self.rows(),
        ensures
            r == self.cell(k as int),
    {
        match &self.mask {
            Some(m) => if m[k] {
                None
            } else {
                Some(self.data[k])
            },
            None => Some(self.data[k]),
        }
    }

    /// Writes a present value at the cursor and advances it.
    pub fn write(&mut self, val: i64)
        requires
            old(self).wf(),
            old(self).cursor() < old(self).rows(),
        ensures
            final(self).wf(),
            final(self).rows() == old(self).rows(),
            final(self).nullable() == old(self).nullable(),
            final(self).cursor() == old(self).cursor() + 1,
            final(self).written() == old(self).written().push(Some(val)),
            final(self).data_view() == old(self).data_view().update(old(self).cursor() as int, val),
            final(self).mask_view() == match old(self).mask_view() {
                Some(m) => Some(m.update(old(self).cursor() as int, false)),
                None => None,
            },
    {
        let ghost before = self.written();
        let _n = self.data.len();
        let i = self.i;
        self.data.set(i, val);
        match &mut self.mask {
            Some(m) => {
                m.set(i, false);
            },
            None => {},
        }
        self.i = i + 1;
        assert(self.written() =~= before.push(Some(val)));
        assert(self.data@ =~= old(self).data@.update(i as int, val));
    }

    /// Writes a possibly absent value at the cursor and advances it. An absent
    /// value sets the mask bit; on a column without a mask it is refused and
    /// the column is left as it was.
    pub fn write_opt(&mut self, val: Option<i64>) -> (r: Result<(), ConnectorXPythonError>)
        requires
            old(self).wf(),
            old(self).cursor() < old(self).rows(),
        ensures
            final(self).wf(),
            final(self).rows() == old(self).rows(),
            final(self).nullable() == old(self).nullable(),
            r is Err <==> (val is None && !old(self).nullable()),
            r is Err ==> r->Err_0 == ConnectorXPythonError::NullInNonNullable && *final(self)
                == *old(self),
            r is Ok ==> final(self).cursor() == old(self).cursor() + 1 && final(self).written()
                == old(self).written().push(val),
            r is Ok ==> final(self).data_view() == match val {
                Some(v) => old(self).data_view().update(old(self).cursor() as int, v),
                None => old(self).data_view(),
            },
            r is Ok ==> final(self).mask_view() == match old(self).mask_view() {
                Some(m) => Some(m.update(old(self).cursor() as int, val is None)),
                None => None,
            },
    {
        match val {
            Some(v) => {
                self.write(v);
                Ok(())
            },
            None => {
                let ghost before = self.written();
                let _n = self.data.len();
                let i = self.i;
                match &mut self.mask {
                    Some(m) => {
                        m.set(i, true);
                    },
                    None => {
                        return Err(ConnectorXPythonError::NullInNonNullable);
                    },
                }
                self.i = i + 1;
                assert(self.written() =~= before.push(None));
                Ok(())
            },
        }
    }

    /// Seals the column: succeeds exactly when every row has been written.
    pub fn finalize(&self) -> (r: Result<(), ConnectorXPythonError>)
        requires
            self.wf(),
        ensures
            r is Ok <==> self.cursor() == self.rows(),
            r is Err ==> r->Err_0 == ConnectorXPythonError::FinalizeIncomplete,
    {
        if self.i == self.data.len() {
            Ok(())
        } else {
            Err(ConnectorXPythonError::FinalizeIncomplete)
        }
    }

    /// Splits the column into row-disjoint sub-columns of `counts[j]` rows
    /// each, taken in order from the first row; each starts with its cursor at 0.
    pub fn partition(self, counts: &[usize]) -> (r: Vec<Int64Column>)
        requires
            self.wf(),
            offset_of(counts@, counts@.len() as int) <= self.rows(),
        ensures
            r@.len() == counts@.len(),
            forall|j: int|
                0 <= j < r@.len() ==> {
                    &&& (#[trigger] r@[j]).wf()
                    &&& r@[j].rows() == counts@[j]
                    &&& r@[j].cursor() == 0
                    &&& r@[j].nullable() == self.nullable()
                    &&& r@[j].data_view() == self.data_view().subrange(
                        offset_of(counts@, j),
                        offset_of(counts@, j + 1),
                    )
                    &&& (self.nullable() ==> r@[j].mask_view()->0 == self.mask_view()->0.subrange(
                        offset_of(counts@, j),
                        offset_of(counts@, j + 1),
                    ))
                },
    {
        let ghost all = self.data@;
        let ghost all_mask = self.mask_view();
        let mut partitions: Vec<Int64Column> = Vec::new();
        let mut data = self.data;
        let mut mask = self.mask;
        let mut j: usize = 0;
        proof {
            assert forall|t: int| 0 <= t <= counts@.len() implies 0 <= #[trigger] offset_of(counts@, t)
                <= offset_of(counts@, counts@.len() as int) by {
                lemma_offset_monotone(counts@, t, counts@.len() as int);
            }
            assert(data@ == all.subrange(0, all.len() as int));
        }
        while j < counts.len()
            invariant
                0 <= j <= counts@.len(),
                offset_of(counts@, counts@.len() as int) <= all.len(),
                forall|t: int| 0 <= t <= counts@.len() ==> 0 <= #[trigger] offset_of(counts@, t) <= offset_of(counts@, counts@.len() as int),
                forall|t: int| 0 <= t < counts@.len() ==> #[trigger] offset_of(counts@, t) <= offset_of(counts@, t + 1),
                data@ == all.subrange(offset_of(counts@, j as int), all.len() as int),
                all_mask is Some <==> mask is Some,
                mask is Some ==> mask->0@ == all_mask->0.subrange(offset_of(counts@, j as int), all.len() as int),
                all_mask is Some ==> all_mask->0.len() == all.len(),
                partitions@.len() == j,
                forall|t: int|
                    0 <= t < j ==> {
                        &&& (#[trigger] partitions@[t]).wf()
                        &&& partitions@[t].rows() == counts@[t]
                        &&& partitions@[t].cursor() == 0
                        &&& partitions@[t].nullable() == (all_mask is Some)
                        &&& partitions@[t].data_view() == all.subrange(
                            offset_of(counts@, t),
                            offset_of(counts@, t + 1),
                        )
                        &&& (all_mask is Some ==> partitions@[t].mask_view()->0 == all_mask->0.subrange(
                            offset_of(counts@, t),
                            offset_of(counts@, t + 1),
                        ))
                    },
            decreases counts@.len() - j,
        {
            let c = counts[j];
            let rest = data.split_off(c);
            let sub_mask = match mask {
                Some(mut m) => {
                    let m_rest = m.split_off(c);
                    mask = Some(m_rest);
                    Some(m)
                },
                None => {
                    mask = None;
                    None
                },
            };
            partitions.push(Int64Column { data, mask: sub_mask, i: 0 });
            data = rest;
            j = j + 1;
        }
        partitions
    }
}

/// The buffers of a frame block of 64-bit integers.
pub enum Int64Block {
    /// A plain 2-D block: `ncols` columns of `nrows` values each, stored
    /// column after column.
    NumPy(Vec<i64>, usize, usize),
    /// One masked column: values and validity mask (null-as-true).
    Extention(Vec<i64>, Vec<bool>),
}

impl Int64Block {
    /// Splits the block into its column writers, in column order. A plain
    /// block gives unmasked columns; a masked one gives one masked column.
    /// Buffers that do not have the declared shape are refused.
    pub fn split(self) -> (r: Result<Vec<Int64Column>, ConnectorXPythonError>)
        ensures
            r is Err ==> r->Err_0 == ConnectorXPythonError::ShapeMismatch,
            match self {
                Int64Block::NumPy(data, ncols, nrows) => {
                    &&& (r is Ok <==> data@.len() == ncols * nrows)
                    &&& r is Ok ==> {
                        &&& r->Ok_0@.len() == ncols
                        &&& forall|j: int|
                            0 <= j < ncols ==> {
                                &&& (#[trigger] r->Ok_0@[j]).wf()
                                &&& r->Ok_0@[j].cursor() == 0
                                &&& !r->Ok_0@[j].nullable()
                                &&& r->Ok_0@[j].data_view() == data@.subrange(
                                    j * nrows,
                                    (j + 1) * nrows,
                                )
                            }
                    }
                },
                Int64Block::Extention(data, mask) => {
                    &&& (r is Ok <==> data@.len() == mask@.len())
                    &&& r is Ok ==> {
                        &&& r->Ok_0@.len() == 1
                        &&& r->Ok_0@[0].wf()
                        &&& r->Ok_0@[0].cursor() == 0
                        &&& r->Ok_0@[0].data_view() == data@
                        &&& r->Ok_0@[0].mask_view() == Some(mask@)
                    }
                },
            },
    {
        match self {
            Int64Block::Extention(data, mask) => {
                let col = Int64Column::from_parts(data, Some(mask))?;
                let mut ret: Vec<Int64Column> = Vec::new();
                ret.push(col);
                Ok(ret)
            },
            Int64Block::NumPy(data, ncols, nrows) => {
                let dlen = data.len();
                let ok = match ncols.checked_mul(nrows) {
                    Some(total) => total == dlen,
                    None => false,
                };
                if !ok {
                    return Err(ConnectorXPythonError::ShapeMismatch);
                }
                let ghost all = data@;
                let mut ret: Vec<Int64Column> = Vec::new();
                let mut rest = data;
                let mut j: usize = 0;
                let mut off: usize = 0;
                while j < ncols
                    invariant
                        j <= ncols,
                        all.len() == ncols * nrows,
                        all.len() == dlen,
                        off == j * nrows,
                        off <= all.len(),
                        rest@ == all.subrange(off as int, all.len() as int),
                        ret@.len() == j,
                        forall|t: int|
                            0 <= t < j ==> {
                                &&& (#[trigger] ret@[t]).wf()
                                &&& ret@[t].cursor() == 0
                                &&& !ret@[t].nullable()
                                &&& ret@[t].data_view() == all.subrange(t * nrows, (t + 1) * nrows)
                            },
                    decreases ncols - j,
                {
                    proof {
                        assert((j + 1) * nrows == j * nrows + nrows) by (nonlinear_arith);
                        assert((j + 1) * nrows <= ncols * nrows) by (nonlinear_arith)
                            requires
                                j + 1 <= ncols,
                        ;
                    }
                    let tail = rest.split_off(nrows);
                    ret.push(Int64Column { data: rest, mask: None, i: 0 });
                    rest = tail;
                    off = off + nrows;
                    j = j + 1;
                }
                Ok(ret)
            },
        }
    }
}

/// Partitioning loses and duplicates no row and keeps row order: when the
/// counts cover every row, the values and the masks of the partitions, laid
/// end to end, are the column's own.
pub proof fn lemma_partition_preserves_rows(
    col: Int64Column,
    counts: Seq<usize>,
    parts: Seq<Int64Column>,
)
    requires
        offset_of(counts, counts.len() as int) == col.rows(),
        parts.len() == counts.len(),
        forall|j: int|
            0 <= j < parts.len() ==> {
                &&& (#[trigger] parts[j]).nullable() == col.nullable()
                &&& parts[j].data_view() == col.data_view().subrange(
                    offset_of(counts, j),
                    offset_of(counts, j + 1),
                )
                &&& (col.nullable() ==> parts[j].mask_view()->0 == col.mask_view()->0.subrange(
                    offset_of(counts, j),
                    offset_of(counts, j + 1),
                ))
            },
        col.wf(),
    ensures
        parts.map_values(|c: Int64Column| c.data_view()).flatten_alt() == col.data_view(),
        col.nullable() ==> parts.map_values(|c: Int64Column| c.mask_view()->0).flatten_alt()
            == col.mask_view()->0,
{
    let datas = parts.map_values(|c: Int64Column| c.data_view());
    assert forall|j: int| 0 <= j < datas.len() implies #[trigger] datas[j] == col.data_view().subrange(
        offset_of(counts, j),
        offset_of(counts, j + 1),
    ) by {
        assert(parts[j].nullable() == col.nullable());
    }
    lemma_tiles(col.data_view(), counts, datas);
    if col.nullable() {
        let masks = parts.map_values(|c: Int64Column| c.mask_view()->0);
        assert forall|j: int| 0 <= j < masks.len() implies #[trigger] masks[j]
            == col.mask_view()->0.subrange(offset_of(counts, j), offset_of(counts, j + 1)) by {
            assert(parts[j].nullable() == col.nullable());
        }
        lemma_tiles(col.mask_view()->0, counts, masks);
    }
}

/// In a masked column, a row's mask bit is set exactly when the value
/// written at that row was absent.
pub proof fn lemma_mask_marks_absent(col: Int64Column, k: int)
    requires
        col.wf(),
        col.nullable(),
        0 <= k < col.cursor(),
    ensures
        col.mask_view()->0[k] <==> col.written()[k] is None,
        !col.mask_view()->0[k] ==> col.written()[k] == Some(col.data_view()[k]),
{
}

} // verus!
