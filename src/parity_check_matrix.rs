use crate::gf2::{gf2_add, GF2};
use vstd::prelude::*;

verus! {

/// Number of positions whose row lies strictly below `r`.
pub open spec fn count_below(positions: Seq<(usize, usize)>, r: int) -> nat
    decreases positions.len(),
{
    if positions.len() == 0 {
        0
    } else {
        count_below(positions.drop_last(), r) + if (positions.last().0 as int) < r {
            1nat
        } else {
            0nat
        }
    }
}

/// Positions listed by non-decreasing row.
pub open spec fn sorted_by_row(positions: Seq<(usize, usize)>) -> bool {
    forall|i: int, j: int|
        0 <= i <= j < positions.len() ==> positions[i].0 <= positions[j].0
}

/// Number of rows encoded for `positions`: one past the last row, none when empty.
pub open spec fn encoded_rows(positions: Seq<(usize, usize)>) -> nat {
    if positions.len() == 0 {
        0
    } else {
        (positions.last().0 + 1) as nat
    }
}

/// Sum over GF(2) of `bits` at the given columns; a column beyond `bits` adds nothing.
pub open spec fn dot_spec(columns: Seq<usize>, bits: Seq<GF2>) -> GF2
    decreases columns.len(),
{
    if columns.len() == 0 {
        GF2::B0
    } else {
        let c = columns.last();
        let term = if (c as int) < bits.len() {
            bits[c as int]
        } else {
            GF2::B0
        };
        gf2_add(dot_spec(columns.drop_last(), bits), term)
    }
}

/// A sparse parity-check matrix, stored row by row: the columns of row `i`
/// are `column_indices[row_ranges[i]..row_ranges[i + 1]]`.
#[derive(Clone, Debug, PartialEq, Eq)]
pub struct ParityCheckMatrix {
    row_ranges: Vec<usize>,
    column_indices: Vec<usize>,
}

impl ParityCheckMatrix {
    pub closed spec fn ranges(&self) -> Seq<usize> {
        self.row_ranges@
    }

    pub closed spec fn columns(&self) -> Seq<usize> {
        self.column_indices@
    }

    pub open spec fn num_rows(&self) -> nat {
        (self.ranges().len() - 1) as nat
    }

    /// The row ranges start at zero, never decrease, and end at the number of columns stored.
    pub open spec fn wf(&self) -> bool {
        &&& self.ranges().len() >= 1
        &&& self.ranges()[0] == 0
        &&& self.ranges().last() == self.columns().len()
        &&& forall|i: int, j: int|
            0 <= i <= j < self.ranges().len() ==> self.ranges()[i] <= self.ranges()[j]
    }

    /// The columns of row `r`.
    pub open spec fn row(&self, r: int) -> Seq<usize> {
        self.columns().subrange(self.ranges()[r] as int, self.ranges()[r + 1] as int)
    }

    /// Builds a matrix from the positions `(row, column)` of its nonzero entries,
    /// listed by non-decreasing row. Rows without entries get an empty range.
    pub fn new(positions: Vec<(usize, usize)>) -> (m: Self)
        requires
            sorted_by_row(positions@),
            forall|i: int| 0 <= i < positions@.len() ==> positions@[i].0 < usize::MAX,
        ensures
            m.wf(),
            m.num_rows() == encoded_rows(positions@),
            forall|r: int| 0 <= r < m.ranges().len() ==> m.ranges()[r] == count_below(positions@, r),
            m.columns() == positions@.map_values(|p: (usize, usize)| p.1),
    {
        let mut column_indices: Vec<usize> = Vec::new();
        let mut row_ranges: Vec<usize> = Vec::new();
        row_ranges.push(0);
        if positions.len() == 0 {
            return ParityCheckMatrix { row_ranges, column_indices };
        }
        let mut active_row: usize = 0;
        let mut row_length: usize = 0;
        let mut i: usize = 0;
        while i < positions.len()
            invariant
                sorted_by_row(positions@),
                0 <= i <= positions@.len(),
                row_ranges@.len() == active_row + 1,
                i > 0 ==> active_row == positions@[i - 1].0,
                i == 0 ==> active_row == 0,
                row_ranges@[0] == 0,
                forall|k: int| 0 <= k < i ==> positions@[k].0 <= active_row,
                forall|r: int|
                    0 <= r <= active_row ==> row_ranges@[r] == count_below(positions@.take(i as int), r),
                row_ranges@[active_row as int] + row_length == i,
                forall|a: int, b: int|
                    0 <= a <= b < row_ranges@.len() ==> row_ranges@[a] <= row_ranges@[b],
                column_indices@ == positions@.take(i as int).map_values(|p: (usize, usize)| p.1),
            decreases positions@.len() - i,
        {
            let row = positions[i].0;
            let col = positions[i].1;
            proof {
                assert(positions@.take(i + 1).drop_last() == positions@.take(i as int));
                if i > 0 {
                    assert(positions@[i - 1].0 <= positions@[i as int].0);
                }
            }
            assert(active_row <= row);
            let ghost old_active = active_row;
            if row == active_row {
                row_length += 1;
            } else {
                let ghost before = row_ranges@;
                let start = row_ranges[active_row] + row_length;
                while active_row < row
                    invariant
                        active_row <= row,
                        row_ranges@.len() == active_row + 1,
                        before.len() <= row_ranges@.len(),
                        before.len() == old_active + 1,
                        forall|r: int| 0 <= r < before.len() ==> row_ranges@[r] == before[r],
                        forall|r: int| before.len() <= r < row_ranges@.len() ==> row_ranges@[r] == i,
                        forall|r: int|
                            0 <= r < before.len() ==> before[r] == count_below(positions@.take(i as int), r),
                        forall|a: int, b: int|
                            0 <= a <= b < row_ranges@.len() ==> row_ranges@[a] <= row_ranges@[b],
                        before[old_active as int] <= i,
                        row_ranges@[0] == 0,
                        forall|k: int| 0 <= k < i ==> positions@[k].0 <= old_active,
                        start == i,
                        i < positions@.len(),
                    decreases row - active_row,
                {
                    row_ranges.push(start);
                    active_row += 1;
                }
                row_length = 1;
                proof {
                    assert forall|r: int| 0 <= r <= active_row implies row_ranges@[r] == count_below(
                        positions@.take(i as int),
                        r,
                    ) by {
                        if r >= before.len() {
                            assert forall|k: int| 0 <= k < positions@.take(i as int).len() implies (
                            positions@.take(i as int)[k].0 as int) < r by {
                                assert(positions@[k].0 <= old_active);
                            }
                            lemma_count_below_all(positions@.take(i as int), r);
                            assert(row_ranges@[r] == i);
                        } else {
                            assert(row_ranges@[r] == before[r]);
                        }
                    }
                }
            }
            column_indices.push(col);
            proof {
                assert forall|r: int| 0 <= r <= active_row implies row_ranges@[r] == count_below(
                    positions@.take(i + 1),
                    r,
                ) by {
                    assert(positions@.take(i + 1).last() == positions@[i as int]);
                }
                assert(column_indices@ == positions@.take(i + 1).map_values(|p: (usize, usize)| p.1));
            }
            i += 1;
        }
        let last = row_ranges[active_row] + row_length;
        row_ranges.push(last);
        proof {
            assert(positions@.take(i as int) == positions@);
            lemma_count_below_all(positions@, active_row + 1);
            assert(column_indices@.len() == i);
            assert forall|a: int, b: int| 0 <= a <= b < row_ranges@.len() implies row_ranges@[a]
                <= row_ranges@[b] by {
                if b == row_ranges@.len() - 1 && a < b {
                    assert(row_ranges@[a] <= row_ranges@[active_row as int]);
                }
            }
        }
        ParityCheckMatrix { row_ranges, column_indices }
    }

    /// The columns of row `row`, or `None` when the matrix has no such row.
    pub fn row_slice(&self, row: usize) -> (r: Option<Slice<'_>>)
        requires
            self.wf(),
        ensures
            r.is_none() <==> row >= self.num_rows(),
            r matches Some(s) ==> s.view() == self.row(row as int),
    {
        if row >= self.row_ranges.len() - 1 {
            return None;
        }
        let start = self.row_ranges[row];
        let end = self.row_ranges[row + 1];
        Some(Slice { positions: vstd::slice::slice_subrange(self.column_indices.as_slice(), start, end) })
    }
}

/// When every position lies below `r`, all of them are counted.
proof fn lemma_count_below_all(positions: Seq<(usize, usize)>, r: int)
    requires
        forall|k: int| 0 <= k < positions.len() ==> (positions[k].0 as int) < r,
    ensures
        count_below(positions, r) == positions.len(),
    decreases positions.len(),
{
    if positions.len() > 0 {
        lemma_count_below_all(positions.drop_last(), r);
    }
}

/// The columns of one row of a matrix, borrowed from it.
pub struct Slice<'a> {
    positions: &'a [usize],
}

impl<'a> Slice<'a> {
    pub closed spec fn view(&self) -> Seq<usize> {
        self.positions@
    }

    /// Dot product over GF(2) with `other`; columns beyond `other` are skipped.
    pub fn dot(&self, other: &[GF2]) -> (r: GF2)
        ensures
            r == dot_spec(self.view(), other@),
    {
        let mut total = GF2::B0;
        let mut i: usize = 0;
        while i < self.positions.len()
            invariant
                0 <= i <= self.positions@.len(),
                total == dot_spec(self.positions@.take(i as int), other@),
            decreases self.positions@.len() - i,
        {
            let pos = self.positions[i];
            proof {
                assert(self.positions@.take(i + 1).drop_last() == self.positions@.take(i as int));
            }
            if pos < other.len() {
                total = total.plus(other[pos]);
            }
            i += 1;
        }
        proof {
            assert(self.positions@.take(i as int) == self.positions@);
        }
        total
    }
}

} // verus!
