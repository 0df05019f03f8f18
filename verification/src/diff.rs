//! Line diffing via a longest-common-subsequence table.
//!
//! The table cell at (r, c) holds the length of the longest common
//! subsequence of the first r lines of one file and the first c lines of
//! the other; walking the filled table back from its far corner yields
//! the diff. Reading the files happens elsewhere; this module computes
//! the table and the tagged diff lines.

use vstd::prelude::*;
use vstd::pervasive::VecAdditionalExecFns;

verus! {

/// A rectangular grid of numbers, all zero at birth.
pub struct Grid {
    pub num_rows: usize,
    pub num_cols: usize,
    pub elems: Vec<Vec<usize>>,
}

impl Grid {
    /// Every row is present and has the full width.
    pub open spec fn wf(&self) -> bool {
        &&& self.elems@.len() == self.num_rows
        &&& forall|r: int| 0 <= r < self.num_rows ==> self.elems@[r]@.len() == self.num_cols
    }

    /// The value stored at row `r`, column `c`.
    pub open spec fn at(&self, r: int, c: int) -> nat {
        self.elems@[r]@[c] as nat
    }

    /// A grid of the given dimensions, filled with zeroes.
    pub fn new(num_rows: usize, num_cols: usize) -> (g: Grid)
        ensures
            g.wf(),
            g.num_rows == num_rows,
            g.num_cols == num_cols,
            forall|r: int, c: int| 0 <= r < num_rows && 0 <= c < num_cols ==> g.at(r, c) == 0,
    {
        let mut elems: Vec<Vec<usize>> = Vec::new();
        let mut r: usize = 0;
        while r < num_rows
            invariant
                r <= num_rows,
                elems@.len() == r,
                forall|k: int| 0 <= k < r ==> elems@[k]@.len() == num_cols,
                forall|k: int, c: int|
                    0 <= k < r && 0 <= c < num_cols ==> elems@[k]@[c] == 0usize,
            decreases num_rows - r,
        {
            let mut row: Vec<usize> = Vec::new();
            let mut c: usize = 0;
            while c < num_cols
                invariant
                    c <= num_cols,
                    row@.len() == c,
                    forall|k: int| 0 <= k < c ==> row@[k] == 0usize,
                decreases num_cols - c,
            {
                row.push(0);
                c += 1;
            }
            elems.push(row);
            r += 1;
        }
        Grid { num_rows, num_cols, elems }
    }

    /// The grid's dimensions, rows first.
    pub fn size(&self) -> (s: (usize, usize))
        ensures
            s == (self.num_rows, self.num_cols),
    {
        (self.num_rows, self.num_cols)
    }

    /// The value at (row, col), or nothing outside the grid.
    pub fn get(&self, row: usize, col: usize) -> (r: Option<usize>)
        requires
            self.wf(),
        ensures
            r == if row < self.num_rows && col < self.num_cols {
                Some((self.at(row as int, col as int) as usize))
            } else {
                None::<usize>
            },
    {
        if row < self.num_rows && col < self.num_cols {
            Some(self.elems[row][col])
        } else {
            None
        }
    }

    /// Stores `val` at (row, col); an index outside the grid is refused
    /// and changes nothing.
    pub fn set(&mut self, row: usize, col: usize, val: usize) -> (r: Result<(), ()>)
        requires
            old(self).wf(),
        ensures
            final(self).wf(),
            final(self).num_rows == old(self).num_rows,
            final(self).num_cols == old(self).num_cols,
            if row < old(self).num_rows && col < old(self).num_cols {
                &&& r is Ok
                &&& final(self).at(row as int, col as int) == val
                &&& forall|r2: int, c2: int|
                    0 <= r2 < old(self).num_rows && 0 <= c2 < old(self).num_cols && !(r2 == row
                        && c2 == col) ==> final(self).at(r2, c2) == old(self).at(r2, c2)
            } else {
                r is Err && *final(self) == *old(self)
            },
    {
        if row < self.num_rows && col < self.num_cols {
            let inner: &mut Vec<usize> = &mut self.elems[row];
            inner.set(col, val);
            Ok(())
        } else {
            Err(())
        }
    }
}

/// The length of the longest common subsequence of two line sequences.
pub open spec fn lcs_len(a: Seq<Seq<char>>, b: Seq<Seq<char>>) -> nat
    decreases a.len() + b.len(),
{
    if a.len() == 0 || b.len() == 0 {
        0
    } else if a.last() == b.last() {
        lcs_len(a.drop_last(), b.drop_last()) + 1
    } else {
        let keep_a = lcs_len(a, b.drop_last());
        let keep_b = lcs_len(a.drop_last(), b);
        if keep_a >= keep_b {
            keep_a
        } else {
            keep_b
        }
    }
}

/// A common subsequence is never longer than either sequence.
pub proof fn lemma_lcs_len_bound(a: Seq<Seq<char>>, b: Seq<Seq<char>>)
    ensures
        lcs_len(a, b) <= a.len(),
        lcs_len(a, b) <= b.len(),
    decreases a.len() + b.len(),
{
    if a.len() > 0 && b.len() > 0 {
        lemma_lcs_len_bound(a.drop_last(), b.drop_last());
        lemma_lcs_len_bound(a, b.drop_last());
        lemma_lcs_len_bound(a.drop_last(), b);
    }
}

/// Fills the table: cell (r, c) holds the longest-common-subsequence
/// length of the first r lines of `seq1` and the first c lines of `seq2`.
pub fn lcs(seq1: &Vec<String>, seq2: &Vec<String>) -> (g: Grid)
    requires
        seq1@.len() < usize::MAX,
        seq2@.len() < usize::MAX,
    ensures
        g.wf(),
        g.num_rows == seq1@.len() + 1,
        g.num_cols == seq2@.len() + 1,
        forall|r: int, c: int|
            0 <= r <= seq1@.len() && 0 <= c <= seq2@.len() ==> g.at(r, c) == lcs_len(
                seq1.deep_view().subrange(0, r),
                seq2.deep_view().subrange(0, c),
            ),
{
    let rows = seq1.len();
    let cols = seq2.len();
    let mut grid = Grid::new(rows + 1, cols + 1);
    let ghost a = seq1.deep_view();
    let ghost b = seq2.deep_view();
    assert forall|r: int| 0 <= r <= rows implies lcs_len(a.subrange(0, r), b.subrange(0, 0))
        == 0 by {
        assert(b.subrange(0, 0).len() == 0);
    }
    let mut row: usize = 0;
    while row < rows
        invariant
            row <= rows,
            rows == a.len(),
            cols == b.len(),
            a == seq1.deep_view(),
            b == seq2.deep_view(),
            grid.wf(),
            grid.num_rows == rows + 1,
            grid.num_cols == cols + 1,
            forall|r: int, c: int|
                0 <= r <= row && 0 <= c <= cols ==> grid.at(r, c) == lcs_len(
                    a.subrange(0, r),
                    b.subrange(0, c),
                ),
            forall|r: int| 0 <= r <= rows ==> grid.at(r, 0) == 0,
        decreases rows - row,
    {
        let mut col: usize = 0;
        while col < cols
            invariant
                row < rows,
                col <= cols,
                rows == a.len(),
                cols == b.len(),
                a == seq1.deep_view(),
                b == seq2.deep_view(),
                grid.wf(),
                grid.num_rows == rows + 1,
                grid.num_cols == cols + 1,
                forall|r: int, c: int|
                    0 <= r <= row && 0 <= c <= cols ==> grid.at(r, c) == lcs_len(
                        a.subrange(0, r),
                        b.subrange(0, c),
                    ),
                forall|c: int|
                    0 <= c <= col ==> grid.at(row + 1, c) == lcs_len(
                        a.subrange(0, row + 1),
                        b.subrange(0, c),
                    ),
                forall|r: int| 0 <= r <= rows ==> grid.at(r, 0) == 0,
            decreases cols - col,
        {
            let ghost ta = a.subrange(0, row + 1);
            let ghost tb = b.subrange(0, col + 1);
            assert(ta.drop_last() =~= a.subrange(0, row as int));
            assert(tb.drop_last() =~= b.subrange(0, col as int));
            assert(ta.last() == a[row as int]);
            assert(tb.last() == b[col as int]);
            proof {
                lemma_lcs_len_bound(ta, tb);
            }
            let val: usize;
            if seq1[row] == seq2[col] {
                let below = grid.get(row, col).unwrap();
                val = below + 1;
            } else {
                let up = grid.get(row, col + 1).unwrap();
                let left = grid.get(row + 1, col).unwrap();
                val = if up >= left {
                    up
                } else {
                    left
                };
                assert(lcs_len(ta, tb) == if lcs_len(ta, tb.drop_last()) >= lcs_len(
                    ta.drop_last(),
                    tb,
                ) {
                    lcs_len(ta, tb.drop_last())
                } else {
                    lcs_len(ta.drop_last(), tb)
                });
            }
            let _ = grid.set(row + 1, col + 1, val);
            col += 1;
        }
        row += 1;
    }
    proof {
        assert(a.subrange(0, rows as int) =~= a);
        assert(b.subrange(0, cols as int) =~= b);
    }
    grid
}

/// One line of a diff.
pub enum DiffLine {
    /// The line stands in both files.
    Same(String),
    /// The line stands only in the second file.
    Added(String),
    /// The line stands only in the first file.
    Removed(String),
    /// The blank line that ends the walk at the table's origin.
    Blank,
}

/// The diff that the table walk from (i, j) produces, oldest line first.
pub open spec fn spec_diff(
    g: Grid,
    lines1: Seq<String>,
    lines2: Seq<String>,
    i: nat,
    j: nat,
) -> Seq<DiffLine>
    decreases i + j,
{
    if i > 0 && j > 0 && lines1[i - 1]@ == lines2[j - 1]@ {
        spec_diff(g, lines1, lines2, (i - 1) as nat, (j - 1) as nat).push(
            DiffLine::Same(lines1[i - 1]),
        )
    } else if j > 0 && (i == 0 || g.at(i as int, j - 1) >= g.at(i - 1, j as int)) {
        spec_diff(g, lines1, lines2, i, (j - 1) as nat).push(DiffLine::Added(lines2[j - 1]))
    } else if i > 0 && (j == 0 || g.at(i as int, j - 1) < g.at(i - 1, j as int)) {
        spec_diff(g, lines1, lines2, (i - 1) as nat, j).push(DiffLine::Removed(lines1[i - 1]))
    } else {
        seq![DiffLine::Blank]
    }
}

/// Walks the filled table back from (i, j) and returns the diff lines
/// in file order.
pub fn diff_lines(
    lcs_table: &Grid,
    lines1: &Vec<String>,
    lines2: &Vec<String>,
    i: usize,
    j: usize,
) -> (d: Vec<DiffLine>)
    requires
        lcs_table.wf(),
        lcs_table.num_rows == lines1@.len() + 1,
        lcs_table.num_cols == lines2@.len() + 1,
        i <= lines1@.len(),
        j <= lines2@.len(),
    ensures
        d@ == spec_diff(*lcs_table, lines1@, lines2@, i as nat, j as nat),
    decreases i + j,
{
    if i > 0 && j > 0 && lines1[i - 1] == lines2[j - 1] {
        let mut d = diff_lines(lcs_table, lines1, lines2, i - 1, j - 1);
        d.push(DiffLine::Same(lines1[i - 1].clone()));
        d
    } else if j > 0 && (i == 0 || lcs_table.get(i, j - 1).unwrap() >= lcs_table.get(
        i - 1,
        j,
    ).unwrap()) {
        let mut d = diff_lines(lcs_table, lines1, lines2, i, j - 1);
        d.push(DiffLine::Added(lines2[j - 1].clone()));
        d
    } else if i > 0 && (j == 0 || lcs_table.get(i, j - 1).unwrap() < lcs_table.get(
        i - 1,
        j,
    ).unwrap()) {
        let mut d = diff_lines(lcs_table, lines1, lines2, i - 1, j);
        d.push(DiffLine::Removed(lines1[i - 1].clone()));
        d
    } else {
        let mut d: Vec<DiffLine> = Vec::new();
        d.push(DiffLine::Blank);
        assert(d@ =~= seq![DiffLine::Blank]);
        d
    }
}

} // verus!
