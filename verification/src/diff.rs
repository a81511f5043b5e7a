//! Line-based file comparison: the longest-common-subsequence table and
//! the edit script derived from it.
//!
//! `lcs` fills a table whose cell `(i, j)` is the length of the longest
//! common subsequence of the first `i` lines of one file and the first
//! `j` lines of the other.  `diff_lines` walks the table back from the
//! corner to recover an edit script; the script is built from the last
//! line towards the first, so a consumer prints it in reverse order.

use crate::command::str_eq;
use vstd::prelude::*;

verus! {

/// A table of subsequence lengths, stored row-major.
pub struct Grid {
    num_rows: usize,
    num_cols: usize,
    cells: Vec<usize>,
}

impl Grid {
    pub closed spec fn rows(&self) -> int {
        self.num_rows as int
    }

    pub closed spec fn cols(&self) -> int {
        self.num_cols as int
    }

    pub closed spec fn cell(&self, r: int, c: int) -> usize {
        self.cells@[r * self.cols() + c]
    }

    pub closed spec fn wf(&self) -> bool {
        self.cells@.len() == self.rows() * self.cols()
    }

    /// A grid of the given dimensions with every cell zero.
    pub fn new(num_rows: usize, num_cols: usize) -> (g: Grid)
        requires
            num_rows * num_cols <= usize::MAX,
        ensures
            g.wf(),
            g.rows() == num_rows,
            g.cols() == num_cols,
            forall|r: int, c: int|
                0 <= r < num_rows && 0 <= c < num_cols ==> g.cell(r, c) == 0,
    {
        let n = num_rows * num_cols;
        let cells = vec![0usize; n];
        let g = Grid { num_rows, num_cols, cells };
        proof {
            assert forall|r: int, c: int| 0 <= r < num_rows && 0 <= c < num_cols implies g.cell(
                r,
                c,
            ) == 0 by {
                assert(r * g.cols() + c < g.rows() * g.cols()) by (nonlinear_arith)
                    requires
                        0 <= r < g.rows(),
                        0 <= c < g.cols(),
                ;
                assert(0 <= r * g.cols() + c) by (nonlinear_arith)
                    requires
                        0 <= r,
                        0 <= c,
                        g.cols() >= 0,
                ;
            }
        }
        g
    }

    pub fn size(&self) -> (r: (usize, usize))
        ensures
            r.0 == self.rows(),
            r.1 == self.cols(),
    {
        (self.num_rows, self.num_cols)
    }

    /// The value at `(row, col)`, or `None` outside the table.
    pub fn get(&self, row: usize, col: usize) -> (r: Option<usize>)
        requires
            self.wf(),
        ensures
            r is Some <==> row < self.rows() && col < self.cols(),
            r matches Some(v) ==> v == self.cell(row as int, col as int),
    {
        if row >= self.num_rows || col >= self.num_cols {
            return None;
        }
        let n = self.cells.len();
        proof {
            assert(n == self.rows() * self.cols());
            assert(row * self.cols() + col < self.rows() * self.cols()) by (nonlinear_arith)
                requires
                    0 <= (row as int) < self.rows(),
                    0 <= (col as int) < self.cols(),
            ;
        }
        Some(self.cells[row * self.num_cols + col])
    }

    /// Replaces the value at `(row, col)`; an out-of-bounds location is
    /// an error and leaves the table unchanged.
    pub fn set(&mut self, row: usize, col: usize, val: usize) -> (r: Result<(), &'static str>)
        requires
            old(self).wf(),
        ensures
            final(self).wf(),
            final(self).rows() == old(self).rows(),
            final(self).cols() == old(self).cols(),
            r is Err <==> !(row < old(self).rows() && col < old(self).cols()),
            r is Err ==> *final(self) == *old(self),
            r is Ok ==> forall|r2: int, c2: int|
                0 <= r2 < final(self).rows() && 0 <= c2 < final(self).cols() ==> final(self).cell(
                    r2,
                    c2,
                ) == if r2 == row && c2 == col {
                    val
                } else {
                    old(self).cell(r2, c2)
                },
    {
        if row >= self.num_rows || col >= self.num_cols {
            return Err("Invalid location");
        }
        let n = self.cells.len();
        proof {
            assert(n == self.rows() * self.cols());
            assert(row * self.cols() + col < self.rows() * self.cols()) by (nonlinear_arith)
                requires
                    0 <= (row as int) < self.rows(),
                    0 <= (col as int) < self.cols(),
            ;
        }
        let idx = row * self.num_cols + col;
        self.cells[idx] = val;
        proof {
            assert forall|r2: int, c2: int|
                0 <= r2 < self.rows() && 0 <= c2 < self.cols() && !(r2 == row && c2 == col)
                implies self.cell(r2, c2) == old(self).cell(r2, c2) by {
                assert(r2 * self.cols() + c2 != row * self.cols() + col) by (nonlinear_arith)
                    requires
                        0 <= r2 < self.rows(),
                        0 <= c2 < self.cols(),
                        0 <= (row as int) < self.rows(),
                        0 <= (col as int) < self.cols(),
                        !(r2 == row && c2 == col),
                ;
                assert(0 <= r2 * self.cols() + c2 < self.rows() * self.cols()) by (nonlinear_arith)
                    requires
                        0 <= r2 < self.rows(),
                        0 <= c2 < self.cols(),
                ;
            }
        }
        Ok(())
    }
}

pub open spec fn spec_max(x: nat, y: nat) -> nat {
    if x >= y {
        x
    } else {
        y
    }
}

/// The length of the longest common subsequence of the first `i`
/// elements of `a` and the first `j` elements of `b`.
pub open spec fn spec_lcs(a: Seq<Seq<char>>, b: Seq<Seq<char>>, i: int, j: int) -> nat
    decreases i + j,
{
    if i <= 0 || j <= 0 {
        0
    } else if a[i - 1] == b[j - 1] {
        spec_lcs(a, b, i - 1, j - 1) + 1
    } else {
        spec_max(spec_lcs(a, b, i - 1, j), spec_lcs(a, b, i, j - 1))
    }
}

/// Dropping the last element of either side lowers the subsequence
/// length by at most one, and never raises it.
proof fn lemma_lcs_step(a: Seq<Seq<char>>, b: Seq<Seq<char>>, i: int, j: int)
    requires
        i >= 0,
        j >= 0,
    ensures
        i >= 1 ==> spec_lcs(a, b, i - 1, j) <= spec_lcs(a, b, i, j) <= spec_lcs(a, b, i - 1, j)
            + 1,
        j >= 1 ==> spec_lcs(a, b, i, j - 1) <= spec_lcs(a, b, i, j) <= spec_lcs(a, b, i, j - 1)
            + 1,
    decreases i + j,
{
    if i >= 1 && j >= 1 {
        lemma_lcs_step(a, b, i - 1, j);
        lemma_lcs_step(a, b, i, j - 1);
        lemma_lcs_step(a, b, i - 1, j - 1);
    }
}

/// The subsequence length is bounded by both prefix lengths.
proof fn lemma_lcs_bound(a: Seq<Seq<char>>, b: Seq<Seq<char>>, i: int, j: int)
    ensures
        spec_lcs(a, b, i, j) <= i || spec_lcs(a, b, i, j) == 0,
        spec_lcs(a, b, i, j) <= j || spec_lcs(a, b, i, j) == 0,
    decreases i + j,
{
    if i >= 1 && j >= 1 {
        lemma_lcs_bound(a, b, i - 1, j);
        lemma_lcs_bound(a, b, i, j - 1);
        lemma_lcs_bound(a, b, i - 1, j - 1);
    }
}

/// Fills the full subsequence-length table for two files given as line
/// vectors: cell `(i, j)` holds the length of the longest common
/// subsequence of the first `i` lines of `seq1` and the first `j` lines
/// of `seq2`.
pub fn lcs(seq1: &Vec<String>, seq2: &Vec<String>) -> (g: Grid)
    requires
        (seq1@.len() + 1) * (seq2@.len() + 1) <= usize::MAX,
    ensures
        g.wf(),
        g.rows() == seq1@.len() + 1,
        g.cols() == seq2@.len() + 1,
        forall|i: int, j: int|
            0 <= i <= seq1@.len() && 0 <= j <= seq2@.len() ==> g.cell(i, j) == spec_lcs(
                seq1.deep_view(),
                seq2.deep_view(),
                i,
                j,
            ),
{
    let x = seq1.len();
    let y = seq2.len();
    proof {
        assert((x + 1) * (y + 1) >= x + 1 && (x + 1) * (y + 1) >= y + 1) by (nonlinear_arith)
            requires
                x >= 0,
                y >= 0,
        ;
    }
    let mut grid = Grid::new(x + 1, y + 1);
    let ghost a = seq1.deep_view();
    let ghost b = seq2.deep_view();
    let mut i: usize = 0;
    while i < x + 1
        invariant
            x == seq1@.len(),
            y == seq2@.len(),
            (x + 1) * (y + 1) <= usize::MAX,
            a == seq1.deep_view(),
            b == seq2.deep_view(),
            i <= x + 1,
            grid.wf(),
            grid.rows() == x + 1,
            grid.cols() == y + 1,
            forall|i2: int, j2: int|
                0 <= i2 < i && 0 <= j2 <= y ==> grid.cell(i2, j2) == spec_lcs(a, b, i2, j2),
        decreases x + 1 - i,
    {
        let mut j: usize = 0;
        while j < y + 1
            invariant
                x == seq1@.len(),
                y == seq2@.len(),
                (x + 1) * (y + 1) <= usize::MAX,
                a == seq1.deep_view(),
                b == seq2.deep_view(),
                i <= x,
                j <= y + 1,
                grid.wf(),
                grid.rows() == x + 1,
                grid.cols() == y + 1,
                forall|i2: int, j2: int|
                    0 <= i2 < i && 0 <= j2 <= y ==> grid.cell(i2, j2) == spec_lcs(a, b, i2, j2),
                forall|j2: int| 0 <= j2 < j ==> grid.cell(i as int, j2) == spec_lcs(a, b, i as int, j2),
            decreases y + 1 - j,
        {
            if i == 0 || j == 0 {
                let r = grid.set(i, j, 0);
            } else {
                let eq = str_eq(seq1[i - 1].as_str(), seq2[j - 1].as_str());
                let now: usize = if eq {
                    1
                } else {
                    0
                };
                proof {
                    assert(a[i - 1] == seq1@[i - 1]@);
                    assert(b[j - 1] == seq2@[j - 1]@);
                }
                let top = grid.get(i - 1, j).unwrap();
                let left = grid.get(i, j - 1).unwrap();
                let diag = grid.get(i - 1, j - 1).unwrap();
                proof {
                    lemma_lcs_bound(a, b, i - 1, j - 1);
                    assert(diag + now <= x) by {
                        assert(spec_lcs(a, b, i - 1, j - 1) <= i - 1 || spec_lcs(
                            a,
                            b,
                            i - 1,
                            j - 1,
                        ) == 0);
                    }
                    lemma_lcs_step(a, b, i as int, j as int);
                    lemma_lcs_step(a, b, i - 1, j as int);
                }
                let cross = diag + now;
                let prev = if top >= left {
                    top
                } else {
                    left
                };
                let val = if prev >= cross {
                    prev
                } else {
                    cross
                };
                proof {
                    assert(val == spec_lcs(a, b, i as int, j as int));
                }
                let r = grid.set(i, j, val);
            }
            j += 1;
        }
        i += 1;
    }
    grid
}

/// One entry of an edit script: a line common to both files, one only
/// in the first file, or one only in the second.
pub enum DiffResult {
    Equal(String),
    Left(String),
    Right(String),
}

/// The lines of the first file described by a script, reading the
/// script from its end to its start: `Equal` and `Left` entries each
/// contribute their line.
pub open spec fn lefts_from_end(s: Seq<DiffResult>) -> Seq<Seq<char>>
    decreases s.len(),
{
    if s.len() == 0 {
        Seq::empty()
    } else {
        (match s.last() {
            DiffResult::Equal(l) => seq![l@],
            DiffResult::Left(l) => seq![l@],
            DiffResult::Right(_) => Seq::empty(),
        }) + lefts_from_end(s.drop_last())
    }
}

/// The lines of the second file described by a script, reading the
/// script from its end to its start.
pub open spec fn rights_from_end(s: Seq<DiffResult>) -> Seq<Seq<char>>
    decreases s.len(),
{
    if s.len() == 0 {
        Seq::empty()
    } else {
        (match s.last() {
            DiffResult::Equal(l) => seq![l@],
            DiffResult::Left(_) => Seq::empty(),
            DiffResult::Right(l) => seq![l@],
        }) + rights_from_end(s.drop_last())
    }
}

/// How many entries of a script are `Equal` entries.
pub open spec fn equal_count(s: Seq<DiffResult>) -> nat
    decreases s.len(),
{
    if s.len() == 0 {
        0
    } else {
        (match s.last() {
            DiffResult::Equal(_) => 1nat,
            DiffResult::Left(_) => 0,
            DiffResult::Right(_) => 0,
        }) + equal_count(s.drop_last())
    }
}

/// Recovers an edit script from a filled subsequence table.  The script
/// is produced back to front: reading it from its last entry to its
/// first yields both files in order — the `Equal` and `Left` entries
/// spell out the first file, the `Equal` and `Right` entries the second.
/// The script keeps as many lines in common as possible: its `Equal`
/// entries are exactly as many as the longest common subsequence holds.
pub fn diff_lines(lcs_table: &Grid, lines1: &Vec<String>, lines2: &Vec<String>) -> (r: Vec<
    DiffResult,
>)
    requires
        lcs_table.wf(),
        lcs_table.rows() == lines1@.len() + 1,
        lcs_table.cols() == lines2@.len() + 1,
        forall|i: int, j: int|
            0 <= i <= lines1@.len() && 0 <= j <= lines2@.len() ==> lcs_table.cell(i, j)
                == spec_lcs(lines1.deep_view(), lines2.deep_view(), i, j),
    ensures
        lefts_from_end(r@) == lines1.deep_view(),
        rights_from_end(r@) == lines2.deep_view(),
        equal_count(r@) == spec_lcs(
            lines1.deep_view(),
            lines2.deep_view(),
            lines1@.len() as int,
            lines2@.len() as int,
        ),
{
    let ghost a = lines1.deep_view();
    let ghost b = lines2.deep_view();
    let mut i = lines1.len();
    let mut j = lines2.len();
    let mut result: Vec<DiffResult> = Vec::new();
    proof {
        assert(lefts_from_end(result@) =~= a.subrange(i as int, a.len() as int));
        assert(rights_from_end(result@) =~= b.subrange(j as int, b.len() as int));
    }
    while i != 0 || j != 0
        invariant
            a == lines1.deep_view(),
            b == lines2.deep_view(),
            lcs_table.wf(),
            lcs_table.rows() == lines1@.len() + 1,
            lcs_table.cols() == lines2@.len() + 1,
            forall|i2: int, j2: int|
                0 <= i2 <= lines1@.len() && 0 <= j2 <= lines2@.len() ==> lcs_table.cell(i2, j2)
                    == spec_lcs(a, b, i2, j2),
            i <= lines1@.len(),
            j <= lines2@.len(),
            lefts_from_end(result@) == a.subrange(i as int, a.len() as int),
            rights_from_end(result@) == b.subrange(j as int, b.len() as int),
            equal_count(result@) + spec_lcs(a, b, i as int, j as int) == spec_lcs(
                a,
                b,
                a.len() as int,
                b.len() as int,
            ),
        decreases i + j,
    {
        let ghost prev = result@;
        if i == 0 {
            j = j - 1;
            result.push(DiffResult::Right(lines2[j].clone()));
            proof {
                assert(result@.drop_last() =~= prev);
                assert(lefts_from_end(result@) =~= a.subrange(i as int, a.len() as int));
                assert(seq![b[j as int]] + b.subrange(j + 1, b.len() as int) =~= b.subrange(
                    j as int,
                    b.len() as int,
                ));
                assert(equal_count(result@) == equal_count(prev));
                assert(spec_lcs(a, b, 0, j as int) == 0 && spec_lcs(a, b, 0, j + 1) == 0);
            }
            continue ;
        }
        if j == 0 {
            i = i - 1;
            result.push(DiffResult::Left(lines1[i].clone()));
            proof {
                assert(result@.drop_last() =~= prev);
                assert(rights_from_end(result@) =~= b.subrange(j as int, b.len() as int));
                assert(seq![a[i as int]] + a.subrange(i + 1, a.len() as int) =~= a.subrange(
                    i as int,
                    a.len() as int,
                ));
                assert(equal_count(result@) == equal_count(prev));
                assert(spec_lcs(a, b, i as int, 0) == 0 && spec_lcs(a, b, i + 1, 0) == 0);
            }
            continue ;
        }
        let max = lcs_table.get(i, j).unwrap();
        let top = lcs_table.get(i - 1, j).unwrap();
        let left = lcs_table.get(i, j - 1).unwrap();
        if left >= max {
            j = j - 1;
            result.push(DiffResult::Right(lines2[j].clone()));
            proof {
                assert(result@.drop_last() =~= prev);
                assert(lefts_from_end(result@) =~= a.subrange(i as int, a.len() as int));
                assert(seq![b[j as int]] + b.subrange(j + 1, b.len() as int) =~= b.subrange(
                    j as int,
                    b.len() as int,
                ));
                assert(equal_count(result@) == equal_count(prev));
                lemma_lcs_step(a, b, i as int, j + 1);
                assert(spec_lcs(a, b, i as int, j as int) == spec_lcs(a, b, i as int, j + 1));
            }
            continue ;
        }
        if top >= max {
            i = i - 1;
            result.push(DiffResult::Left(lines1[i].clone()));
            proof {
                assert(result@.drop_last() =~= prev);
                assert(rights_from_end(result@) =~= b.subrange(j as int, b.len() as int));
                assert(seq![a[i as int]] + a.subrange(i + 1, a.len() as int) =~= a.subrange(
                    i as int,
                    a.len() as int,
                ));
                assert(equal_count(result@) == equal_count(prev));
                lemma_lcs_step(a, b, i + 1, j as int);
                assert(spec_lcs(a, b, i as int, j as int) == spec_lcs(a, b, i + 1, j as int));
            }
            continue ;
        }
        proof {
            assert(spec_lcs(a, b, i as int, j as int) > spec_lcs(a, b, i - 1, j as int));
            assert(spec_lcs(a, b, i as int, j as int) > spec_lcs(a, b, i as int, j - 1));
            assert(a[i - 1] == b[j - 1]) by {
                if a[i - 1] != b[j - 1] {
                    assert(spec_lcs(a, b, i as int, j as int) == spec_max(
                        spec_lcs(a, b, i - 1, j as int),
                        spec_lcs(a, b, i as int, j - 1),
                    ));
                }
            }
        }
        i = i - 1;
        j = j - 1;
        result.push(DiffResult::Equal(lines1[i].clone()));
        proof {
            assert(result@.drop_last() =~= prev);
            assert(equal_count(result@) == equal_count(prev) + 1);
            assert(spec_lcs(a, b, i + 1, j + 1) == spec_lcs(a, b, i as int, j as int) + 1);
            assert(a[i as int] == b[j as int]);
            assert(seq![a[i as int]] + a.subrange(i + 1, a.len() as int) =~= a.subrange(
                i as int,
                a.len() as int,
            ));
            assert(seq![b[j as int]] + b.subrange(j + 1, b.len() as int) =~= b.subrange(
                j as int,
                b.len() as int,
            ));
        }
    }
    proof {
        assert(a.subrange(0, a.len() as int) =~= a);
        assert(b.subrange(0, b.len() as int) =~= b);
    }
    result
}

} // verus!
