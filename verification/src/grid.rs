//! A two-dimensional grid stored as a flat vector, and the stones of a
//! cellular board kept in one.
//!
//! Cells are addressed as `(row, col)` and stored row-major.  The
//! walkers visit every cell in row-major order: `walk` maps each cell to
//! a value through a caller-supplied function, `walk_mut` replaces each
//! cell by what the function returns for it.

use vstd::prelude::*;

verus! {

/// One cell of the board: its own coordinates and whether it is alive.
#[derive(Clone, Copy, Debug, PartialEq, Eq, Structural)]
pub struct Stone {
    pub x: usize,
    pub y: usize,
    pub active: bool,
}

impl Stone {
    /// A dead stone at `(x, y)`.
    pub fn new(x: usize, y: usize) -> (s: Stone)
        ensures
            s == (Stone { x, y, active: false }),
    {
        Stone { x, y, active: false }
    }
}

/// A grid of `T`, stored as a flat row-major vector.
pub struct Grid<T> {
    pub num_rows: usize,
    pub num_cols: usize,
    elms: Vec<T>,
}

impl<T> Grid<T> {
    pub closed spec fn view(&self) -> Seq<T> {
        self.elms@
    }

    pub closed spec fn rows(&self) -> int {
        self.num_rows as int
    }

    pub closed spec fn cols(&self) -> int {
        self.num_cols as int
    }

    pub closed spec fn cell(&self, r: int, c: int) -> T {
        self.view()[r * self.cols() + c]
    }

    pub closed spec fn wf(&self) -> bool {
        self.view().len() == self.rows() * self.cols()
    }

    pub fn size(&self) -> (r: (usize, usize))
        ensures
            r.0 == self.rows(),
            r.1 == self.cols(),
    {
        (self.num_rows, self.num_cols)
    }

    /// The element at `(row, col)`, or `None` outside the grid.
    pub fn get(&self, row: usize, col: usize) -> (r: Option<&T>)
        requires
            self.wf(),
        ensures
            r is Some <==> row < self.rows() && col < self.cols(),
            r matches Some(v) ==> *v == self.cell(row as int, col as int),
    {
        if row >= self.num_rows || col >= self.num_cols {
            return None;
        }
        let n = self.elms.len();
        proof {
            lemma_grid_index(self.rows(), self.cols(), row as int, col as int);
        }
        Some(&self.elms[row * self.num_cols + col])
    }

    /// Replaces the element at `(row, col)`; an out-of-bounds location
    /// is an error and leaves the grid unchanged.
    pub fn set(&mut self, row: usize, col: usize, val: T) -> (r: Result<(), &'static str>)
        requires
            old(self).wf(),
        ensures
            final(self).wf(),
            final(self).rows() == old(self).rows(),
            final(self).cols() == old(self).cols(),
            r is Err <==> !(row < old(self).rows() && col < old(self).cols()),
            r is Err ==> final(self).view() == old(self).view(),
            r is Ok ==> forall|r2: int, c2: int|
                0 <= r2 < final(self).rows() && 0 <= c2 < final(self).cols()
                    ==> final(self).cell(r2, c2) == if r2 == row && c2 == col {
                    val
                } else {
                    old(self).cell(r2, c2)
                },
    {
        if row >= self.num_rows || col >= self.num_cols {
            return Err("Invalid location");
        }
        let n = self.elms.len();
        proof {
            lemma_grid_index(self.rows(), self.cols(), row as int, col as int);
        }
        let idx = row * self.num_cols + col;
        self.elms[idx] = val;
        proof {
            lemma_grid_index_distinct(self.rows(), self.cols());
        }
        Ok(())
    }

    /// Maps every cell to a value, visiting cells row-major.
    pub fn walk<U, F: Fn(&T, usize, usize) -> U>(&self, func: F) -> (out: Vec<U>)
        requires
            self.wf(),
            forall|r: usize, c: usize|
                r < self.rows() && c < self.cols() ==> call_requires(
                    func,
                    (&self.cell(r as int, c as int), r, c),
                ),
        ensures
            out@.len() == self.rows() * self.cols(),
            forall|r: int, c: int|
                0 <= r < self.rows() && 0 <= c < self.cols() ==> call_ensures(
                    func,
                    (&self.cell(r, c), r as usize, c as usize),
                    #[trigger] out@[r * self.cols() + c],
                ),
    {
        let mut out: Vec<U> = Vec::new();
        let mut row: usize = 0;
        while row < self.num_rows
            invariant
                self.wf(),
                forall|r: usize, c: usize|
                    r < self.rows() && c < self.cols() ==> call_requires(
                        func,
                        (&self.cell(r as int, c as int), r, c),
                    ),
                row <= self.rows(),
                out@.len() == row * self.cols(),
                forall|r: int, c: int|
                    0 <= r < row && 0 <= c < self.cols() ==> call_ensures(
                        func,
                        (&self.cell(r, c), r as usize, c as usize),
                        #[trigger] out@[r * self.cols() + c],
                    ),
            decreases self.rows() - row,
        {
            let mut col: usize = 0;
            while col < self.num_cols
                invariant
                    self.wf(),
                    forall|r: usize, c: usize|
                        r < self.rows() && c < self.cols() ==> call_requires(
                            func,
                            (&self.cell(r as int, c as int), r, c),
                        ),
                    row < self.rows(),
                    col <= self.cols(),
                    out@.len() == row * self.cols() + col,
                    forall|r: int, c: int|
                        0 <= r < row && 0 <= c < self.cols() ==> call_ensures(
                            func,
                            (&self.cell(r, c), r as usize, c as usize),
                            #[trigger] out@[r * self.cols() + c],
                        ),
                    forall|c: int|
                        0 <= c < col ==> call_ensures(
                            func,
                            (&self.cell(row as int, c), row, c as usize),
                            #[trigger] out@[(row as int) * self.cols() + c],
                        ),
                decreases self.cols() - col,
            {
                let n = self.elms.len();
                proof {
                    lemma_grid_index(self.rows(), self.cols(), row as int, col as int);
                    assert(self.cell(row as int, col as int) == self.elms@[(row as int)
                        * self.cols() + (col as int)]);
                    assert(call_requires(
                        func,
                        (&self.cell(row as int, col as int), row, col),
                    ));
                }
                let v = func(&self.elms[row * self.num_cols + col], row, col);
                out.push(v);
                proof {
                    lemma_grid_index_distinct(self.rows(), self.cols());
                    assert(out@[(row as int) * self.cols() + (col as int)] == v);
                    assert forall|r: int, c: int|
                        0 <= r < row && 0 <= c < self.cols() implies #[trigger] (r * self.cols()
                        + c) < (row as int) * self.cols() + (col as int) by {
                        assert(r * self.cols() + c < (row as int) * self.cols())
                            by (nonlinear_arith)
                            requires
                                0 <= r,
                                r < row as int,
                                0 <= c,
                                c < self.cols(),
                        ;
                    }
                }
                col += 1;
            }
            proof {
                assert((row + 1) * self.cols() == row * self.cols() + self.cols())
                    by (nonlinear_arith);
                lemma_grid_index_distinct(self.rows(), self.cols());
                assert forall|r: int, c: int|
                    0 <= r < row + 1 && 0 <= c < self.cols() implies call_ensures(
                    func,
                    (&self.cell(r, c), r as usize, c as usize),
                    #[trigger] out@[r * self.cols() + c],
                ) by {
                    if r == row {
                        assert(out@[(row as int) * self.cols() + c] == out@[r * self.cols() + c]);
                    }
                }
            }
            row += 1;
        }
        out
    }

    /// Replaces every cell by what `func` returns for it, row-major.
    pub fn walk_mut<F: Fn(&T, usize, usize) -> T>(&mut self, func: F)
        requires
            old(self).wf(),
            forall|r: usize, c: usize|
                r < old(self).rows() && c < old(self).cols() ==> call_requires(
                    func,
                    (&old(self).cell(r as int, c as int), r, c),
                ),
        ensures
            final(self).wf(),
            final(self).rows() == old(self).rows(),
            final(self).cols() == old(self).cols(),
            forall|r: int, c: int|
                0 <= r < old(self).rows() && 0 <= c < old(self).cols() ==> call_ensures(
                    func,
                    (&old(self).cell(r, c), r as usize, c as usize),
                    #[trigger] final(self).cell(r, c),
                ),
    {
        let ghost pre = *self;
        let mut row: usize = 0;
        while row < self.num_rows
            invariant
                pre.wf(),
                forall|r: usize, c: usize|
                    r < pre.rows() && c < pre.cols() ==> call_requires(
                        func,
                        (&pre.cell(r as int, c as int), r, c),
                    ),
                self.wf(),
                self.num_rows == pre.rows(),
                self.num_cols == pre.cols(),
                row <= self.rows(),
                forall|r: int, c: int|
                    0 <= r < row && 0 <= c < self.cols() ==> call_ensures(
                        func,
                        (&pre.cell(r, c), r as usize, c as usize),
                        #[trigger] self.cell(r, c),
                    ),
                forall|r: int, c: int|
                    row <= r < self.rows() && 0 <= c < self.cols() ==> #[trigger] self.cell(
                        r,
                        c,
                    ) == pre.cell(r, c),
            decreases self.rows() - row,
        {
            let mut col: usize = 0;
            while col < self.num_cols
                invariant
                    pre.wf(),
                    forall|r: usize, c: usize|
                        r < pre.rows() && c < pre.cols() ==> call_requires(
                            func,
                            (&pre.cell(r as int, c as int), r, c),
                        ),
                    self.wf(),
                    self.num_rows == pre.rows(),
                    self.num_cols == pre.cols(),
                    row < self.rows(),
                    col <= self.cols(),
                    forall|r: int, c: int|
                        0 <= r < row && 0 <= c < self.cols() ==> call_ensures(
                            func,
                            (&pre.cell(r, c), r as usize, c as usize),
                            #[trigger] self.cell(r, c),
                        ),
                    forall|c: int|
                        0 <= c < col ==> call_ensures(
                            func,
                            (&pre.cell(row as int, c), row, c as usize),
                            #[trigger] self.cell(row as int, c),
                        ),
                    forall|r: int, c: int|
                        0 <= r < self.rows() && 0 <= c < self.cols() && (r > row || (r == row
                            && c >= col)) ==> #[trigger] self.cell(r, c) == pre.cell(r, c),
                decreases self.cols() - col,
            {
                let n = self.elms.len();
                proof {
                    lemma_grid_index(self.rows(), self.cols(), row as int, col as int);
                    assert(self.cell(row as int, col as int) == pre.cell(row as int, col as int));
                    assert(self.cell(row as int, col as int) == self.elms@[(row as int)
                        * self.cols() + (col as int)]);
                    assert(call_requires(
                        func,
                        (&pre.cell(row as int, col as int), row, col),
                    ));
                }
                let idx = row * self.num_cols + col;
                let v = func(&self.elms[idx], row, col);
                let ghost mid = *self;
                self.elms[idx] = v;
                proof {
                    lemma_grid_index_distinct(self.rows(), self.cols());
                    assert(self.cell(row as int, col as int) == v);
                    assert forall|r: int, c: int|
                        0 <= r < self.rows() && 0 <= c < self.cols() && !(r == row && c == col)
                        implies self.cell(r, c) == mid.cell(r, c) by {
                        assert(r * self.cols() + c != (row as int) * self.cols() + (col as int))
                            by (nonlinear_arith)
                            requires
                                0 <= r < self.rows(),
                                0 <= c < self.cols(),
                                0 <= (row as int) < self.rows(),
                                0 <= (col as int) < self.cols(),
                                !(r == (row as int) && c == (col as int)),
                        ;
                        assert(0 <= r * self.cols() + c < self.rows() * self.cols())
                            by (nonlinear_arith)
                            requires
                                0 <= r < self.rows(),
                                0 <= c < self.cols(),
                        ;
                    }
                    assert forall|r: int, c: int|
                        0 <= r < row && 0 <= c < self.cols() implies call_ensures(
                        func,
                        (&pre.cell(r, c), r as usize, c as usize),
                        #[trigger] self.cell(r, c),
                    ) by {
                        assert(self.cell(r, c) == mid.cell(r, c));
                        assert(call_ensures(
                            func,
                            (&pre.cell(r, c), r as usize, c as usize),
                            mid.cell(r, c),
                        ));
                    }
                    assert forall|r: int, c: int|
                        0 <= r < self.rows() && 0 <= c < self.cols() && (r > row || (r == row && c
                        >= col + 1)) implies #[trigger] self.cell(r, c) == pre.cell(r, c) by {
                        assert(self.cell(r, c) == mid.cell(r, c));
                        assert(mid.cell(r, c) == pre.cell(r, c));
                    }
                    assert forall|c: int| 0 <= c < col + 1 implies call_ensures(
                        func,
                        (&pre.cell(row as int, c), row, c as usize),
                        #[trigger] self.cell(row as int, c),
                    ) by {
                        if c == col {
                            assert(self.cell(row as int, c) == v);
                            assert(pre.cell(row as int, c) == mid.cell(row as int, c));
                        } else {
                            assert(self.cell(row as int, c) == mid.cell(row as int, c));
                            assert(call_ensures(
                                func,
                                (&pre.cell(row as int, c), row, c as usize),
                                mid.cell(row as int, c),
                            ));
                        }
                    }
                }
                col += 1;
            }
            proof {
                lemma_grid_index_distinct(self.rows(), self.cols());
                assert forall|r: int, c: int|
                    0 <= r < row + 1 && 0 <= c < self.cols() implies call_ensures(
                    func,
                    (&pre.cell(r, c), r as usize, c as usize),
                    #[trigger] self.cell(r, c),
                ) by {
                    if r == row {
                        assert(self.cell(row as int, c) == self.cell(r, c));
                    }
                }
            }
            row += 1;
        }
    }
}

impl Grid<Stone> {
    /// A board of dead stones, each knowing its own coordinates.
    pub fn new(num_rows: usize, num_cols: usize) -> (g: Grid<Stone>)
        requires
            num_rows * num_cols <= usize::MAX,
        ensures
            g.wf(),
            g.rows() == num_rows,
            g.cols() == num_cols,
            forall|r: int, c: int|
                0 <= r < num_rows && 0 <= c < num_cols ==> g.cell(r, c) == (Stone {
                    x: c as usize,
                    y: r as usize,
                    active: false,
                }),
    {
        let mut elms: Vec<Stone> = Vec::new();
        let mut y: usize = 0;
        while y < num_rows
            invariant
                num_rows * num_cols <= usize::MAX,
                y <= num_rows,
                elms@.len() == y * (num_cols as int),
                forall|r: int, c: int|
                    0 <= r < y && 0 <= c < num_cols ==> #[trigger] elms@[r * (num_cols as int) + c]
                        == (Stone { x: c as usize, y: r as usize, active: false }),
            decreases num_rows - y,
        {
            let mut x: usize = 0;
            while x < num_cols
                invariant
                    num_rows * num_cols <= usize::MAX,
                    y < num_rows,
                    x <= num_cols,
                    elms@.len() == y * (num_cols as int) + x,
                    forall|r: int, c: int|
                        0 <= r < y && 0 <= c < num_cols ==> #[trigger] elms@[r * (num_cols as int)
                            + c] == (Stone { x: c as usize, y: r as usize, active: false }),
                    forall|c: int|
                        0 <= c < x ==> #[trigger] elms@[(y as int) * (num_cols as int) + c]
                            == (Stone { x: c as usize, y: y as usize, active: false }),
                decreases num_cols - x,
            {
                let val = Stone::new(x, y);
                elms.push(val);
                proof {
                    lemma_grid_index_distinct(num_rows as int, num_cols as int);
                    assert(elms@[(y as int) * (num_cols as int) + (x as int)] == val);
                    assert forall|r: int, c: int|
                        0 <= r < y && 0 <= c < num_cols implies #[trigger] (r * (num_cols as int)
                        + c) < (y as int) * (num_cols as int) + (x as int) by {
                        assert(r * (num_cols as int) + c < (y as int) * (num_cols as int))
                            by (nonlinear_arith)
                            requires
                                0 <= r,
                                r < y as int,
                                0 <= c,
                                c < num_cols as int,
                        ;
                    }
                }
                x += 1;
            }
            proof {
                assert((y + 1) * (num_cols as int) == y * (num_cols as int) + num_cols)
                    by (nonlinear_arith);
                lemma_grid_index_distinct(num_rows as int, num_cols as int);
                assert forall|r: int, c: int|
                    0 <= r < y + 1 && 0 <= c < num_cols implies #[trigger] elms@[r * (num_cols
                    as int) + c] == (Stone { x: c as usize, y: r as usize, active: false }) by {
                    if r == y {
                        assert(elms@[(y as int) * (num_cols as int) + c] == elms@[r * (num_cols
                            as int) + c]);
                    }
                }
            }
            y += 1;
        }
        let g = Grid { num_rows, num_cols, elms };
        proof {
            lemma_grid_index_distinct(num_rows as int, num_cols as int);
            assert forall|r: int, c: int|
                0 <= r < num_rows && 0 <= c < num_cols implies g.cell(r, c) == (Stone {
                x: c as usize,
                y: r as usize,
                active: false,
            }) by {
                assert(g.cell(r, c) == elms@[r * (num_cols as int) + c]);
            }
        }
        g
    }
}

/// A row-major index lies inside the flat vector.
proof fn lemma_grid_index(rows: int, cols: int, r: int, c: int)
    requires
        0 <= r < rows,
        0 <= c < cols,
    ensures
        0 <= r * cols + c < rows * cols,
{
    assert(0 <= r * cols + c < rows * cols) by (nonlinear_arith)
        requires
            0 <= r < rows,
            0 <= c < cols,
    ;
}

/// Distinct cells have distinct row-major indices, and every row-major
/// index is in range; this pins the index arithmetic the walkers use.
proof fn lemma_grid_index_distinct(rows: int, cols: int)
    ensures
        forall|r: int, c: int|
            0 <= r < rows && 0 <= c < cols ==> 0 <= #[trigger] (r * cols + c) < rows * cols,
        forall|r1: int, c1: int, r2: int, c2: int|
            0 <= r1 < rows && 0 <= c1 < cols && 0 <= r2 < rows && 0 <= c2 < cols && !(r1 == r2 && c1
                == c2) ==> #[trigger] (r1 * cols + c1) != #[trigger] (r2 * cols + c2),
{
    assert forall|r: int, c: int| 0 <= r < rows && 0 <= c < cols implies 0 <= #[trigger] (r * cols
        + c) < rows * cols by {
        lemma_grid_index(rows, cols, r, c);
    }
    assert forall|r1: int, c1: int, r2: int, c2: int|
        0 <= r1 < rows && 0 <= c1 < cols && 0 <= r2 < rows && 0 <= c2 < cols && !(r1 == r2 && c1
            == c2) implies #[trigger] (r1 * cols + c1) != #[trigger] (r2 * cols + c2) by {
        assert(r1 * cols + c1 != r2 * cols + c2) by (nonlinear_arith)
            requires
                0 <= r1 < rows,
                0 <= c1 < cols,
                0 <= r2 < rows,
                0 <= c2 < cols,
                !(r1 == r2 && c1 == c2),
        ;
    }
}

} // verus!
