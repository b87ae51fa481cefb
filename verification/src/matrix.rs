//! A rectangular table of cells, stored row after row.

use vstd::prelude::*;

verus! {

/// Why a table could not be made: `len` cells do not fill `rows` rows of
/// `cols` columns.
#[derive(Clone, Copy, Debug, PartialEq, Eq)]
pub struct ShapeError {
    pub rows: usize,
    pub cols: usize,
    pub len: usize,
}

/// A table of `nrows()` rows and `ncols()` columns.
///
/// The cells stand in one vector, row after row; the table is well formed
/// when that vector holds exactly one cell for each place.
#[derive(Debug, PartialEq)]
pub struct Matrix<T> {
    rows: usize,
    cols: usize,
    cells: Vec<T>,
}

/// Where the cell of row `r` and column `c` stands in a row-after-row
/// vector of rows that are `width` wide.
pub open spec fn cell_index(r: int, c: int, width: int) -> int {
    r * width + c
}

/// A cell's index lies before every index of a later row.
pub proof fn lemma_cell_index_bounds(r: int, c: int, rows: int, width: int)
    requires
        0 <= r < rows,
        0 <= c < width,
    ensures
        0 <= cell_index(r, c, width) < rows * width,
        0 <= r * width <= cell_index(r, c, width),
        cell_index(r, c, width) < (r + 1) * width <= rows * width,
{
    assert(0 <= r * width && (r + 1) * width == r * width + width && (r + 1) * width <= rows
        * width) by (nonlinear_arith)
        requires
            0 <= r < rows,
            0 < width,
    ;
}

impl<T> Matrix<T> {
    /// The number of rows.
    pub closed spec fn nrows(&self) -> nat {
        self.rows as nat
    }

    /// The number of columns.
    pub closed spec fn ncols(&self) -> nat {
        self.cols as nat
    }

    /// The cells, row after row.
    pub closed spec fn flat(&self) -> Seq<T> {
        self.cells@
    }

    /// There is one cell for each place of the table.
    pub open spec fn wf(&self) -> bool {
        self.flat().len() == self.nrows() * self.ncols()
    }

    /// The cell of row `r` and column `c`.
    pub open spec fn at(&self, r: int, c: int) -> T {
        self.flat()[cell_index(r, c, self.ncols() as int)]
    }

    /// The table has the given shape.
    pub open spec fn has_shape(&self, rows: nat, cols: nat) -> bool {
        self.wf() && self.nrows() == rows && self.ncols() == cols
    }

    /// The two tables have the same shape and the same cells.
    pub open spec fn agrees_with(&self, other: &Matrix<T>) -> bool {
        &&& self.nrows() == other.nrows()
        &&& self.ncols() == other.ncols()
        &&& self.flat() == other.flat()
    }
}

impl<T> View for Matrix<T> {
    type V = Seq<Seq<T>>;

    /// The rows of the table, each the sequence of its cells.
    open spec fn view(&self) -> Seq<Seq<T>> {
        Seq::new(self.nrows(), |r: int| Seq::new(self.ncols(), |c: int| self.at(r, c)))
    }
}

impl<T: Copy> Matrix<T> {
    /// Makes a table of `rows` rows and `cols` columns from its cells, given
    /// row after row. Fails when the number of cells is not `rows * cols`.
    pub fn from_shape_vec(rows: usize, cols: usize, data: Vec<T>) -> (made: Result<
        Matrix<T>,
        ShapeError,
    >)
        ensures
            match made {
                Ok(m) => rows * cols == data@.len() && m.has_shape(rows as nat, cols as nat)
                    && m.flat() == data@,
                Err(e) => rows * cols != data@.len() && e == (ShapeError {
                    rows,
                    cols,
                    len: data.len(),
                }),
            },
    {
        let len = data.len();
        match rows.checked_mul(cols) {
            Some(n) => {
                if n == len {
                    Ok(Matrix { rows, cols, cells: data })
                } else {
                    Err(ShapeError { rows, cols, len })
                }
            },
            None => Err(ShapeError { rows, cols, len }),
        }
    }

    /// The number of rows.
    pub fn rows(&self) -> (n: usize)
        ensures
            n == self.nrows(),
    {
        self.rows
    }

    /// The number of columns.
    pub fn cols(&self) -> (n: usize)
        ensures
            n == self.ncols(),
    {
        self.cols
    }

    /// The cell of row `r` and column `c`.
    pub fn get(&self, r: usize, c: usize) -> (cell: T)
        requires
            self.wf(),
            r < self.nrows(),
            c < self.ncols(),
        ensures
            cell == self.at(r as int, c as int),
            cell == self@[r as int][c as int],
    {
        proof {
            assert(self.cells@.len() == self.cells.len());
            lemma_cell_index_bounds(r as int, c as int, self.rows as int, self.cols as int);
        }
        self.cells[r * self.cols + c]
    }

    /// Gives up the table for its cells, row after row.
    pub fn into_vec(self) -> (cells: Vec<T>)
        ensures
            cells@ == self.flat(),
    {
        self.cells
    }

    /// A table of the given shape with `value` in every cell.
    pub fn filled(rows: usize, cols: usize, value: T) -> (made: Matrix<T>)
        requires
            rows * cols <= usize::MAX,
        ensures
            made.has_shape(rows as nat, cols as nat),
            forall|i: int| 0 <= i < made.flat().len() ==> made.flat()[i] == value,
            forall|r: int, c: int|
                0 <= r < rows && 0 <= c < cols ==> #[trigger] made.at(r, c) == value,
    {
        let total: usize = rows * cols;
        let mut cells: Vec<T> = Vec::new();
        let mut i: usize = 0;
        while i < total
            invariant
                i <= total,
                cells@.len() == i,
                forall|k: int| 0 <= k < i ==> cells@[k] == value,
            decreases total - i,
        {
            cells.push(value);
            i += 1;
        }
        let made = Matrix { rows, cols, cells };
        proof {
            assert forall|r: int, c: int| 0 <= r < rows && 0 <= c < cols implies #[trigger] made.at(
                r,
                c,
            ) == value by {
                lemma_cell_index_bounds(r, c, rows as int, cols as int);
            }
        }
        made
    }

    /// The cell of row `r` and column `c` of the table that `assemble` puts
    /// together.
    spec fn assembled(&self, lead: Option<T>, from: int, r: int, c: int) -> T {
        match lead {
            Some(value) => if c == 0 {
                value
            } else {
                self.at(r, from + c - 1)
            },
            None => self.at(r, from + c),
        }
    }

    /// Puts a table together from columns `from` up to and without `to` of
    /// this one, behind one column of `lead` where there is a `lead`.
    fn assemble(&self, lead: Option<T>, from: usize, to: usize) -> (made: Matrix<T>)
        requires
            self.wf(),
            from <= to <= self.ncols(),
            lead.is_some() ==> to - from + 1 <= usize::MAX,
            lead.is_some() ==> self.nrows() * (to - from + 1) <= usize::MAX,
        ensures
            made.wf(),
            made.nrows() == self.nrows(),
            lead.is_none() ==> made.ncols() == to - from,
            lead.is_some() ==> made.ncols() == to - from + 1,
            forall|r: int, c: int|
                0 <= r < made.nrows() && 0 <= c < made.ncols() ==> #[trigger] made.at(r, c)
                    == self.assembled(lead, from as int, r, c),
    {
        let ahead: usize = match lead {
            Some(_) => 1,
            None => 0,
        };
        let width: usize = (to - from) + ahead;
        proof {
            assert(self.cells@.len() == self.cells.len());
            if lead.is_none() {
                assert(self.rows * width <= self.rows * self.cols) by (nonlinear_arith)
                    requires
                        0 <= width <= self.cols,
                        0 <= self.rows,
                ;
            }
        }
        let mut cells: Vec<T> = Vec::new();
        let mut r: usize = 0;
        while r < self.rows
            invariant
                self.wf(),
                self.rows * self.cols <= usize::MAX,
                from <= to <= self.cols,
                width == (to - from) + ahead,
                lead.is_some() ==> ahead == 1,
                lead.is_none() ==> ahead == 0,
                self.rows * width <= usize::MAX,
                r <= self.rows,
                cells@.len() == r * width,
                forall|i: int, j: int|
                    0 <= i < r && 0 <= j < width ==> cells@[#[trigger] cell_index(
                        i,
                        j,
                        width as int,
                    )] == self.assembled(lead, from as int, i, j),
            decreases self.rows - r,
        {
            let ghost done = cells@;
            proof {
                assert((r + 1) * width == r * width + width && (r + 1) * width <= self.rows
                    * width) by (nonlinear_arith)
                    requires
                        0 <= r < self.rows,
                        0 <= width,
                ;
            }
            match lead {
                Some(value) => {
                    cells.push(value);
                },
                None => {},
            }
            let mut c: usize = from;
            while c < to
                invariant
                    self.wf(),
                    self.rows * self.cols <= usize::MAX,
                    r < self.rows,
                    from <= c <= to <= self.cols,
                    width == (to - from) + ahead,
                    lead.is_some() ==> ahead == 1,
                    lead.is_none() ==> ahead == 0,
                    r * width + width <= usize::MAX,
                    cells@.len() == r * width + ahead + (c - from),
                    done.len() == r * width,
                    forall|k: int| 0 <= k < done.len() ==> cells@[k] == done[k],
                    forall|j: int|
                        0 <= j < ahead + (c - from) ==> cells@[#[trigger] cell_index(
                            r as int,
                            j,
                            width as int,
                        )] == self.assembled(lead, from as int, r as int, j),
                decreases to - c,
            {
                proof {
                    lemma_cell_index_bounds(r as int, c as int, self.rows as int, self.cols as int);
                }
                let cell = self.cells[r * self.cols + c];
                cells.push(cell);
                proof {
                    assert(cell == self.at(r as int, c as int));
                    assert(cell_index(r as int, ahead + (c - from), width as int) == r * width
                        + ahead + (c - from));
                }
                c += 1;
            }
            proof {
                assert forall|i: int, j: int| 0 <= i < r + 1 && 0 <= j < width implies cells@[
                #[trigger] cell_index(i, j, width as int)] == self.assembled(
                    lead,
                    from as int,
                    i,
                    j,
                ) by {
                    if i < r {
                        lemma_cell_index_bounds(i, j, r as int, width as int);
                        assert(done[cell_index(i, j, width as int)] == self.assembled(
                            lead,
                            from as int,
                            i,
                            j,
                        ));
                    }
                }
            }
            r += 1;
        }
        Matrix { rows: self.rows, cols: width, cells }
    }

    /// The columns from `from` up to and without `to`, as a table of their
    /// own.
    pub fn columns(&self, from: usize, to: usize) -> (part: Matrix<T>)
        requires
            self.wf(),
            from <= to <= self.ncols(),
        ensures
            part.has_shape(self.nrows(), (to - from) as nat),
            forall|r: int, c: int|
                0 <= r < self.nrows() && 0 <= c < to - from ==> #[trigger] part.at(r, c)
                    == self.at(r, from + c),
    {
        self.assemble(None, from, to)
    }

    /// This table behind one more column, which holds `value` in every row.
    pub fn with_leading_column(&self, value: T) -> (wider: Matrix<T>)
        requires
            self.wf(),
            self.ncols() + 1 <= usize::MAX,
            self.nrows() * (self.ncols() + 1) <= usize::MAX,
        ensures
            wider.has_shape(self.nrows(), self.ncols() + 1),
            forall|r: int| 0 <= r < self.nrows() ==> #[trigger] wider.at(r, 0) == value,
            forall|r: int, c: int|
                0 <= r < self.nrows() && 1 <= c <= self.ncols() ==> #[trigger] wider.at(r, c)
                    == self.at(r, c - 1),
    {
        self.assemble(Some(value), 0, self.cols)
    }
}

} // verus!
