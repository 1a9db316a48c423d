//! A dense matrix in one row-major vector.

use vstd::prelude::*;
use vstd::arithmetic::div_mod::lemma_fundamental_div_mod_converse;
use crate::error::Error;
use crate::parallel::par_map_range;

verus! {

/// The mathematical content of a matrix: its dimensions and its cells in
/// row-major order.
pub struct Grid<T> {
    pub rows: nat,
    pub columns: nat,
    pub cells: Seq<T>,
}

impl<T> Grid<T> {
    /// There is exactly one cell for every position.
    pub open spec fn wf(self) -> bool {
        self.cells.len() == self.rows * self.columns
    }

    pub open spec fn in_range(self, row: int, column: int) -> bool {
        0 <= row < self.rows && 0 <= column < self.columns
    }

    /// The cell in row `row` and column `column`.
    pub open spec fn at(self, row: int, column: int) -> T {
        self.cells[row * self.columns + column]
    }

    /// The cells of row `row`, left to right.
    pub open spec fn row(self, row: int) -> Seq<T> {
        self.cells.subrange(row * self.columns, row * self.columns + self.columns)
    }

    /// The rows, top to bottom.
    pub open spec fn row_seqs(self) -> Seq<Seq<T>> {
        Seq::new(self.rows, |r: int| self.row(r))
    }

    /// The matrix mirrored at its diagonal: rows become columns.
    pub open spec fn transposed(self) -> Grid<T> {
        Grid {
            rows: self.columns,
            columns: self.rows,
            cells: Seq::new(
                self.rows * self.columns,
                |k: int| self.at(k % (self.rows as int), k / (self.rows as int)),
            ),
        }
    }

    /// A matrix of the given dimensions with `value` in every cell.
    pub open spec fn filled(rows: nat, columns: nat, value: T) -> Grid<T> {
        Grid { rows, columns, cells: Seq::new(rows * columns, |k: int| value) }
    }
}

/// The place of a position in a row-major vector of rows `columns` wide.
pub open spec fn flat_index(columns: int, row: int, column: int) -> int {
    row * columns + column
}

/// Flattening a position keeps it inside the cells, and different positions
/// flatten to different indices.
pub proof fn lemma_flat_index(rows: nat, columns: nat, row: int, column: int)
    requires
        0 <= row < rows,
        0 <= column < columns,
    ensures
        0 <= row * columns + column < rows * columns,
        (row * columns + column) / (columns as int) == row,
        (row * columns + column) % (columns as int) == column,
{
    assert(row * columns + column < rows * columns) by (nonlinear_arith)
        requires
            0 <= row < rows,
            0 <= column < columns,
    {
        assert((row + 1) * columns <= rows * columns);
        assert((row + 1) * columns == row * columns + columns);
    }
    assert(0 <= row * columns) by (nonlinear_arith)
        requires
            0 <= row,
            0 <= columns,
    ;
    assert(row * columns == columns * row) by (nonlinear_arith);
    lemma_fundamental_div_mod_converse(row * columns + column, columns as int, row, column);
}

/// An index into the cells splits into a position of the matrix.
pub proof fn lemma_position(rows: nat, columns: nat, k: int)
    requires
        0 <= k < rows * columns,
    ensures
        columns > 0,
        0 <= k / (columns as int) < rows,
        0 <= k % (columns as int) < columns,
        (k / (columns as int)) * columns + k % (columns as int) == k,
{
    assert(columns > 0) by (nonlinear_arith)
        requires
            0 <= k < rows * columns,
    ;
    let c = columns as int;
    vstd::arithmetic::div_mod::lemma_fundamental_div_mod(k, c);
    assert(0 <= k % c < c) by (nonlinear_arith)
        requires
            c > 0,
    ;
    assert(c * (k / c) == (k / c) * c) by (nonlinear_arith);
    assert(0 <= k / c < rows) by (nonlinear_arith)
        requires
            0 <= k < rows * c,
            c > 0,
            (k / c) * c + k % c == k,
            0 <= k % c < c,
    ;
}

/// A row holds one cell for every column: the cells of its positions.
pub proof fn lemma_row<T>(g: Grid<T>, row: int)
    requires
        g.wf(),
        0 <= row < g.rows,
    ensures
        g.row(row).len() == g.columns,
        forall|column: int| 0 <= column < g.columns ==> #[trigger] g.row(row)[column] == g.at(
            row,
            column,
        ),
{
    if g.columns > 0 {
        lemma_flat_index(g.rows, g.columns, row, g.columns - 1);
    } else {
        assert(row * g.columns == 0) by (nonlinear_arith)
            requires
                g.columns == 0,
        ;
    }
    assert(0 <= row * g.columns) by (nonlinear_arith)
        requires
            0 <= row,
    ;
}

/// The cell at a position of the transposed matrix is the cell at the
/// mirrored position.
pub proof fn lemma_transposed_at<T>(g: Grid<T>, row: int, column: int)
    requires
        g.wf(),
        g.in_range(row, column),
    ensures
        g.transposed().wf(),
        g.transposed().in_range(column, row),
        g.transposed().at(column, row) == g.at(row, column),
{
    lemma_flat_index(g.columns, g.rows, column, row);
    assert(g.rows * g.columns == g.columns * g.rows) by (nonlinear_arith);
}

/// Transposing twice gives the matrix back.
pub proof fn lemma_transpose_involution<T>(g: Grid<T>)
    requires
        g.wf(),
    ensures
        g.transposed().transposed() == g,
{
    let t = g.transposed();
    let tt = t.transposed();
    assert(g.rows * g.columns == g.columns * g.rows) by (nonlinear_arith);
    assert forall|k: int| 0 <= k < g.cells.len() implies tt.cells[k] == g.cells[k] by {
        lemma_position(g.rows, g.columns, k);
        let row = k / (g.columns as int);
        let column = k % (g.columns as int);
        lemma_transposed_at(g, row, column);
    }
    assert(tt.cells =~= g.cells);
}

/// Every row is as long as the first.
pub open spec fn rows_are_even<T>(rows: Seq<Vec<T>>) -> bool {
    forall|i: int| 0 <= i < rows.len() ==> (#[trigger] rows[i]).len() == rows[0].len()
}

/// The length of the first row, 0 where there is no row.
pub open spec fn row_width<T>(rows: Seq<Vec<T>>) -> nat {
    if rows.len() == 0 {
        0
    } else {
        rows[0].len() as nat
    }
}

/// A dense matrix. The cells lie in one vector, row after row.
#[derive(Debug)]
pub struct FlatMatrix<T> {
    vec: Vec<T>,
    rows: usize,
    columns: usize,
}

impl<T> View for FlatMatrix<T> {
    type V = Grid<T>;

    closed spec fn view(&self) -> Grid<T> {
        Grid { rows: self.rows as nat, columns: self.columns as nat, cells: self.vec@ }
    }
}

impl<T: Copy> Clone for FlatMatrix<T> {
    fn clone(&self) -> (m: Self)
        ensures
            m@ == self@,
    {
        let mut vec: Vec<T> = Vec::with_capacity(self.vec.len());
        let mut i: usize = 0;
        while i < self.vec.len()
            invariant
                i <= self.vec.len(),
                vec@ == self.vec@.take(i as int),
            decreases self.vec.len() - i,
        {
            vec.push(self.vec[i]);
            assert(self.vec@.take(i + 1) =~= self.vec@.take(i as int).push(self.vec@[i as int]));
            i = i + 1;
        }
        assert(self.vec@.take(self.vec.len() as int) =~= self.vec@);
        FlatMatrix { vec, rows: self.rows, columns: self.columns }
    }
}

impl<T: Copy> FlatMatrix<T> {
    /// Every position has its cell.
    pub open spec fn wf(&self) -> bool {
        self@.wf()
    }

    /// The dimensions and the number of cells are machine numbers.
    pub proof fn lemma_view_fits(&self)
        ensures
            self@.rows <= usize::MAX,
            self@.columns <= usize::MAX,
            self@.cells.len() <= usize::MAX,
    {
        assert(self.vec@.len() == self.vec.len());
    }

    /// Number of rows.
    pub fn rows(&self) -> (n: usize)
        ensures
            n == self@.rows,
    {
        self.rows
    }

    /// Number of columns.
    pub fn columns(&self) -> (n: usize)
        ensures
            n == self@.columns,
    {
        self.columns
    }

    /// A matrix of `rows` by `columns` cells that all hold `fill_val`.
    pub fn new_fill(rows: usize, columns: usize, fill_val: T) -> (m: Self)
        requires
            rows * columns <= usize::MAX,
        ensures
            m.wf(),
            m@ == Grid::filled(rows as nat, columns as nat, fill_val),
    {
        let n: usize = rows * columns;
        let mut vec: Vec<T> = Vec::with_capacity(n);
        let mut i: usize = 0;
        while i < n
            invariant
                i <= n,
                vec@ == Seq::new(i as nat, |k: int| fill_val),
            decreases n - i,
        {
            vec.push(fill_val);
            assert(vec@ =~= Seq::new((i + 1) as nat, |k: int| fill_val));
            i = i + 1;
        }
        FlatMatrix { vec, rows, columns }
    }

    /// A matrix that claims `rows` by `columns` cells and holds none yet. It
    /// is well formed only where one of the two is zero.
    pub fn new_empty(rows: usize, columns: usize) -> (m: Self)
        requires
            rows * columns <= usize::MAX,
        ensures
            m@ == (Grid { rows: rows as nat, columns: columns as nat, cells: Seq::<T>::empty() }),
    {
        FlatMatrix { vec: Vec::with_capacity(rows * columns), rows, columns }
    }

    /// A matrix over the given cells, which are taken row after row.
    pub fn from_vec(rows: usize, columns: usize, cells: Vec<T>) -> (r: Result<Self, Error>)
        ensures
            cells.len() == rows * columns <==> r is Ok,
            r matches Ok(m) ==> m.wf() && m@ == (Grid {
                rows: rows as nat,
                columns: columns as nat,
                cells: cells@,
            }),
            r matches Err(e) ==> e == Error::ShapeMismatch,
    {
        let fits: bool = match rows.checked_mul(columns) {
            Some(n) => n == cells.len(),
            None => false,
        };
        if fits {
            Ok(FlatMatrix { vec: cells, rows, columns })
        } else {
            Err(Error::ShapeMismatch)
        }
    }

    /// The flat index of a position inside the matrix lies inside the vector.
    proof fn lemma_cell_index(&self, row: usize, column: usize)
        requires
            self.wf(),
            self@.in_range(row as int, column as int),
        ensures
            row * self.columns + column < self.vec.len(),
            row * self.columns + column == row * self@.columns + column,
    {
        lemma_flat_index(self@.rows, self@.columns, row as int, column as int);
        assert(self@.rows == self.rows);
        assert(self@.columns == self.columns);
        assert(self@.cells.len() == self.vec.len());
        assert(self.vec.len() == self.rows * self.columns);
        assert(row * self.columns + column < self.rows * self.columns);
    }

    /// The cell at a position inside the matrix.
    pub fn index(&self, row: usize, column: usize) -> (cell: &T)
        requires
            self.wf(),
            self@.in_range(row as int, column as int),
        ensures
            *cell == self@.at(row as int, column as int),
    {
        proof {
            self.lemma_cell_index(row, column);
        }
        &self.vec[row * self.columns + column]
    }

    /// The cell at a position, or `None` outside the matrix.
    pub fn get(&self, row: usize, column: usize) -> (cell: Option<&T>)
        requires
            self.wf(),
        ensures
            self@.in_range(row as int, column as int) <==> cell is Some,
            cell matches Some(c) ==> *c == self@.at(row as int, column as int),
    {
        if row >= self.rows || column >= self.columns {
            None
        } else {
            Some(self.index(row, column))
        }
    }

    /// The cell at a position, or the error for an access outside the matrix.
    pub fn try_get(&self, row: usize, column: usize) -> (cell: Result<T, Error>)
        requires
            self.wf(),
        ensures
            self@.in_range(row as int, column as int) <==> cell is Ok,
            cell matches Ok(c) ==> c == self@.at(row as int, column as int),
            cell matches Err(e) ==> e == Error::IndexOutOfRange,
    {
        if row >= self.rows || column >= self.columns {
            Err(Error::IndexOutOfRange)
        } else {
            Ok(*self.index(row, column))
        }
    }

    /// Puts `value` into the cell at a position; outside the matrix nothing
    /// changes and the access is refused.
    pub fn set(&mut self, row: usize, column: usize, value: T) -> (r: Result<(), Error>)
        requires
            old(self).wf(),
        ensures
            final(self).wf(),
            old(self)@.in_range(row as int, column as int) <==> r is Ok,
            r is Ok ==> final(self)@ == (Grid {
                cells: old(self)@.cells.update(row * old(self)@.columns + column, value),
                ..old(self)@
            }),
            r is Err ==> r == Err::<(), Error>(Error::IndexOutOfRange) && final(self)@ == old(self)@,
    {
        if row >= self.rows || column >= self.columns {
            Err(Error::IndexOutOfRange)
        } else {
            proof {
                self.lemma_cell_index(row, column);
            }
            let k: usize = row * self.columns + column;
            self.vec.set(k, value);
            Ok(())
        }
    }

    /// The cell at a position, or `None` outside the matrix. The matrix is
    /// borrowed for writing and left as it was.
    pub fn get_mut(&mut self, row: usize, column: usize) -> (cell: Option<&T>)
        requires
            old(self).wf(),
        ensures
            final(self)@ == old(self)@,
            old(self)@.in_range(row as int, column as int) <==> cell is Some,
            cell matches Some(c) ==> *c == old(self)@.at(row as int, column as int),
    {
        if row >= self.rows || column >= self.columns {
            None
        } else {
            proof {
                self.lemma_cell_index(row, column);
            }
            Some(&self.vec[row * self.columns + column])
        }
    }

    /// An iterator over the cells in row-major order.
    pub fn iter(&self) -> (it: std::slice::Iter<'_, T>)
        ensures
            vstd::std_specs::slice::into_iter_elts(it) == self@.cells,
    {
        self.vec.as_slice().iter()
    }

    /// The rows as vectors, top to bottom. A matrix without columns cannot
    /// be cut into rows this way.
    pub fn chunks(&self) -> (rows: Vec<Vec<T>>)
        requires
            self.wf(),
            self@.columns > 0,
        ensures
            rows.len() == self@.rows,
            forall|r: int| 0 <= r < self@.rows ==> (#[trigger] rows[r])@ == self@.row(r),
    {
        self.into_iter_vecs()
    }

    /// A matrix whose rows are the given vectors, which must all have one
    /// length.
    pub fn from_rows(rows: Vec<Vec<T>>) -> (r: Result<Self, Error>)
        ensures
            rows_are_even(rows@) <==> r is Ok,
            r matches Ok(m) ==> {
                &&& m.wf()
                &&& m@.rows == rows.len()
                &&& m@.columns == row_width(rows@)
                &&& forall|i: int, j: int|
                    0 <= i < rows.len() && 0 <= j < row_width(rows@) ==> m@.at(i, j)
                        == #[trigger] rows[i][j]
            },
            r matches Err(e) ==> e == Error::ShapeMismatch,
    {
        let n: usize = rows.len();
        let width: usize = if n == 0 {
            0
        } else {
            rows[0].len()
        };
        let mut i: usize = 0;
        while i < n
            invariant
                n == rows.len(),
                width == row_width(rows@),
                i <= n,
                forall|k: int| 0 <= k < i ==> (#[trigger] rows[k]).len() == width,
            decreases n - i,
        {
            if rows[i].len() != width {
                return Err(Error::ShapeMismatch);
            }
            i = i + 1;
        }
        Ok(Self::from_even_rows(rows, width))
    }

    /// The cells of row `row_index`, left to right. A matrix without columns
    /// has an empty row at every index.
    pub fn get_row(&self, row_index: usize) -> (row: Vec<T>)
        requires
            self.wf(),
            row_index < self@.rows || self@.columns == 0,
        ensures
            row@ == self@.row(row_index as int),
    {
        let mut row: Vec<T> = Vec::with_capacity(self.columns);
        let mut i: usize = 0;
        while i < self.columns
            invariant
                self.wf(),
                row_index < self@.rows || self@.columns == 0,
                i <= self.columns,
                row.len() == i,
                forall|k: int| 0 <= k < i ==> row[k] == self@.at(row_index as int, k),
            decreases self.columns - i,
        {
            row.push(*self.index(row_index, i));
            i = i + 1;
        }
        proof {
            if self.columns > 0 {
                lemma_flat_index(
                    self@.rows,
                    self@.columns,
                    row_index as int,
                    self.columns as int - 1,
                );
            } else {
                assert(row_index * self@.columns == 0) by (nonlinear_arith)
                    requires
                        self@.columns == 0,
                ;
            }
            assert(0 <= row_index * self@.columns) by (nonlinear_arith);
            assert(row@ =~= self@.row(row_index as int));
        }
        row
    }

    /// The rows, top to bottom, each left to right.
    pub fn into_iter_vecs(&self) -> (rows: Vec<Vec<T>>)
        requires
            self.wf(),
        ensures
            rows.len() == self@.rows,
            forall|r: int| 0 <= r < self@.rows ==> (#[trigger] rows[r])@ == self@.row(r),
    {
        let mut rows: Vec<Vec<T>> = Vec::with_capacity(self.rows);
        let mut i: usize = 0;
        while i < self.rows
            invariant
                self.wf(),
                i <= self.rows,
                rows.len() == i,
                forall|r: int| 0 <= r < i ==> (#[trigger] rows[r])@ == self@.row(r),
            decreases self.rows - i,
        {
            rows.push(self.get_row(i));
            i = i + 1;
        }
        rows
    }

    /// The matrix mirrored at its diagonal, as a new matrix; the source is
    /// left as it is.
    pub fn transpose(&self) -> (t: FlatMatrix<T>)
        requires
            self.wf(),
        ensures
            t.wf(),
            t@ == self@.transposed(),
    {
        let mut vec: Vec<T> = Vec::with_capacity(self.vec.len());
        let ghost g = self@;
        let mut col: usize = 0;
        proof {
            assert(g.rows * g.columns == g.columns * g.rows) by (nonlinear_arith);
            assert(0 * g.rows == 0) by (nonlinear_arith);
        }
        while col < self.columns
            invariant
                self.wf(),
                g == self@,
                col <= self.columns,
                vec.len() == col * g.rows,
                forall|k: int| 0 <= k < vec.len() ==> vec[k] == g.transposed().cells[k],
            decreases self.columns - col,
        {
            let mut row: usize = 0;
            while row < self.rows
                invariant
                    self.wf(),
                    g == self@,
                    col < self.columns,
                    row <= self.rows,
                    vec.len() == col * g.rows + row,
                    forall|k: int| 0 <= k < vec.len() ==> vec[k] == g.transposed().cells[k],
                decreases self.rows - row,
            {
                proof {
                    lemma_flat_index(g.columns, g.rows, col as int, row as int);
                    assert(g.rows * g.columns == g.columns * g.rows) by (nonlinear_arith);
                }
                vec.push(*self.index(row, col));
                row = row + 1;
            }
            proof {
                assert((col + 1) * g.rows == col * g.rows + g.rows) by (nonlinear_arith);
            }
            col = col + 1;
        }
        proof {
            assert(g.rows * g.columns == g.columns * g.rows) by (nonlinear_arith);
            assert(vec@ =~= g.transposed().cells);
        }
        FlatMatrix { vec, rows: self.columns, columns: self.rows }
    }
}

/// What `f` may give for every position of a row, left to right.
pub open spec fn row_from_fn<T, F: Fn(usize, usize) -> T>(
    f: &F,
    row: usize,
    columns: usize,
    cells: Seq<T>,
) -> bool {
    &&& cells.len() == columns
    &&& forall|c: usize| c < columns ==> call_ensures(*f, (row, c), #[trigger] cells[c as int])
}

/// Fills one row with what `f` gives for its positions, left to right.
fn fill_row<T: Copy, F: Fn(usize, usize) -> T>(f: &F, row: usize, columns: usize) -> (cells: Vec<T>)
    requires
        forall|c: usize| c < columns ==> call_requires(*f, (row, c)),
    ensures
        row_from_fn(f, row, columns, cells@),
{
    let mut cells: Vec<T> = Vec::with_capacity(columns);
    let mut c: usize = 0;
    while c < columns
        invariant
            forall|k: usize| k < columns ==> call_requires(*f, (row, k)),
            c <= columns,
            cells.len() == c,
            forall|k: usize| k < c ==> call_ensures(*f, (row, k), #[trigger] cells[k as int]),
        decreases columns - c,
    {
        cells.push(f(row, c));
        c = c + 1;
    }
    cells
}

impl<T: Copy> FlatMatrix<T> {
    /// Lays rows of one width out as a matrix of that width.
    fn from_even_rows(lines: Vec<Vec<T>>, columns: usize) -> (m: Self)
        requires
            forall|r: int| 0 <= r < lines.len() ==> (#[trigger] lines[r]).len() == columns,
        ensures
            m.wf(),
            m@.rows == lines.len(),
            m@.columns == columns,
            forall|r: int, c: int|
                0 <= r < lines.len() && 0 <= c < columns ==> m@.at(r, c) == #[trigger] lines[r][c],
    {
        let n: usize = lines.len();
        let mut vec: Vec<T> = Vec::new();
        let mut row: usize = 0;
        proof {
            assert(0 * (columns as int) == 0) by (nonlinear_arith);
        }
        while row < n
            invariant
                n == lines.len(),
                forall|k: int| 0 <= k < n ==> (#[trigger] lines[k]).len() == columns,
                row <= n,
                vec.len() == row * columns,
                forall|i: int, j: int|
                    0 <= i < row && 0 <= j < columns ==> vec[flat_index(columns as int, i, j)]
                        == #[trigger] lines[i][j],
            decreases n - row,
        {
            let mut col: usize = 0;
            while col < columns
                invariant
                    n == lines.len(),
                    forall|k: int| 0 <= k < n ==> (#[trigger] lines[k]).len() == columns,
                    row < n,
                    col <= columns,
                    vec.len() == row * columns + col,
                    forall|i: int, j: int|
                        0 <= i < row && 0 <= j < columns ==> vec[flat_index(columns as int, i, j)]
                            == #[trigger] lines[i][j],
                    forall|j: int|
                        0 <= j < col ==> vec[flat_index(columns as int, row as int, j)]
                            == #[trigger] lines[row as int][j],
                decreases columns - col,
            {
                proof {
                    assert forall|i: int, j: int| 0 <= i < row && 0 <= j < columns implies 0
                        <= #[trigger] flat_index(columns as int, i, j) < row * (columns as int) by {
                        lemma_flat_index(row as nat, columns as nat, i, j);
                    }
                }
                vec.push(lines[row][col]);
                col = col + 1;
            }
            proof {
                assert((row + 1) * (columns as int) == row * (columns as int) + columns)
                    by (nonlinear_arith);
            }
            row = row + 1;
        }
        proof {
            assert forall|i: int, j: int| 0 <= i < n && 0 <= j < columns implies vec@[i * (
            columns as int) + j] == #[trigger] lines[i][j] by {
                assert(vec[flat_index(columns as int, i, j)] == lines[i][j]);
            }
        }
        FlatMatrix { vec, rows: n, columns }
    }

    /// A matrix whose cell at every position is what `f` gives for the
    /// position, filled row after row.
    pub fn from_fn<F: Fn(usize, usize) -> T>(rows: usize, columns: usize, f: F) -> (m: Self)
        requires
            forall|r: usize, c: usize| r < rows && c < columns ==> call_requires(f, (r, c)),
        ensures
            m.wf(),
            m@.rows == rows,
            m@.columns == columns,
            forall|r: usize, c: usize|
                r < rows && c < columns ==> call_ensures(
                    f,
                    (r, c),
                    #[trigger] m@.at(r as int, c as int),
                ),
    {
        let mut lines: Vec<Vec<T>> = Vec::with_capacity(rows);
        let mut r: usize = 0;
        while r < rows
            invariant
                forall|i: usize, c: usize| i < rows && c < columns ==> call_requires(f, (i, c)),
                r <= rows,
                lines.len() == r,
                forall|i: usize| i < r ==> row_from_fn(&f, i, columns, (#[trigger] lines[i as int])@),
            decreases rows - r,
        {
            lines.push(fill_row(&f, r, columns));
            r = r + 1;
        }
        assert forall|i: int| 0 <= i < lines.len() implies (#[trigger] lines[i]).len()
            == columns by {
            let t = i as usize;
            assert(row_from_fn(&f, t, columns, lines[t as int]@));
        }
        let m = Self::from_even_rows(lines, columns);
        assert forall|r: usize, c: usize| r < rows && c < columns implies call_ensures(
            f,
            (r, c),
            #[trigger] m@.at(r as int, c as int),
        ) by {
            assert(row_from_fn(&f, r, columns, lines[r as int]@));
            assert(m@.at(r as int, c as int) == lines[r as int][c as int]);
        }
        m
    }
}

impl<T: Copy + Send + Sync> FlatMatrix<T> {
    /// A matrix whose cell at every position is what `f` gives for the
    /// position, its rows filled on the thread pool. No two rows share a
    /// cell, so the rows are filled independently of each other.
    pub fn par_from_fn<F: Fn(usize, usize) -> T + Sync + Send>(
        rows: usize,
        columns: usize,
        f: F,
    ) -> (m: Self)
        requires
            forall|r: usize, c: usize| r < rows && c < columns ==> call_requires(f, (r, c)),
        ensures
            m.wf(),
            m@.rows == rows,
            m@.columns == columns,
            forall|r: usize, c: usize|
                r < rows && c < columns ==> call_ensures(
                    f,
                    (r, c),
                    #[trigger] m@.at(r as int, c as int),
                ),
    {
        let given = &f;
        let one_row = |r: usize| -> (cells: Vec<T>)
            requires
                r < rows,
            ensures
                row_from_fn(given, r, columns, cells@),
            {
                let cells: Vec<T> = fill_row(given, r, columns);
                cells
            };
        let lines: Vec<Vec<T>> = par_map_range(rows, one_row);
        assert forall|i: int| 0 <= i < lines.len() implies (#[trigger] lines[i]).len()
            == columns by {
            let t = i as usize;
            assert(row_from_fn(&f, t, columns, lines[t as int]@));
        }
        let m = Self::from_even_rows(lines, columns);
        assert forall|r: usize, c: usize| r < rows && c < columns implies call_ensures(
            f,
            (r, c),
            #[trigger] m@.at(r as int, c as int),
        ) by {
            assert(row_from_fn(&f, r, columns, lines[r as int]@));
            assert(m@.at(r as int, c as int) == lines[r as int][c as int]);
        }
        m
    }

    /// The rows as vectors, top to bottom, cut out on the thread pool. A
    /// matrix without columns cannot be cut into rows this way.
    pub fn par_chunks(&self) -> (rows: Vec<Vec<T>>)
        requires
            self.wf(),
            self@.columns > 0,
        ensures
            rows.len() == self@.rows,
            forall|r: int| 0 <= r < self@.rows ==> (#[trigger] rows[r])@ == self@.row(r),
    {
        let n: usize = self.rows;
        let one_row = |r: usize| -> (row: Vec<T>)
            requires
                r < n,
            ensures
                row@ == self@.row(r as int),
            {
                let row: Vec<T> = self.get_row(r);
                row
            };
        let rows: Vec<Vec<T>> = par_map_range(n, one_row);
        assert forall|r: int| 0 <= r < self@.rows implies (#[trigger] rows[r])@ == self@.row(
            r,
        ) by {
            let i = r as usize;
            assert(rows[i as int] == rows[r]);
        }
        rows
    }
}

/// Whatever `transpose` gives for a matrix, and then for what it gave, the
/// second holds what the matrix holds.
pub proof fn lemma_transpose_twice<T: Copy>(
    m: &FlatMatrix<T>,
    once: FlatMatrix<T>,
    twice: FlatMatrix<T>,
)
    requires
        m.wf(),
        call_ensures(FlatMatrix::<T>::transpose, (m,), once),
        call_ensures(FlatMatrix::<T>::transpose, (&once,), twice),
    ensures
        twice@ == m@,
{
    lemma_transpose_involution(m@);
}

/// No row is shorter than the first.
pub open spec fn rows_reach_first<T>(rows: Seq<Vec<T>>) -> bool {
    forall|i: int| 0 <= i < rows.len() ==> (#[trigger] rows[i]).len() >= rows[0].len()
}

/// Rows of cells mirrored at the diagonal: as many rows as the first row is
/// long, each holding one cell of every row. What lies beyond the length of
/// the first row is left out.
pub fn transpose<T: Copy>(matrix: Vec<Vec<T>>) -> (t: Vec<Vec<T>>)
    requires
        rows_reach_first(matrix@),
    ensures
        t.len() == row_width(matrix@),
        forall|i: int|
            0 <= i < t.len() ==> {
                &&& (#[trigger] t[i]).len() == matrix.len()
                &&& forall|j: int| 0 <= j < matrix.len() ==> t[i][j] == #[trigger] matrix[j][i]
            },
{
    let mut t: Vec<Vec<T>> = Vec::new();
    if matrix.len() == 0 {
        return t;
    }
    let rows: usize = matrix.len();
    let cols: usize = matrix[0].len();
    let mut i: usize = 0;
    while i < cols
        invariant
            rows == matrix.len(),
            rows > 0,
            cols == matrix[0].len(),
            rows_reach_first(matrix@),
            i <= cols,
            t.len() == i,
            forall|k: int|
                0 <= k < i ==> {
                    &&& (#[trigger] t[k]).len() == rows
                    &&& forall|j: int| 0 <= j < rows ==> t[k][j] == #[trigger] matrix[j][k]
                },
        decreases cols - i,
    {
        let mut line: Vec<T> = Vec::with_capacity(rows);
        let mut j: usize = 0;
        while j < rows
            invariant
                rows == matrix.len(),
                cols == matrix[0].len(),
                rows_reach_first(matrix@),
                i < cols,
                j <= rows,
                line.len() == j,
                forall|k: int| 0 <= k < j ==> line[k] == #[trigger] matrix[k][i as int],
            decreases rows - j,
        {
            assert(matrix[j as int].len() >= cols);
            line.push(matrix[j][i]);
            j = j + 1;
        }
        t.push(line);
        i = i + 1;
    }
    t
}

} // verus!
