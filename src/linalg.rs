use vstd::prelude::*;

verus! {

/// `x` reduced modulo 2^32, the way the machine's wrapping `u32` arithmetic does.
pub open spec fn wrap(x: int) -> u32 {
    (x % 0x1_0000_0000) as u32
}

/// Why an access to a matrix was refused.
#[derive(PartialEq, Eq, Structural, Debug, Clone, Copy)]
pub enum MatrixError {
    IndexOutOfRange,
}

/// The mathematical content of a matrix: its shape and its cells in row-major order.
pub struct Grid {
    pub rows: nat,
    pub cols: nat,
    pub cells: Seq<u32>,
}

impl Grid {
    pub open spec fn wf(self) -> bool {
        self.cells.len() == self.rows * self.cols
    }

    pub open spec fn in_bounds(self, r: int, c: int) -> bool {
        0 <= r < self.rows && 0 <= c < self.cols
    }

    /// The cell at row `r`, column `c`.
    pub open spec fn at(self, r: int, c: int) -> u32 {
        self.cells[r * self.cols + c]
    }

    /// What a checked read returns.
    pub open spec fn get(self, r: int, c: int) -> Result<u32, MatrixError> {
        if self.in_bounds(r, c) {
            Ok(self.at(r, c))
        } else {
            Err(MatrixError::IndexOutOfRange)
        }
    }

    /// The grid after a checked write; a write out of range changes nothing.
    pub open spec fn set(self, r: int, c: int, v: u32) -> Grid {
        if self.in_bounds(r, c) {
            Grid { cells: self.cells.update(r * self.cols + c, v), ..self }
        } else {
            self
        }
    }

    /// Row `i` as a sequence.
    pub open spec fn row_of(self, i: int) -> Seq<u32> {
        Seq::new(self.cols, |k: int| self.at(i, k))
    }

    /// Column `j` as a sequence.
    pub open spec fn col_of(self, j: int) -> Seq<u32> {
        Seq::new(self.rows, |k: int| self.at(k, j))
    }
}

/// Sum of the pairwise products of the first `n` entries of `x` and `y`, without wrapping.
pub open spec fn sum_products(x: Seq<u32>, y: Seq<u32>, n: nat) -> int
    decreases n,
{
    if n == 0 {
        0
    } else {
        sum_products(x, y, (n - 1) as nat) + x[n - 1] as int * y[n - 1] as int
    }
}

/// Row-major positions are within the buffer.
pub proof fn lemma_index_in_range(rows: int, cols: int, r: int, c: int)
    requires
        0 <= r < rows,
        0 <= c < cols,
    ensures
        0 <= r * cols + c < rows * cols,
{
    assert(0 <= r * cols + c < rows * cols) by (nonlinear_arith)
        requires
            0 <= r < rows,
            0 <= c < cols,
    ;
}

/// Distinct cells have distinct row-major positions.
pub proof fn lemma_index_distinct(cols: int, r1: int, c1: int, r2: int, c2: int)
    requires
        0 <= r1,
        0 <= r2,
        0 <= c1 < cols,
        0 <= c2 < cols,
        r1 != r2 || c1 != c2,
    ensures
        r1 * cols + c1 != r2 * cols + c2,
{
    if r1 < r2 {
        assert(r1 * cols + c1 < r2 * cols + c2) by (nonlinear_arith)
            requires
                r1 < r2,
                0 <= c1 < cols,
                0 <= c2,
        ;
    } else if r2 < r1 {
        assert(r2 * cols + c2 < r1 * cols + c1) by (nonlinear_arith)
            requires
                r2 < r1,
                0 <= c2 < cols,
                0 <= c1,
        ;
    }
}

/// A write followed by a read of the same cell gives the written value; a read out of
/// range fails, and a write out of range leaves the grid as it was.
pub proof fn lemma_set_then_get(g: Grid, r: int, c: int, v: u32)
    requires
        g.wf(),
    ensures
        g.set(r, c, v).wf(),
        g.in_bounds(r, c) ==> g.set(r, c, v).get(r, c) == Ok::<u32, MatrixError>(v),
        !g.in_bounds(r, c) ==> g.get(r, c) == Err::<u32, MatrixError>(MatrixError::IndexOutOfRange),
        !g.in_bounds(r, c) ==> g.set(r, c, v) == g,
        forall|r2: int, c2: int|
            g.in_bounds(r2, c2) && (r2 != r || c2 != c) ==> #[trigger] g.set(r, c, v).get(r2, c2)
                == g.get(r2, c2),
{
    if g.in_bounds(r, c) {
        lemma_index_in_range(g.rows as int, g.cols as int, r, c);
    }
    assert forall|r2: int, c2: int|
        g.in_bounds(r2, c2) && (r2 != r || c2 != c) implies #[trigger] g.set(r, c, v).get(r2, c2)
        == g.get(r2, c2) by {
        lemma_index_in_range(g.rows as int, g.cols as int, r2, c2);
        if g.in_bounds(r, c) {
            lemma_index_distinct(g.cols as int, r, c, r2, c2);
        }
    }
}

/// A dense row-major matrix of packed values.
pub struct Matrix {
    pub rows: u32,
    pub cols: u32,
    pub data: Vec<u32>,
}

impl View for Matrix {
    type V = Grid;

    open spec fn view(&self) -> Grid {
        Grid { rows: self.rows as nat, cols: self.cols as nat, cells: self.data@ }
    }
}

impl Matrix {
    /// The matrix holds exactly `rows * cols` entries.
    pub open spec fn wf(&self) -> bool {
        self@.wf()
    }

    /// Matrix of the given shape with every cell equal to `value`.
    fn filled(value: u32, rows: u32, cols: u32) -> (r: Matrix)
        requires
            rows * cols <= usize::MAX,
        ensures
            r.wf(),
            r.rows == rows,
            r.cols == cols,
            forall|i: int, j: int| r@.in_bounds(i, j) ==> #[trigger] r@.at(i, j) == value,
    {
        let n: usize = rows as usize * cols as usize;
        let r = Matrix { rows, cols, data: vec![value; n] };
        assert forall|i: int, j: int| r@.in_bounds(i, j) implies #[trigger] r@.at(i, j) == value by {
            lemma_index_in_range(rows as int, cols as int, i, j);
        }
        r
    }

    /// Zero-filled matrix of the given shape.
    pub fn zeros(rows: u32, cols: u32) -> (r: Matrix)
        requires
            rows * cols <= usize::MAX,
        ensures
            r.wf(),
            r.rows == rows,
            r.cols == cols,
            forall|i: int, j: int| r@.in_bounds(i, j) ==> #[trigger] r@.at(i, j) == 0,
    {
        Matrix::filled(0, rows, cols)
    }

    /// Matrix of the given shape with every cell equal to one.
    pub fn ones(rows: u32, cols: u32) -> (r: Matrix)
        requires
            rows * cols <= usize::MAX,
        ensures
            r.wf(),
            r.rows == rows,
            r.cols == cols,
            forall|i: int, j: int| r@.in_bounds(i, j) ==> #[trigger] r@.at(i, j) == 1,
    {
        Matrix::filled(1, rows, cols)
    }

    /// Matrix over an existing row-major buffer.
    pub fn from_data(rows: u32, cols: u32, data: Vec<u32>) -> (r: Matrix)
        requires
            data@.len() == rows * cols,
        ensures
            r.wf(),
            r.rows == rows,
            r.cols == cols,
            r.data@ == data@,
    {
        Matrix { rows, cols, data }
    }

    /// Reads a cell known to be in range.
    pub(crate) fn read(&self, row: u32, col: u32) -> (r: u32)
        requires
            self.wf(),
            self@.in_bounds(row as int, col as int),
        ensures
            r == self@.at(row as int, col as int),
    {
        let len = self.data.len();
        proof {
            lemma_index_in_range(self.rows as int, self.cols as int, row as int, col as int);
        }
        self.data[row as usize * self.cols as usize + col as usize]
    }

    /// Writes a cell known to be in range.
    pub(crate) fn write(&mut self, row: u32, col: u32, value: u32)
        requires
            old(self).wf(),
            old(self)@.in_bounds(row as int, col as int),
        ensures
            final(self).wf(),
            final(self).rows == old(self).rows,
            final(self).cols == old(self).cols,
            final(self)@ == old(self)@.set(row as int, col as int, value),
            forall|r: int, c: int|
                old(self)@.in_bounds(r, c) ==> #[trigger] final(self)@.at(r, c) == if r == row
                    && c == col {
                    value
                } else {
                    old(self)@.at(r, c)
                },
    {
        let len = self.data.len();
        proof {
            lemma_index_in_range(self.rows as int, self.cols as int, row as int, col as int);
        }
        let idx: usize = row as usize * self.cols as usize + col as usize;
        self.data.set(idx, value);
        proof {
            assert forall|r: int, c: int| old(self)@.in_bounds(r, c) implies #[trigger] self@.at(r, c)
                == if r == row && c == col {
                value
            } else {
                old(self)@.at(r, c)
            } by {
                lemma_index_in_range(self.rows as int, self.cols as int, r, c);
                if r != row || c != col {
                    lemma_index_distinct(self.cols as int, r, c, row as int, col as int);
                }
            }
        }
    }

    /// The cell at `row`, `col`, or `IndexOutOfRange` when that lies outside the matrix.
    pub fn get(&self, row: u32, col: u32) -> (r: Result<u32, MatrixError>)
        requires
            self.wf(),
        ensures
            r == self@.get(row as int, col as int),
    {
        if row < self.rows && col < self.cols {
            Ok(self.read(row, col))
        } else {
            Err(MatrixError::IndexOutOfRange)
        }
    }

    /// Stores `value` at `row`, `col`; outside the matrix nothing is stored and
    /// `IndexOutOfRange` is returned.
    pub fn set(&mut self, row: u32, col: u32, value: u32) -> (r: Result<(), MatrixError>)
        requires
            old(self).wf(),
        ensures
            final(self).wf(),
            final(self)@ == old(self)@.set(row as int, col as int, value),
            r is Ok <==> old(self)@.in_bounds(row as int, col as int),
            r is Err ==> r == Err::<(), MatrixError>(MatrixError::IndexOutOfRange),
    {
        if row < self.rows && col < self.cols {
            self.write(row, col, value);
            Ok(())
        } else {
            Err(MatrixError::IndexOutOfRange)
        }
    }

    /// Copy of rows `start_row..end_row` and columns `start_col..end_col`; a region that
    /// is reversed or reaches past the matrix gives `IndexOutOfRange`.
    pub fn get_block(&self, start_row: u32, start_col: u32, end_row: u32, end_col: u32) -> (r: Result<
        Matrix,
        MatrixError,
    >)
        requires
            self.wf(),
        ensures
            r is Ok <==> (start_row <= end_row <= self.rows && start_col <= end_col <= self.cols),
            r is Err ==> r == Err::<Matrix, MatrixError>(MatrixError::IndexOutOfRange),
            r matches Ok(b) ==> {
                &&& b.wf()
                &&& b.rows == end_row - start_row
                &&& b.cols == end_col - start_col
                &&& forall|i: int, j: int|
                    b@.in_bounds(i, j) ==> #[trigger] b@.at(i, j) == self@.at(
                        start_row + i,
                        start_col + j,
                    )
            },
    {
        if !(start_row <= end_row && end_row <= self.rows && start_col <= end_col && end_col
            <= self.cols) {
            return Err(MatrixError::IndexOutOfRange);
        }
        let len = self.data.len();
        let h: u32 = end_row - start_row;
        let w: u32 = end_col - start_col;
        proof {
            assert(h * w <= self.rows * self.cols) by (nonlinear_arith)
                requires
                    h <= self.rows,
                    w <= self.cols,
            ;
        }
        let mut output = Matrix::zeros(h, w);
        let mut i: u32 = 0;
        while i < h
            invariant
                i <= h,
                self.wf(),
                h == end_row - start_row,
                w == end_col - start_col,
                end_row <= self.rows,
                end_col <= self.cols,
                output.wf(),
                output.rows == h,
                output.cols == w,
                forall|a: int, b: int|
                    0 <= a < i && 0 <= b < w ==> #[trigger] output@.at(a, b) == self@.at(
                        start_row + a,
                        start_col + b,
                    ),
            decreases h - i,
        {
            let mut j: u32 = 0;
            while j < w
                invariant
                    i < h,
                    j <= w,
                    self.wf(),
                    h == end_row - start_row,
                    w == end_col - start_col,
                    end_row <= self.rows,
                    end_col <= self.cols,
                    output.wf(),
                    output.rows == h,
                    output.cols == w,
                    forall|a: int, b: int|
                        (0 <= a < i && 0 <= b < w) || (a == i && 0 <= b < j)
                            ==> #[trigger] output@.at(a, b) == self@.at(
                            start_row + a,
                            start_col + b,
                        ),
                decreases w - j,
            {
                let v = self.read(start_row + i, start_col + j);
                output.write(i, j, v);
                j = j + 1;
            }
            i = i + 1;
        }
        Ok(output)
    }

    /// Overwrites the region at (`start_row`, `start_col`) with `block`.
    pub fn set_block(&mut self, start_row: u32, start_col: u32, block: &Matrix)
        requires
            old(self).wf(),
            block.wf(),
            start_row + block.rows <= old(self).rows,
            start_col + block.cols <= old(self).cols,
        ensures
            final(self).wf(),
            final(self).rows == old(self).rows,
            final(self).cols == old(self).cols,
            forall|r: int, c: int|
                old(self)@.in_bounds(r, c) ==> #[trigger] final(self)@.at(r, c) == if start_row <= r
                    < start_row + block.rows && start_col <= c < start_col + block.cols {
                    block@.at(r - start_row, c - start_col)
                } else {
                    old(self)@.at(r, c)
                },
    {
        let mut i: u32 = 0;
        while i < block.rows
            invariant
                i <= block.rows,
                self.wf(),
                block.wf(),
                self.rows == old(self).rows,
                self.cols == old(self).cols,
                start_row + block.rows <= self.rows,
                start_col + block.cols <= self.cols,
                forall|r: int, c: int|
                    old(self)@.in_bounds(r, c) ==> #[trigger] self@.at(r, c) == if start_row <= r
                        < start_row + i && start_col <= c < start_col + block.cols {
                        block@.at(r - start_row, c - start_col)
                    } else {
                        old(self)@.at(r, c)
                    },
            decreases block.rows - i,
        {
            let mut j: u32 = 0;
            while j < block.cols
                invariant
                    i < block.rows,
                    j <= block.cols,
                    self.wf(),
                    block.wf(),
                    self.rows == old(self).rows,
                    self.cols == old(self).cols,
                    start_row + block.rows <= self.rows,
                    start_col + block.cols <= self.cols,
                    forall|r: int, c: int|
                        old(self)@.in_bounds(r, c) ==> #[trigger] self@.at(r, c) == if (start_row
                            <= r < start_row + i && start_col <= c < start_col + block.cols) || (r
                            == start_row + i && start_col <= c < start_col + j) {
                            block@.at(r - start_row, c - start_col)
                        } else {
                            old(self)@.at(r, c)
                        },
                decreases block.cols - j,
            {
                let v = block.read(i, j);
                self.write(i + start_row, j + start_col, v);
                j = j + 1;
            }
            i = i + 1;
        }
    }

    /// Adds `block` cell by cell into the region at (`start_row`, `start_col`), wrapping on
    /// overflow.
    pub fn add_block(&mut self, start_row: u32, start_col: u32, block: &Matrix)
        requires
            old(self).wf(),
            block.wf(),
            start_row + block.rows <= old(self).rows,
            start_col + block.cols <= old(self).cols,
        ensures
            final(self).wf(),
            final(self).rows == old(self).rows,
            final(self).cols == old(self).cols,
            forall|r: int, c: int|
                old(self)@.in_bounds(r, c) ==> #[trigger] final(self)@.at(r, c) == if start_row <= r
                    < start_row + block.rows && start_col <= c < start_col + block.cols {
                    wrap(old(self)@.at(r, c) + block@.at(r - start_row, c - start_col))
                } else {
                    old(self)@.at(r, c)
                },
    {
        let mut i: u32 = 0;
        while i < block.rows
            invariant
                i <= block.rows,
                self.wf(),
                block.wf(),
                self.rows == old(self).rows,
                self.cols == old(self).cols,
                start_row + block.rows <= self.rows,
                start_col + block.cols <= self.cols,
                forall|r: int, c: int|
                    old(self)@.in_bounds(r, c) ==> #[trigger] self@.at(r, c) == if start_row <= r
                        < start_row + i && start_col <= c < start_col + block.cols {
                        wrap(old(self)@.at(r, c) + block@.at(r - start_row, c - start_col))
                    } else {
                        old(self)@.at(r, c)
                    },
            decreases block.rows - i,
        {
            let mut j: u32 = 0;
            while j < block.cols
                invariant
                    i < block.rows,
                    j <= block.cols,
                    self.wf(),
                    block.wf(),
                    self.rows == old(self).rows,
                    self.cols == old(self).cols,
                    start_row + block.rows <= self.rows,
                    start_col + block.cols <= self.cols,
                    forall|r: int, c: int|
                        old(self)@.in_bounds(r, c) ==> #[trigger] self@.at(r, c) == if (start_row
                            <= r < start_row + i && start_col <= c < start_col + block.cols) || (r
                            == start_row + i && start_col <= c < start_col + j) {
                            wrap(old(self)@.at(r, c) + block@.at(r - start_row, c - start_col))
                        } else {
                            old(self)@.at(r, c)
                        },
                decreases block.cols - j,
            {
                let cur = self.read(i + start_row, j + start_col);
                let v = block.read(i, j);
                self.write(i + start_row, j + start_col, cur.wrapping_add(v));
                j = j + 1;
            }
            i = i + 1;
        }
    }

    /// Copies the non-zero cells of `block` into the region at (`start_row`, `start_col`);
    /// zero cells are transparent.
    pub fn overlay_block(&mut self, start_row: u32, start_col: u32, block: &Matrix)
        requires
            old(self).wf(),
            block.wf(),
            start_row + block.rows <= old(self).rows,
            start_col + block.cols <= old(self).cols,
        ensures
            final(self).wf(),
            final(self).rows == old(self).rows,
            final(self).cols == old(self).cols,
            forall|r: int, c: int|
                old(self)@.in_bounds(r, c) ==> #[trigger] final(self)@.at(r, c) == if start_row <= r
                    < start_row + block.rows && start_col <= c < start_col + block.cols && block@.at(
                    r - start_row,
                    c - start_col,
                ) != 0 {
                    block@.at(r - start_row, c - start_col)
                } else {
                    old(self)@.at(r, c)
                },
    {
        let mut i: u32 = 0;
        while i < block.rows
            invariant
                i <= block.rows,
                self.wf(),
                block.wf(),
                self.rows == old(self).rows,
                self.cols == old(self).cols,
                start_row + block.rows <= self.rows,
                start_col + block.cols <= self.cols,
                forall|r: int, c: int|
                    old(self)@.in_bounds(r, c) ==> #[trigger] self@.at(r, c) == if start_row <= r
                        < start_row + i && start_col <= c < start_col + block.cols && block@.at(
                        r - start_row,
                        c - start_col,
                    ) != 0 {
                        block@.at(r - start_row, c - start_col)
                    } else {
                        old(self)@.at(r, c)
                    },
            decreases block.rows - i,
        {
            let mut j: u32 = 0;
            while j < block.cols
                invariant
                    i < block.rows,
                    j <= block.cols,
                    self.wf(),
                    block.wf(),
                    self.rows == old(self).rows,
                    self.cols == old(self).cols,
                    start_row + block.rows <= self.rows,
                    start_col + block.cols <= self.cols,
                    forall|r: int, c: int|
                        old(self)@.in_bounds(r, c) ==> #[trigger] self@.at(r, c) == if ((start_row
                            <= r < start_row + i && start_col <= c < start_col + block.cols) || (r
                            == start_row + i && start_col <= c < start_col + j)) && block@.at(
                            r - start_row,
                            c - start_col,
                        ) != 0 {
                            block@.at(r - start_row, c - start_col)
                        } else {
                            old(self)@.at(r, c)
                        },
                decreases block.cols - j,
            {
                let v = block.read(i, j);
                if v != 0 {
                    self.write(i + start_row, j + start_col, v);
                }
                j = j + 1;
            }
            i = i + 1;
        }
    }

    /// Row `row` as a 1 x cols matrix.
    pub fn get_row(&self, row: u32) -> (r: Matrix)
        requires
            self.wf(),
            row < self.rows,
        ensures
            r.wf(),
            r.rows == 1,
            r.cols == self.cols,
            forall|j: int| 0 <= j < self.cols ==> #[trigger] r@.at(0, j) == self@.at(row as int, j),
    {
        let len = self.data.len();
        proof {
            assert(self.cols <= self.rows * self.cols) by (nonlinear_arith)
                requires
                    row < self.rows,
            ;
        }
        let mut output = Matrix::zeros(1, self.cols);
        let mut j: u32 = 0;
        while j < self.cols
            invariant
                j <= self.cols,
                self.wf(),
                row < self.rows,
                output.wf(),
                output.rows == 1,
                output.cols == self.cols,
                forall|k: int| 0 <= k < j ==> #[trigger] output@.at(0, k) == self@.at(row as int, k),
            decreases self.cols - j,
        {
            let v = self.read(row, j);
            output.write(0, j, v);
            j = j + 1;
        }
        output
    }

    /// Column `col` as a rows x 1 matrix.
    pub fn get_col(&self, col: u32) -> (r: Matrix)
        requires
            self.wf(),
            col < self.cols,
        ensures
            r.wf(),
            r.rows == self.rows,
            r.cols == 1,
            forall|i: int| 0 <= i < self.rows ==> #[trigger] r@.at(i, 0) == self@.at(i, col as int),
    {
        let len = self.data.len();
        proof {
            assert(self.rows <= self.rows * self.cols) by (nonlinear_arith)
                requires
                    col < self.cols,
            ;
        }
        let mut output = Matrix::zeros(self.rows, 1);
        let mut i: u32 = 0;
        while i < self.rows
            invariant
                i <= self.rows,
                self.wf(),
                col < self.cols,
                output.wf(),
                output.rows == self.rows,
                output.cols == 1,
                forall|k: int| 0 <= k < i ==> #[trigger] output@.at(k, 0) == self@.at(k, col as int),
            decreases self.rows - i,
        {
            let v = self.read(i, col);
            output.write(i, 0, v);
            i = i + 1;
        }
        output
    }

    /// The transposed matrix.
    pub fn transpose(&self) -> (r: Matrix)
        requires
            self.wf(),
        ensures
            r.wf(),
            r.rows == self.cols,
            r.cols == self.rows,
            forall|i: int, j: int| r@.in_bounds(i, j) ==> #[trigger] r@.at(i, j) == self@.at(j, i),
    {
        let len = self.data.len();
        proof {
            assert(self.cols * self.rows == self.rows * self.cols) by (nonlinear_arith);
        }
        let mut output = Matrix::zeros(self.cols, self.rows);
        let mut i: u32 = 0;
        while i < self.rows
            invariant
                i <= self.rows,
                self.wf(),
                output.wf(),
                output.rows == self.cols,
                output.cols == self.rows,
                forall|a: int, b: int|
                    0 <= a < self.cols && 0 <= b < i ==> #[trigger] output@.at(a, b) == self@.at(b, a),
            decreases self.rows - i,
        {
            let mut j: u32 = 0;
            while j < self.cols
                invariant
                    i < self.rows,
                    j <= self.cols,
                    self.wf(),
                    output.wf(),
                    output.rows == self.cols,
                    output.cols == self.rows,
                    forall|a: int, b: int|
                        (0 <= a < self.cols && 0 <= b < i) || (0 <= a < j && b == i)
                            ==> #[trigger] output@.at(a, b) == self@.at(b, a),
                decreases self.cols - j,
            {
                let v = self.read(i, j);
                output.write(j, i, v);
                j = j + 1;
            }
            i = i + 1;
        }
        output
    }

    /// Cell-by-cell sum, wrapping on overflow.
    pub fn add(a: &Matrix, b: &Matrix) -> (r: Matrix)
        requires
            a.wf(),
            b.wf(),
            a.rows == b.rows,
            a.cols == b.cols,
        ensures
            r.wf(),
            r.rows == a.rows,
            r.cols == a.cols,
            forall|i: int, j: int|
                r@.in_bounds(i, j) ==> #[trigger] r@.at(i, j) == wrap(a@.at(i, j) + b@.at(i, j)),
    {
        let len = a.data.len();
        let mut output = Matrix::zeros(a.rows, a.cols);
        let mut i: u32 = 0;
        while i < a.rows
            invariant
                i <= a.rows,
                a.wf(),
                b.wf(),
                a.rows == b.rows,
                a.cols == b.cols,
                output.wf(),
                output.rows == a.rows,
                output.cols == a.cols,
                forall|x: int, y: int|
                    0 <= x < i && 0 <= y < a.cols ==> #[trigger] output@.at(x, y) == wrap(
                        a@.at(x, y) + b@.at(x, y),
                    ),
            decreases a.rows - i,
        {
            let mut j: u32 = 0;
            while j < a.cols
                invariant
                    i < a.rows,
                    j <= a.cols,
                    a.wf(),
                    b.wf(),
                    a.rows == b.rows,
                    a.cols == b.cols,
                    output.wf(),
                    output.rows == a.rows,
                    output.cols == a.cols,
                    forall|x: int, y: int|
                        (0 <= x < i && 0 <= y < a.cols) || (x == i && 0 <= y < j)
                            ==> #[trigger] output@.at(x, y) == wrap(a@.at(x, y) + b@.at(x, y)),
                decreases a.cols - j,
            {
                let v = a.read(i, j).wrapping_add(b.read(i, j));
                output.write(i, j, v);
                j = j + 1;
            }
            i = i + 1;
        }
        output
    }

    /// Cell-by-cell difference, wrapping on underflow.
    pub fn sub(a: &Matrix, b: &Matrix) -> (r: Matrix)
        requires
            a.wf(),
            b.wf(),
            a.rows == b.rows,
            a.cols == b.cols,
        ensures
            r.wf(),
            r.rows == a.rows,
            r.cols == a.cols,
            forall|i: int, j: int|
                r@.in_bounds(i, j) ==> #[trigger] r@.at(i, j) == wrap(a@.at(i, j) - b@.at(i, j)),
    {
        let len = a.data.len();
        let mut output = Matrix::zeros(a.rows, a.cols);
        let mut i: u32 = 0;
        while i < a.rows
            invariant
                i <= a.rows,
                a.wf(),
                b.wf(),
                a.rows == b.rows,
                a.cols == b.cols,
                output.wf(),
                output.rows == a.rows,
                output.cols == a.cols,
                forall|x: int, y: int|
                    0 <= x < i && 0 <= y < a.cols ==> #[trigger] output@.at(x, y) == wrap(
                        a@.at(x, y) - b@.at(x, y),
                    ),
            decreases a.rows - i,
        {
            let mut j: u32 = 0;
            while j < a.cols
                invariant
                    i < a.rows,
                    j <= a.cols,
                    a.wf(),
                    b.wf(),
                    a.rows == b.rows,
                    a.cols == b.cols,
                    output.wf(),
                    output.rows == a.rows,
                    output.cols == a.cols,
                    forall|x: int, y: int|
                        (0 <= x < i && 0 <= y < a.cols) || (x == i && 0 <= y < j)
                            ==> #[trigger] output@.at(x, y) == wrap(a@.at(x, y) - b@.at(x, y)),
                decreases a.cols - j,
            {
                let v = a.read(i, j).wrapping_sub(b.read(i, j));
                output.write(i, j, v);
                j = j + 1;
            }
            i = i + 1;
        }
        output
    }

    /// Cell-by-cell product, wrapping on overflow.
    pub fn mul(a: &Matrix, b: &Matrix) -> (r: Matrix)
        requires
            a.wf(),
            b.wf(),
            a.rows == b.rows,
            a.cols == b.cols,
        ensures
            r.wf(),
            r.rows == a.rows,
            r.cols == a.cols,
            forall|i: int, j: int|
                r@.in_bounds(i, j) ==> #[trigger] r@.at(i, j) == wrap(a@.at(i, j) * b@.at(i, j)),
    {
        let len = a.data.len();
        let mut output = Matrix::zeros(a.rows, a.cols);
        let mut i: u32 = 0;
        while i < a.rows
            invariant
                i <= a.rows,
                a.wf(),
                b.wf(),
                a.rows == b.rows,
                a.cols == b.cols,
                output.wf(),
                output.rows == a.rows,
                output.cols == a.cols,
                forall|x: int, y: int|
                    0 <= x < i && 0 <= y < a.cols ==> #[trigger] output@.at(x, y) == wrap(
                        a@.at(x, y) * b@.at(x, y),
                    ),
            decreases a.rows - i,
        {
            let mut j: u32 = 0;
            while j < a.cols
                invariant
                    i < a.rows,
                    j <= a.cols,
                    a.wf(),
                    b.wf(),
                    a.rows == b.rows,
                    a.cols == b.cols,
                    output.wf(),
                    output.rows == a.rows,
                    output.cols == a.cols,
                    forall|x: int, y: int|
                        (0 <= x < i && 0 <= y < a.cols) || (x == i && 0 <= y < j)
                            ==> #[trigger] output@.at(x, y) == wrap(a@.at(x, y) * b@.at(x, y)),
                decreases a.cols - j,
            {
                let v = a.read(i, j).wrapping_mul(b.read(i, j));
                output.write(i, j, v);
                j = j + 1;
            }
            i = i + 1;
        }
        output
    }

    /// Dot product of two row vectors of equal length, wrapping on overflow.
    pub fn vector_dot(a: Matrix, b: Matrix) -> (r: u32)
        requires
            a.wf(),
            b.wf(),
            a.rows == 1,
            b.rows == 1,
            a.cols == b.cols,
        ensures
            r == wrap(sum_products(a@.row_of(0), b@.row_of(0), a.cols as nat)),
    {
        let mut sum: u32 = 0;
        let mut k: u32 = 0;
        while k < a.cols
            invariant
                k <= a.cols,
                a.wf(),
                b.wf(),
                a.rows == 1,
                b.rows == 1,
                a.cols == b.cols,
                sum == wrap(sum_products(a@.row_of(0), b@.row_of(0), k as nat)),
            decreases a.cols - k,
        {
            let x = a.read(0, k);
            let y = b.read(0, k);
            proof {
                let s = sum_products(a@.row_of(0), b@.row_of(0), k as nat);
                let p = x as int * y as int;
                assert(sum_products(a@.row_of(0), b@.row_of(0), (k + 1) as nat) == s + p);
                vstd::arithmetic::div_mod::lemma_add_mod_noop(s, p, 0x1_0000_0000);
                vstd::arithmetic::div_mod::lemma_mod_bound(s, 0x1_0000_0000);
                vstd::arithmetic::div_mod::lemma_mod_bound(p, 0x1_0000_0000);
                vstd::arithmetic::div_mod::lemma_mod_bound(s + p, 0x1_0000_0000);
            }
            sum = sum.wrapping_add(x.wrapping_mul(y));
            k = k + 1;
        }
        sum
    }

    /// Matrix product, each entry wrapping on overflow.
    pub fn dot(&self, other: &Matrix) -> (r: Matrix)
        requires
            self.wf(),
            other.wf(),
            self.cols == other.rows,
            self.rows * other.cols <= usize::MAX,
        ensures
            r.wf(),
            r.rows == self.rows,
            r.cols == other.cols,
            forall|i: int, j: int|
                r@.in_bounds(i, j) ==> #[trigger] r@.at(i, j) == wrap(
                    sum_products(self@.row_of(i), other@.col_of(j), self.cols as nat),
                ),
    {
        let mut output = Matrix::zeros(self.rows, other.cols);
        let mut i: u32 = 0;
        while i < self.rows
            invariant
                i <= self.rows,
                self.wf(),
                other.wf(),
                self.cols == other.rows,
                output.wf(),
                output.rows == self.rows,
                output.cols == other.cols,
                forall|x: int, y: int|
                    0 <= x < i && 0 <= y < other.cols ==> #[trigger] output@.at(x, y) == wrap(
                        sum_products(self@.row_of(x), other@.col_of(y), self.cols as nat),
                    ),
            decreases self.rows - i,
        {
            let mut j: u32 = 0;
            while j < other.cols
                invariant
                    i < self.rows,
                    j <= other.cols,
                    self.wf(),
                    other.wf(),
                    self.cols == other.rows,
                    output.wf(),
                    output.rows == self.rows,
                    output.cols == other.cols,
                    forall|x: int, y: int|
                        (0 <= x < i && 0 <= y < other.cols) || (x == i && 0 <= y < j)
                            ==> #[trigger] output@.at(x, y) == wrap(
                            sum_products(self@.row_of(x), other@.col_of(y), self.cols as nat),
                        ),
                decreases other.cols - j,
            {
                let row = self.get_row(i);
                let col = other.get_col(j);
                let col_t = col.transpose();
                assert(row@.row_of(0) =~= self@.row_of(i as int));
                assert(col_t@.row_of(0) =~= other@.col_of(j as int));
                let v = Matrix::vector_dot(row, col_t);
                output.write(i, j, v);
                j = j + 1;
            }
            i = i + 1;
        }
        output
    }

    pub fn flatten(&self) -> (r: Vec<u32>)
        ensures
            r@ == self.data@,
    {
        self.data.clone()
    }
}

} // verus!
