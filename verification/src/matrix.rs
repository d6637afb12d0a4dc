//! The dense matrix type: construction, indexing, elementwise
//! arithmetic, multiplication and transposition.

use vstd::prelude::*;

verus! {

/// The failure conditions of the library.  Every operation detects its
/// precondition violations up front and reports one of these instead of
/// producing a clamped or truncated result.
#[derive(Clone, Copy, Debug, PartialEq, Eq, Structural)]
pub enum MatrixError {
    /// Operand shapes are incompatible (elementwise ops, multiplication,
    /// or a buffer whose length does not match the requested shape).
    DimensionMismatch,
    /// A row or column index lies outside the matrix extent.
    IndexOutOfBounds,
    /// The upper bound of a uniform sample range is not strictly greater
    /// than the lower bound.
    InvalidRange,
    /// A probability outside [0, 1] was given for a Bernoulli fill.
    InvalidProbability,
    /// LU decomposition was requested on a non-square matrix.
    NotSquare,
    /// LU decomposition ran into a zero pivot.
    SingularMatrix,
}

/// A dense `rows x cols` matrix of `i64` entries in a flat row-major
/// buffer: entry `(i, j)` sits at index `i * cols + j`.
#[derive(Debug)]
pub struct Matrix {
    pub(crate) rows: usize,
    pub(crate) cols: usize,
    pub(crate) data: Vec<i64>,
}

/// Whether a mathematical integer is representable as an `i64`.
pub open spec fn fits_i64(x: int) -> bool {
    i64::MIN <= x <= i64::MAX
}

/// The partial dot product of row `r` of `a` with column `c` of `b`:
/// the sum of `a[r][t] * b[t][c]` over `t < k`, accumulated in
/// increasing `t` order.
pub open spec fn dot_prefix(a: Matrix, b: Matrix, r: int, c: int, k: int) -> int
    decreases k,
{
    if k <= 0 {
        0
    } else {
        dot_prefix(a, b, r, c, k - 1) + a.entry(r, k - 1) * b.entry(k - 1, c)
    }
}

/// Entry `(r, c)` of the matrix product `a * b`: the full dot product
/// of row `r` of `a` with column `c` of `b`.
pub open spec fn prod_entry(a: Matrix, b: Matrix, r: int, c: int) -> int {
    dot_prefix(a, b, r, c, a.ncols())
}

/// The machine limits under which the product `a * b` can be computed
/// with `i64` arithmetic: every elementwise product and every partial
/// sum of each dot product is representable.
pub open spec fn product_fits(a: Matrix, b: Matrix) -> bool {
    forall|r: int, c: int, k: int|
        0 <= r < a.nrows() && 0 <= c < b.ncols() && 0 <= k <= a.ncols() ==> {
            &&& fits_i64(#[trigger] dot_prefix(a, b, r, c, k))
            &&& (k < a.ncols() ==> fits_i64(a.entry(r, k) * b.entry(k, c)))
        }
}

impl Matrix {
    /// Shape invariant: the buffer holds exactly one value per cell.
    pub closed spec fn wf(self) -> bool {
        self.data.len() == self.rows * self.cols
    }

    /// Number of rows, as a mathematical integer.
    pub closed spec fn nrows(self) -> int {
        self.rows as int
    }

    /// Number of columns, as a mathematical integer.
    pub closed spec fn ncols(self) -> int {
        self.cols as int
    }

    /// The value at row `i`, column `j`, as a mathematical integer.
    pub closed spec fn entry(self, i: int, j: int) -> int {
        self.data[i * self.cols as int + j] as int
    }

    /// The backing buffer in row-major order.
    pub closed spec fn data_seq(self) -> Seq<i64> {
        self.data@
    }

    /// Whether `(i, j)` addresses a cell of the matrix.
    pub open spec fn in_bounds(self, i: int, j: int) -> bool {
        0 <= i < self.nrows() && 0 <= j < self.ncols()
    }

    /// Whether two matrices have the same shape.
    pub open spec fn same_shape(self, other: Matrix) -> bool {
        self.nrows() == other.nrows() && self.ncols() == other.ncols()
    }

    /// Number of rows.
    pub fn rows(&self) -> (r: usize)
        ensures
            r as int == self.nrows(),
    {
        self.rows
    }

    /// Number of columns.
    pub fn cols(&self) -> (r: usize)
        ensures
            r as int == self.ncols(),
    {
        self.cols
    }

    /// A `rows x cols` matrix with every entry zero.  The shape must be
    /// representable: the cell count may not exceed the address space.
    pub fn new(rows: usize, cols: usize) -> (m: Matrix)
        requires
            rows * cols <= usize::MAX,
        ensures
            m.wf(),
            m.nrows() == rows,
            m.ncols() == cols,
            forall|i: int, j: int| m.in_bounds(i, j) ==> m.entry(i, j) == 0,
    {
        let n = rows * cols;
        let data = filled(n, 0);
        let m = Matrix { rows, cols, data };
        proof {
            lemma_flat_index_bounds(m);
        }
        m
    }

    /// Wraps a flat row-major buffer as a `rows x cols` matrix.  The
    /// buffer must hold exactly one value per cell; any other length is
    /// a `DimensionMismatch`.
    pub fn from_vec(rows: usize, cols: usize, data: Vec<i64>) -> (r: Result<
        Matrix,
        MatrixError,
    >)
        ensures
            match r {
                Ok(m) => {
                    &&& data@.len() == rows * cols
                    &&& m.wf()
                    &&& m.nrows() == rows
                    &&& m.ncols() == cols
                    &&& m.data_seq() == data@
                    &&& forall|i: int, j: int|
                        m.in_bounds(i, j) ==> m.entry(i, j) == data@[i * cols + j]
                },
                Err(e) => {
                    &&& e == MatrixError::DimensionMismatch
                    &&& data@.len() != rows * cols
                },
            },
    {
        if cols != 0 && rows > usize::MAX / cols {
            // rows * cols overflows usize, so no buffer length can match.
            proof {
                vstd::std_specs::vec::axiom_spec_len(&data);
                lemma_shape_overflow(rows as int, cols as int, data@.len() as int);
            }
            return Err(MatrixError::DimensionMismatch);
        }
        proof {
            if cols != 0 {
                lemma_shape_fits(rows as int, cols as int);
            }
        }
        if data.len() != rows * cols {
            return Err(MatrixError::DimensionMismatch);
        }
        let m = Matrix { rows, cols, data };
        proof {
            lemma_flat_index_bounds(m);
        }
        Ok(m)
    }

    /// The value at row `i`, column `j`, or `IndexOutOfBounds` when the
    /// cell does not exist.
    pub fn get(&self, i: usize, j: usize) -> (r: Result<i64, MatrixError>)
        requires
            self.wf(),
        ensures
            match r {
                Ok(v) => self.in_bounds(i as int, j as int) && v as int == self.entry(
                    i as int,
                    j as int,
                ),
                Err(e) => e == MatrixError::IndexOutOfBounds && !self.in_bounds(
                    i as int,
                    j as int,
                ),
            },
    {
        if i >= self.rows || j >= self.cols {
            return Err(MatrixError::IndexOutOfBounds);
        }
        Ok(self.at(i, j))
    }

    /// Unchecked read of cell `(i, j)`; the caller shows it exists.
    pub(crate) fn at(&self, i: usize, j: usize) -> (v: i64)
        requires
            self.wf(),
            self.in_bounds(i as int, j as int),
        ensures
            v as int == self.entry(i as int, j as int),
    {
        proof {
            lemma_flat_index_bounds(*self);
            lemma_row_major_index(self.nrows(), self.ncols(), i as int, j as int);
        }
        self.data[i * self.cols + j]
    }

    /// Unchecked write to cell `(i, j)`; the caller shows it exists.
    pub(crate) fn put(&mut self, i: usize, j: usize, v: i64)
        requires
            old(self).wf(),
            old(self).in_bounds(i as int, j as int),
        ensures
            final(self).wf(),
            final(self).nrows() == old(self).nrows(),
            final(self).ncols() == old(self).ncols(),
            final(self).entry(i as int, j as int) == v,
            forall|a: int, b: int|
                final(self).in_bounds(a, b) && (a != i || b != j) ==> final(self).entry(a, b)
                    == old(self).entry(a, b),
            final(self).data_seq() == old(self).data_seq().update(
                i * old(self).ncols() + j,
                v,
            ),
    {
        proof {
            lemma_flat_index_bounds(*self);
            lemma_row_major_index(self.nrows(), self.ncols(), i as int, j as int);
        }
        let idx = i * self.cols + j;
        self.data[idx] = v;
        proof {
            assert forall|a: int, b: int|
                self.in_bounds(a, b) && (a != i || b != j) implies self.entry(a, b) == old(
                self,
            ).entry(a, b) by {
                lemma_row_major_index(self.nrows(), self.ncols(), a, b);
                lemma_distinct_cells_distinct_indices(self.ncols(), a, b, i as int, j as int);
            }
        }
    }

    /// Overwrites the value at row `i`, column `j`, or reports
    /// `IndexOutOfBounds`, leaving the matrix unchanged, when the cell
    /// does not exist.
    pub fn set(&mut self, i: usize, j: usize, v: i64) -> (r: Result<(), MatrixError>)
        requires
            old(self).wf(),
        ensures
            final(self).wf(),
            final(self).nrows() == old(self).nrows(),
            final(self).ncols() == old(self).ncols(),
            match r {
                Ok(()) => {
                    &&& old(self).in_bounds(i as int, j as int)
                    &&& final(self).entry(i as int, j as int) == v
                    &&& forall|a: int, b: int|
                        final(self).in_bounds(a, b) && (a != i || b != j)
                            ==> final(self).entry(a, b) == old(self).entry(a, b)
                    &&& final(self).data_seq() == old(self).data_seq().update(
                        i * old(self).ncols() + j,
                        v,
                    )
                },
                Err(e) => {
                    &&& e == MatrixError::IndexOutOfBounds
                    &&& !old(self).in_bounds(i as int, j as int)
                    &&& final(self).data_seq() == old(self).data_seq()
                },
            },
    {
        if i >= self.rows || j >= self.cols {
            return Err(MatrixError::IndexOutOfBounds);
        }
        self.put(i, j, v);
        Ok(())
    }

    /// A `rows x cols` matrix with every entry zero.
    pub fn zeros(rows: usize, cols: usize) -> (m: Matrix)
        requires
            rows * cols <= usize::MAX,
        ensures
            m.wf(),
            m.nrows() == rows,
            m.ncols() == cols,
            forall|i: int, j: int| m.in_bounds(i, j) ==> m.entry(i, j) == 0,
    {
        Matrix::fill(rows, cols, 0)
    }

    /// A `rows x cols` matrix with every entry one.
    pub fn ones(rows: usize, cols: usize) -> (m: Matrix)
        requires
            rows * cols <= usize::MAX,
        ensures
            m.wf(),
            m.nrows() == rows,
            m.ncols() == cols,
            forall|i: int, j: int| m.in_bounds(i, j) ==> m.entry(i, j) == 1,
    {
        Matrix::fill(rows, cols, 1)
    }

    /// A `rows x cols` matrix with every entry equal to `v`.
    pub fn fill(rows: usize, cols: usize, v: i64) -> (m: Matrix)
        requires
            rows * cols <= usize::MAX,
        ensures
            m.wf(),
            m.nrows() == rows,
            m.ncols() == cols,
            forall|i: int, j: int| m.in_bounds(i, j) ==> m.entry(i, j) == v,
    {
        let n = rows * cols;
        let data = filled(n, v);
        let m = Matrix { rows, cols, data };
        proof {
            lemma_flat_index_bounds(m);
        }
        m
    }

    /// The `size x size` identity matrix: one on the diagonal, zero
    /// elsewhere.  `size == 0` yields a valid empty matrix.
    pub fn identity(size: usize) -> (m: Matrix)
        requires
            size * size <= usize::MAX,
        ensures
            m.wf(),
            m.nrows() == size,
            m.ncols() == size,
            forall|i: int, j: int|
                m.in_bounds(i, j) ==> m.entry(i, j) == (if i == j { 1int } else { 0int }),
    {
        let mut m = Matrix::fill(size, size, 0);
        let mut i: usize = 0;
        while i < size
            invariant
                m.wf(),
                m.nrows() == size,
                m.ncols() == size,
                i <= size,
                forall|a: int, b: int|
                    m.in_bounds(a, b) ==> m.entry(a, b) == (
                    if a == b && a < i { 1int } else { 0int }),
            decreases size - i,
        {
            m.put(i, i, 1);
            i = i + 1;
        }
        m
    }

    /// A fresh `cols x rows` matrix holding this matrix mirrored about
    /// its main diagonal: entry `(j, i)` of the result is entry `(i, j)`
    /// of the input.
    pub fn transpose(&self) -> (t: Matrix)
        requires
            self.wf(),
        ensures
            t.wf(),
            t.nrows() == self.ncols(),
            t.ncols() == self.nrows(),
            forall|i: int, j: int|
                self.in_bounds(i, j) ==> t.entry(j, i) == self.entry(i, j),
    {
        let mut t = Matrix::fill(self.cols, self.rows, 0);
        let mut i: usize = 0;
        while i < self.rows
            invariant
                self.wf(),
                t.wf(),
                t.nrows() == self.ncols(),
                t.ncols() == self.nrows(),
                i <= self.nrows(),
                forall|a: int, b: int|
                    self.in_bounds(a, b) && a < i ==> t.entry(b, a) == self.entry(a, b),
            decreases self.nrows() - i,
        {
            let mut j: usize = 0;
            while j < self.cols
                invariant
                    self.wf(),
                    t.wf(),
                    t.nrows() == self.ncols(),
                    t.ncols() == self.nrows(),
                    i < self.nrows(),
                    j <= self.ncols(),
                    forall|a: int, b: int|
                        self.in_bounds(a, b) && a < i ==> t.entry(b, a) == self.entry(a, b),
                    forall|b: int|
                        0 <= b < j ==> t.entry(b, i as int) == self.entry(i as int, b),
                decreases self.ncols() - j,
            {
                let v = self.at(i, j);
                t.put(j, i, v);
                j = j + 1;
            }
            i = i + 1;
        }
        t
    }

    /// A borrowed view of row `row` as a slice, without copying, or
    /// `IndexOutOfBounds` when the row does not exist.
    pub fn view_row(&self, row: usize) -> (r: Result<&[i64], MatrixError>)
        requires
            self.wf(),
        ensures
            match r {
                Ok(s) => {
                    &&& 0 <= row < self.nrows()
                    &&& s@.len() == self.ncols()
                    &&& forall|j: int|
                        0 <= j < self.ncols() ==> s@[j] as int == self.entry(row as int, j)
                },
                Err(e) => e == MatrixError::IndexOutOfBounds && row >= self.nrows(),
            },
    {
        if row >= self.rows {
            return Err(MatrixError::IndexOutOfBounds);
        }
        proof {
            lemma_row_end_in_range(self.nrows(), self.ncols(), row as int);
        }
        let start = row * self.cols;
        let end = start + self.cols;
        let s = vstd::slice::slice_subrange(self.data.as_slice(), start, end);
        Ok(s)
    }

    /// A fresh `1 x cols` matrix copying row `row`, or
    /// `IndexOutOfBounds` when the row does not exist.
    pub fn get_row(&self, row: usize) -> (r: Result<Matrix, MatrixError>)
        requires
            self.wf(),
        ensures
            match r {
                Ok(m) => {
                    &&& 0 <= row < self.nrows()
                    &&& m.wf()
                    &&& m.nrows() == 1
                    &&& m.ncols() == self.ncols()
                    &&& forall|j: int|
                        0 <= j < self.ncols() ==> m.entry(0, j) == self.entry(row as int, j)
                },
                Err(e) => e == MatrixError::IndexOutOfBounds && row >= self.nrows(),
            },
    {
        if row >= self.rows {
            return Err(MatrixError::IndexOutOfBounds);
        }
        let mut m = Matrix::fill(1, self.cols, 0);
        let mut j: usize = 0;
        while j < self.cols
            invariant
                self.wf(),
                m.wf(),
                m.nrows() == 1,
                m.ncols() == self.ncols(),
                row < self.nrows(),
                j <= self.ncols(),
                forall|b: int| 0 <= b < j ==> m.entry(0, b) == self.entry(row as int, b),
            decreases self.ncols() - j,
        {
            let v = self.at(row, j);
            m.put(0, j, v);
            j = j + 1;
        }
        Ok(m)
    }

    /// A fresh `rows x 1` matrix copying column `col`, or
    /// `IndexOutOfBounds` when the column does not exist.
    pub fn get_col(&self, col: usize) -> (r: Result<Matrix, MatrixError>)
        requires
            self.wf(),
        ensures
            match r {
                Ok(m) => {
                    &&& 0 <= col < self.ncols()
                    &&& m.wf()
                    &&& m.nrows() == self.nrows()
                    &&& m.ncols() == 1
                    &&& forall|i: int|
                        0 <= i < self.nrows() ==> m.entry(i, 0) == self.entry(i, col as int)
                },
                Err(e) => e == MatrixError::IndexOutOfBounds && col >= self.ncols(),
            },
    {
        if col >= self.cols {
            return Err(MatrixError::IndexOutOfBounds);
        }
        let mut m = Matrix::fill(self.rows, 1, 0);
        let mut i: usize = 0;
        while i < self.rows
            invariant
                self.wf(),
                m.wf(),
                m.nrows() == self.nrows(),
                m.ncols() == 1,
                col < self.ncols(),
                i <= self.nrows(),
                forall|a: int| 0 <= a < i ==> m.entry(a, 0) == self.entry(a, col as int),
            decreases self.nrows() - i,
        {
            let v = self.at(i, col);
            m.put(i, 0, v);
            i = i + 1;
        }
        Ok(m)
    }

    /// The elementwise sum of two matrices of the same shape, or
    /// `DimensionMismatch` when the shapes differ.  Each sum must fit
    /// in an `i64`.
    pub fn add(&self, other: &Matrix) -> (r: Result<Matrix, MatrixError>)
        requires
            self.wf(),
            other.wf(),
            self.same_shape(*other) ==> forall|i: int, j: int|
                self.in_bounds(i, j) ==> fits_i64(self.entry(i, j) + other.entry(i, j)),
        ensures
            match r {
                Ok(m) => {
                    &&& self.same_shape(*other)
                    &&& m.wf()
                    &&& m.nrows() == self.nrows()
                    &&& m.ncols() == self.ncols()
                    &&& forall|i: int, j: int|
                        m.in_bounds(i, j) ==> m.entry(i, j) == self.entry(i, j) + other.entry(
                            i,
                            j,
                        )
                },
                Err(e) => e == MatrixError::DimensionMismatch && !self.same_shape(*other),
            },
    {
        if self.rows != other.rows || self.cols != other.cols {
            return Err(MatrixError::DimensionMismatch);
        }
        let mut m = Matrix::fill(self.rows, self.cols, 0);
        let mut i: usize = 0;
        while i < self.rows
            invariant
                self.wf(),
                other.wf(),
                self.same_shape(*other),
                forall|a: int, b: int|
                    self.in_bounds(a, b) ==> fits_i64(self.entry(a, b) + other.entry(a, b)),
                m.wf(),
                m.nrows() == self.nrows(),
                m.ncols() == self.ncols(),
                i <= self.nrows(),
                forall|a: int, b: int|
                    self.in_bounds(a, b) && a < i ==> m.entry(a, b) == self.entry(a, b)
                        + other.entry(a, b),
            decreases self.nrows() - i,
        {
            let mut j: usize = 0;
            while j < self.cols
                invariant
                    self.wf(),
                    other.wf(),
                    self.same_shape(*other),
                    forall|a: int, b: int|
                        self.in_bounds(a, b) ==> fits_i64(
                            self.entry(a, b) + other.entry(a, b),
                        ),
                    m.wf(),
                    m.nrows() == self.nrows(),
                    m.ncols() == self.ncols(),
                    i < self.nrows(),
                    j <= self.ncols(),
                    forall|a: int, b: int|
                        self.in_bounds(a, b) && a < i ==> m.entry(a, b) == self.entry(a, b)
                            + other.entry(a, b),
                    forall|b: int|
                        0 <= b < j ==> m.entry(i as int, b) == self.entry(i as int, b)
                            + other.entry(i as int, b),
                decreases self.ncols() - j,
            {
                proof {
                    assert(self.in_bounds(i as int, j as int));
                    assert(fits_i64(self.entry(i as int, j as int) + other.entry(i as int, j as int)));
                }
                let v = self.at(i, j) + other.at(i, j);
                m.put(i, j, v);
                j = j + 1;
            }
            i = i + 1;
        }
        Ok(m)
    }

    /// The elementwise difference of two matrices of the same shape, or
    /// `DimensionMismatch` when the shapes differ.  Each difference
    /// must fit in an `i64`.
    pub fn sub(&self, other: &Matrix) -> (r: Result<Matrix, MatrixError>)
        requires
            self.wf(),
            other.wf(),
            self.same_shape(*other) ==> forall|i: int, j: int|
                self.in_bounds(i, j) ==> fits_i64(self.entry(i, j) - other.entry(i, j)),
        ensures
            match r {
                Ok(m) => {
                    &&& self.same_shape(*other)
                    &&& m.wf()
                    &&& m.nrows() == self.nrows()
                    &&& m.ncols() == self.ncols()
                    &&& forall|i: int, j: int|
                        m.in_bounds(i, j) ==> m.entry(i, j) == self.entry(i, j) - other.entry(
                            i,
                            j,
                        )
                },
                Err(e) => e == MatrixError::DimensionMismatch && !self.same_shape(*other),
            },
    {
        if self.rows != other.rows || self.cols != other.cols {
            return Err(MatrixError::DimensionMismatch);
        }
        let mut m = Matrix::fill(self.rows, self.cols, 0);
        let mut i: usize = 0;
        while i < self.rows
            invariant
                self.wf(),
                other.wf(),
                self.same_shape(*other),
                forall|a: int, b: int|
                    self.in_bounds(a, b) ==> fits_i64(self.entry(a, b) - other.entry(a, b)),
                m.wf(),
                m.nrows() == self.nrows(),
                m.ncols() == self.ncols(),
                i <= self.nrows(),
                forall|a: int, b: int|
                    self.in_bounds(a, b) && a < i ==> m.entry(a, b) == self.entry(a, b)
                        - other.entry(a, b),
            decreases self.nrows() - i,
        {
            let mut j: usize = 0;
            while j < self.cols
                invariant
                    self.wf(),
                    other.wf(),
                    self.same_shape(*other),
                    forall|a: int, b: int|
                        self.in_bounds(a, b) ==> fits_i64(
                            self.entry(a, b) - other.entry(a, b),
                        ),
                    m.wf(),
                    m.nrows() == self.nrows(),
                    m.ncols() == self.ncols(),
                    i < self.nrows(),
                    j <= self.ncols(),
                    forall|a: int, b: int|
                        self.in_bounds(a, b) && a < i ==> m.entry(a, b) == self.entry(a, b)
                            - other.entry(a, b),
                    forall|b: int|
                        0 <= b < j ==> m.entry(i as int, b) == self.entry(i as int, b)
                            - other.entry(i as int, b),
                decreases self.ncols() - j,
            {
                proof {
                    assert(self.in_bounds(i as int, j as int));
                    assert(fits_i64(self.entry(i as int, j as int) - other.entry(i as int, j as int)));
                }
                let v = self.at(i, j) - other.at(i, j);
                m.put(i, j, v);
                j = j + 1;
            }
            i = i + 1;
        }
        Ok(m)
    }

    /// The matrix product `self * other`, or `DimensionMismatch` when
    /// the inner dimensions disagree.  Entry `(i, j)` of the result is
    /// the dot product of row `i` of `self` with column `j` of `other`,
    /// accumulated in a single running sum in increasing index order.
    /// Every partial sum must fit in an `i64`.
    pub fn multiply(&self, other: &Matrix) -> (r: Result<Matrix, MatrixError>)
        requires
            self.wf(),
            other.wf(),
            self.ncols() == other.nrows() ==> {
                &&& self.nrows() * other.ncols() <= usize::MAX
                &&& product_fits(*self, *other)
            },
        ensures
            match r {
                Ok(m) => {
                    &&& self.ncols() == other.nrows()
                    &&& m.wf()
                    &&& m.nrows() == self.nrows()
                    &&& m.ncols() == other.ncols()
                    &&& forall|i: int, j: int|
                        m.in_bounds(i, j) ==> m.entry(i, j) == prod_entry(*self, *other, i, j)
                },
                Err(e) => e == MatrixError::DimensionMismatch && self.ncols() != other.nrows(),
            },
    {
        if self.cols != other.rows {
            return Err(MatrixError::DimensionMismatch);
        }
        let mut m = Matrix::fill(self.rows, other.cols, 0);
        let mut i: usize = 0;
        while i < self.rows
            invariant
                self.wf(),
                other.wf(),
                self.ncols() == other.nrows(),
                product_fits(*self, *other),
                m.wf(),
                m.nrows() == self.nrows(),
                m.ncols() == other.ncols(),
                i <= self.nrows(),
                forall|a: int, b: int|
                    m.in_bounds(a, b) && a < i ==> m.entry(a, b) == prod_entry(
                        *self,
                        *other,
                        a,
                        b,
                    ),
            decreases self.nrows() - i,
        {
            let mut j: usize = 0;
            while j < other.cols
                invariant
                    self.wf(),
                    other.wf(),
                    self.ncols() == other.nrows(),
                    product_fits(*self, *other),
                    m.wf(),
                    m.nrows() == self.nrows(),
                    m.ncols() == other.ncols(),
                    i < self.nrows(),
                    j <= other.ncols(),
                    forall|a: int, b: int|
                        m.in_bounds(a, b) && a < i ==> m.entry(a, b) == prod_entry(
                            *self,
                            *other,
                            a,
                            b,
                        ),
                    forall|b: int|
                        0 <= b < j ==> m.entry(i as int, b) == prod_entry(
                            *self,
                            *other,
                            i as int,
                            b,
                        ),
                decreases other.ncols() - j,
            {
                let mut sum: i64 = 0;
                let mut k: usize = 0;
                while k < self.cols
                    invariant
                        self.wf(),
                        other.wf(),
                        self.ncols() == other.nrows(),
                        product_fits(*self, *other),
                        i < self.nrows(),
                        j < other.ncols(),
                        k <= self.ncols(),
                        sum as int == dot_prefix(*self, *other, i as int, j as int, k as int),
                    decreases self.ncols() - k,
                {
                    proof {
                        assert(fits_i64(self.entry(i as int, k as int) * other.entry(
                            k as int,
                            j as int,
                        )));
                        assert(fits_i64(dot_prefix(
                            *self,
                            *other,
                            i as int,
                            j as int,
                            k as int + 1,
                        )));
                    }
                    sum = sum + self.at(i, k) * other.at(k, j);
                    k = k + 1;
                }
                m.put(i, j, sum);
                j = j + 1;
            }
            i = i + 1;
        }
        Ok(m)
    }
}

/// A vector of `n` copies of `v`.
fn filled(n: usize, v: i64) -> (r: Vec<i64>)
    ensures
        r@.len() == n,
        forall|k: int| 0 <= k < n ==> r@[k] == v,
{
    let mut r: Vec<i64> = Vec::new();
    let mut k: usize = 0;
    while k < n
        invariant
            k <= n,
            r@.len() == k,
            forall|t: int| 0 <= t < k ==> r@[t] == v,
        decreases n - k,
    {
        r.push(v);
        k = k + 1;
    }
    r
}

/// A well-formed matrix's cell count is its buffer length, which the
/// address space bounds.
pub proof fn lemma_wf_size(m: Matrix)
    requires
        m.wf(),
    ensures
        m.nrows() * m.ncols() <= usize::MAX,
        m.data_seq().len() == m.nrows() * m.ncols(),
{
    vstd::std_specs::vec::axiom_spec_len(&m.data);
}

/// Matrices of the same shape with equal entries have equal backing
/// buffers: the entries of a well-formed matrix determine its data.
pub proof fn lemma_entrywise_equal_data(x: Matrix, y: Matrix)
    requires
        x.wf(),
        y.wf(),
        x.same_shape(y),
        forall|i: int, j: int| x.in_bounds(i, j) ==> x.entry(i, j) == y.entry(i, j),
    ensures
        x.data_seq() == y.data_seq(),
{
    let r = x.nrows();
    let c = x.ncols();
    assert(x.data_seq().len() == y.data_seq().len());
    assert forall|f: int| 0 <= f < x.data_seq().len() implies x.data_seq()[f]
        == y.data_seq()[f] by {
        assert(c > 0) by {
            if c == 0 {
                assert(r * c == 0) by (nonlinear_arith)
                    requires c == 0,
                {
                }
            }
        }
        let i = f / c;
        let j = f % c;
        vstd::arithmetic::div_mod::lemma_fundamental_div_mod(f, c);
        vstd::arithmetic::div_mod::lemma_mod_division_less_than_divisor(f, c);
        vstd::arithmetic::div_mod::lemma_div_pos_is_pos(f, c);
        assert(i < r) by (nonlinear_arith)
            requires f < r * c && f == c * i + j && 0 <= j < c && c > 0,
        {
        }
        assert(x.in_bounds(i, j));
        assert(i * c + j == f) by (nonlinear_arith)
            requires f == c * i + j,
        {
        }
        assert(x.entry(i, j) == y.entry(i, j));
    }
    assert(x.data_seq() =~= y.data_seq());
}

/// Subtraction undoes addition.  When `s` holds the elementwise sums of
/// same-shape matrices `a` and `b`, and `d` holds the elementwise
/// differences `s - b`, then `d` is `a` again, entry for entry and
/// buffer for buffer.
pub proof fn lemma_add_sub_roundtrip(a: Matrix, b: Matrix, s: Matrix, d: Matrix)
    requires
        a.wf(),
        b.wf(),
        s.wf(),
        d.wf(),
        a.same_shape(b),
        s.same_shape(a),
        d.same_shape(s),
        forall|i: int, j: int|
            s.in_bounds(i, j) ==> s.entry(i, j) == a.entry(i, j) + b.entry(i, j),
        forall|i: int, j: int|
            d.in_bounds(i, j) ==> d.entry(i, j) == s.entry(i, j) - b.entry(i, j),
    ensures
        d.same_shape(a),
        forall|i: int, j: int| d.in_bounds(i, j) ==> d.entry(i, j) == a.entry(i, j),
        d.data_seq() == a.data_seq(),
{
    assert forall|i: int, j: int| d.in_bounds(i, j) implies d.entry(i, j) == a.entry(
        i,
        j,
    ) by {
        assert(s.in_bounds(i, j));
    }
    lemma_entrywise_equal_data(d, a);
}

/// Transposing is an involution.  When `t` is the transpose of `a` and
/// `tt` the transpose of `t`, then `tt` is `a` again, entry for entry
/// and buffer for buffer.
pub proof fn lemma_transpose_involution(a: Matrix, t: Matrix, tt: Matrix)
    requires
        a.wf(),
        t.wf(),
        tt.wf(),
        t.nrows() == a.ncols(),
        t.ncols() == a.nrows(),
        tt.nrows() == t.ncols(),
        tt.ncols() == t.nrows(),
        forall|i: int, j: int| a.in_bounds(i, j) ==> t.entry(j, i) == a.entry(i, j),
        forall|i: int, j: int| t.in_bounds(i, j) ==> tt.entry(j, i) == t.entry(i, j),
    ensures
        tt.same_shape(a),
        forall|i: int, j: int| tt.in_bounds(i, j) ==> tt.entry(i, j) == a.entry(i, j),
        tt.data_seq() == a.data_seq(),
{
    assert forall|i: int, j: int| tt.in_bounds(i, j) implies tt.entry(i, j) == a.entry(
        i,
        j,
    ) by {
        assert(a.in_bounds(i, j));
        assert(t.in_bounds(j, i));
    }
    lemma_entrywise_equal_data(tt, a);
}

/// Every cell address of a well-formed matrix maps to a flat index
/// inside the buffer.
proof fn lemma_flat_index_bounds(m: Matrix)
    requires
        m.wf(),
    ensures
        forall|i: int, j: int|
            m.in_bounds(i, j) ==> 0 <= i * m.ncols() + j < m.data_seq().len(),
{
    assert forall|i: int, j: int| m.in_bounds(i, j) implies 0 <= i * m.ncols() + j
        < m.data_seq().len() by {
        lemma_row_major_index(m.nrows(), m.ncols(), i, j);
    }
}

/// Row-major index arithmetic: inside an `r x c` grid, the flat index
/// `i * c + j` of cell `(i, j)` lies below `r * c`.
proof fn lemma_row_major_index(r: int, c: int, i: int, j: int)
    requires
        0 <= i < r,
        0 <= j < c,
    ensures
        0 <= i * c + j < r * c,
{
    assert(i * c + j < r * c) by (nonlinear_arith)
        requires 0 <= i < r && 0 <= j < c,
    {
    }
    assert(0 <= i * c) by (nonlinear_arith)
        requires 0 <= i && 0 <= c,
    {
    }
}

/// The cells of row `i` of an `r x c` grid occupy the flat indices
/// from `i * c` up to but not including `(i + 1) * c`, all within
/// `r * c`.
proof fn lemma_row_end_in_range(r: int, c: int, i: int)
    requires
        0 <= i < r,
        0 <= c,
    ensures
        0 <= i * c,
        i * c + c <= r * c,
{
    assert(0 <= i * c && i * c + c <= r * c) by (nonlinear_arith)
        requires 0 <= i < r && 0 <= c,
    {
    }
}

/// Distinct cells of a `_ x c` grid have distinct flat indices.
proof fn lemma_distinct_cells_distinct_indices(c: int, a: int, b: int, i: int, j: int)
    requires
        0 <= b < c,
        0 <= j < c,
        a != i || b != j,
    ensures
        a * c + b != i * c + j,
{
    if a == i {
        assert(a * c + b != i * c + j);
    } else {
        assert(a * c + b != i * c + j) by (nonlinear_arith)
            requires 0 <= b < c && 0 <= j < c && a != i,
        {
        }
    }
}

/// When `rows * cols` exceeds the address space, no buffer length can
/// equal it.
proof fn lemma_shape_overflow(rows: int, cols: int, len: int)
    requires
        cols > 0,
        rows > (usize::MAX as int) / cols,
        0 <= len <= usize::MAX,
    ensures
        len != rows * cols,
{
    let q = (usize::MAX as int) / cols;
    let r = (usize::MAX as int) % cols;
    vstd::arithmetic::div_mod::lemma_fundamental_div_mod(usize::MAX as int, cols);
    vstd::arithmetic::div_mod::lemma_mod_division_less_than_divisor(usize::MAX as int, cols);
    assert(rows * cols > usize::MAX as int) by (nonlinear_arith)
        requires rows >= q + 1 && cols > 0 && cols * q + r == usize::MAX as int && 0 <= r
            < cols,
    {
    }
}

/// A row count within `usize::MAX / cols` keeps the cell count within
/// the address space.
proof fn lemma_shape_fits(rows: int, cols: int)
    requires
        cols > 0,
        0 <= rows <= (usize::MAX as int) / cols,
    ensures
        rows * cols <= usize::MAX,
{
    let q = (usize::MAX as int) / cols;
    let r = (usize::MAX as int) % cols;
    vstd::arithmetic::div_mod::lemma_fundamental_div_mod(usize::MAX as int, cols);
    vstd::arithmetic::div_mod::lemma_mod_division_less_than_divisor(usize::MAX as int, cols);
    assert(rows * cols <= usize::MAX as int) by (nonlinear_arith)
        requires 0 <= rows <= q && cols > 0 && cols * q + r == usize::MAX as int && 0 <= r
            < cols,
    {
    }
}

} // verus!
