//! Random matrix fills: uniform and Bernoulli.
//!
//! The randomness itself comes from the `rand` crate through one
//! trusted wrapper; everything built on top of it — range checks,
//! the Bernoulli draw, the fill loops — is verified.

use vstd::prelude::*;

use crate::matrix::Matrix;
use crate::matrix::MatrixError;

verus! {

/// Relies on `rand::random_range`: a draw from the half-open range
/// `low..high` is a value in `[low, high)`.  `random_range` panics on
/// an empty range, so the bounds must be strictly ordered.
#[verifier::external_body]
fn sample_uniform(low: i64, high: i64) -> (r: i64)
    requires
        low < high,
    ensures
        low <= r < high,
{
    rand::random_range(low..high)
}

impl Matrix {
    /// A `rows x cols` matrix whose entries are drawn independently
    /// and uniformly from `[low, high)`, or `InvalidRange` when the
    /// upper bound is not strictly greater than the lower bound.
    pub fn random_uniform(rows: usize, cols: usize, low: i64, high: i64) -> (r: Result<
        Matrix,
        MatrixError,
    >)
        requires
            rows * cols <= usize::MAX,
        ensures
            match r {
                Ok(m) => {
                    &&& low < high
                    &&& m.wf()
                    &&& m.nrows() == rows
                    &&& m.ncols() == cols
                    &&& forall|i: int, j: int|
                        m.in_bounds(i, j) ==> low <= m.entry(i, j) < high
                },
                Err(e) => e == MatrixError::InvalidRange && high <= low,
            },
    {
        if high <= low {
            return Err(MatrixError::InvalidRange);
        }
        let mut m = Matrix::fill(rows, cols, low);
        let mut i: usize = 0;
        while i < rows
            invariant
                low < high,
                m.wf(),
                m.nrows() == rows,
                m.ncols() == cols,
                i <= rows,
                forall|a: int, b: int| m.in_bounds(a, b) ==> low <= m.entry(a, b) < high,
            decreases rows - i,
        {
            let mut j: usize = 0;
            while j < cols
                invariant
                    low < high,
                    m.wf(),
                    m.nrows() == rows,
                    m.ncols() == cols,
                    i < rows,
                    j <= cols,
                    forall|a: int, b: int| m.in_bounds(a, b) ==> low <= m.entry(a, b) < high,
                decreases cols - j,
            {
                let v = sample_uniform(low, high);
                let ghost prev = m;
                m.put(i, j, v);
                proof {
                    assert forall|a: int, b: int| m.in_bounds(a, b) implies low <= m.entry(
                        a,
                        b,
                    ) < high by {
                        if a != i || b != j {
                            assert(prev.in_bounds(a, b));
                            assert(m.entry(a, b) == prev.entry(a, b));
                        }
                    }
                }
                j = j + 1;
            }
            i = i + 1;
        }
        Ok(m)
    }

    /// A `rows x cols` matrix whose entries are drawn independently
    /// from a Bernoulli distribution with success probability
    /// `numer / denom`: each entry is one with that probability and
    /// zero otherwise.  A probability outside `[0, 1]` — a negative
    /// numerator, a nonpositive denominator, or a numerator above the
    /// denominator — is `InvalidProbability`.
    pub fn random_bernoulli(rows: usize, cols: usize, numer: i64, denom: i64) -> (r: Result<
        Matrix,
        MatrixError,
    >)
        requires
            rows * cols <= usize::MAX,
        ensures
            match r {
                Ok(m) => {
                    &&& 0 <= numer <= denom
                    &&& denom > 0
                    &&& m.wf()
                    &&& m.nrows() == rows
                    &&& m.ncols() == cols
                    &&& forall|i: int, j: int|
                        m.in_bounds(i, j) ==> m.entry(i, j) == 0 || m.entry(i, j) == 1
                    &&& numer == 0 ==> forall|i: int, j: int|
                        m.in_bounds(i, j) ==> m.entry(i, j) == 0
                    &&& numer == denom ==> forall|i: int, j: int|
                        m.in_bounds(i, j) ==> m.entry(i, j) == 1
                },
                Err(e) => e == MatrixError::InvalidProbability && !(0 <= numer <= denom
                    && denom > 0),
            },
    {
        if denom <= 0 || numer < 0 || numer > denom {
            return Err(MatrixError::InvalidProbability);
        }
        let mut m = Matrix::fill(rows, cols, 0);
        let mut i: usize = 0;
        while i < rows
            invariant
                0 <= numer <= denom,
                denom > 0,
                m.wf(),
                m.nrows() == rows,
                m.ncols() == cols,
                i <= rows,
                forall|a: int, b: int|
                    m.in_bounds(a, b) ==> m.entry(a, b) == 0 || m.entry(a, b) == 1,
                numer == 0 ==> forall|a: int, b: int| m.in_bounds(a, b) ==> m.entry(a, b) == 0,
                numer == denom ==> forall|a: int, b: int|
                    m.in_bounds(a, b) && a < i ==> m.entry(a, b) == 1,
            decreases rows - i,
        {
            let mut j: usize = 0;
            while j < cols
                invariant
                    0 <= numer <= denom,
                    denom > 0,
                    m.wf(),
                    m.nrows() == rows,
                    m.ncols() == cols,
                    i < rows,
                    j <= cols,
                    forall|a: int, b: int|
                        m.in_bounds(a, b) ==> m.entry(a, b) == 0 || m.entry(a, b) == 1,
                    numer == 0 ==> forall|a: int, b: int|
                        m.in_bounds(a, b) ==> m.entry(a, b) == 0,
                    numer == denom ==> forall|a: int, b: int|
                        m.in_bounds(a, b) && (a < i || (a == i && b < j)) ==> m.entry(a, b)
                            == 1,
                decreases cols - j,
            {
                let draw = sample_uniform(0, denom);
                let v: i64 = if draw < numer {
                    1
                } else {
                    0
                };
                let ghost prev = m;
                m.put(i, j, v);
                proof {
                    assert forall|a: int, b: int| m.in_bounds(a, b) implies m.entry(a, b) == 0
                        || m.entry(a, b) == 1 by {
                        if a != i || b != j {
                            assert(prev.in_bounds(a, b));
                            assert(m.entry(a, b) == prev.entry(a, b));
                        }
                    }
                    if numer == 0 {
                        assert forall|a: int, b: int| m.in_bounds(a, b) implies m.entry(a, b)
                            == 0 by {
                            if a != i || b != j {
                                assert(m.entry(a, b) == prev.entry(a, b));
                            }
                        }
                    }
                    if numer == denom {
                        assert forall|a: int, b: int|
                            m.in_bounds(a, b) && (a < i || (a == i && b < j + 1)) implies m.entry(
                            a,
                            b,
                        ) == 1 by {
                            if a != i || b != j {
                                assert(m.entry(a, b) == prev.entry(a, b));
                            }
                        }
                    }
                }
                j = j + 1;
            }
            i = i + 1;
        }
        Ok(m)
    }
}

} // verus!
