//! Doolittle LU decomposition.
//!
//! A square matrix `A` is factored into a unit-lower-triangular `L`
//! and an upper-triangular `U` with `A == L * U` under exact
//! arithmetic.  The factor entries obey the Doolittle recurrences
//!
//! ```text
//! U[i][k] = A[i][k] - sum of L[i][j] * U[j][k] for j < i      (k >= i)
//! L[k][i] = (A[k][i] - sum of L[k][j] * U[j][i] for j < i) / U[i][i]
//!                                                             (k > i)
//! ```
//!
//! written below as the spec functions `u_val` and `l_val`.  No row
//! pivoting is performed: a zero pivot `U[i][i]` is reported as
//! `SingularMatrix` even when reordering the rows would avoid it.
//! Entry division truncates toward zero, as `i64` division does; where
//! every division is exact the product `L * U` restores `A` exactly,
//! which `lemma_lu_reconstructs` proves.

use vstd::prelude::*;

use crate::matrix::fits_i64;
use crate::matrix::prod_entry;
use crate::matrix::dot_prefix;
use crate::matrix::Matrix;
use crate::matrix::MatrixError;

verus! {

/// Integer division truncated toward zero, the semantics of `/` on
/// `i64` (spec-level `/` rounds toward negative infinity instead).
pub open spec fn trunc_div(x: int, d: int) -> int {
    if x == 0 {
        0
    } else if x > 0 && d > 0 {
        x / d
    } else if x < 0 && d < 0 {
        (-x) / (-d)
    } else if x < 0 {
        -((-x) / d)
    } else {
        -(x / (-d))
    }
}

/// The sum of `L[r][t] * U[t][c]` over `t < j`, with the factor
/// entries taken from the Doolittle recurrences on `a`.
pub open spec fn lu_sum(a: Matrix, r: int, c: int, j: int) -> int
    decreases j, 0int,
{
    if j <= 0 {
        0
    } else {
        lu_sum(a, r, c, j - 1) + l_val(a, r, j - 1) * u_val(a, j - 1, c)
    }
}

/// Entry `(i, k)` of the upper factor of `a`, for `k >= i`:
/// `A[i][k]` minus the sum of `L[i][j] * U[j][k]` over `j < i`.
pub open spec fn u_val(a: Matrix, i: int, k: int) -> int
    decreases i, 1int,
{
    if i < 0 {
        0
    } else {
        a.entry(i, k) - lu_sum(a, i, k, i)
    }
}

/// Entry `(k, i)` of the lower factor of `a`, for `k > i`:
/// `A[k][i]` minus the sum of `L[k][j] * U[j][i]` over `j < i`, divided
/// by the pivot `U[i][i]` with truncation, as `i64` division divides.
pub open spec fn l_val(a: Matrix, k: int, i: int) -> int
    decreases i, 2int,
{
    if i < 0 {
        0
    } else {
        trunc_div(a.entry(k, i) - lu_sum(a, k, i, i), u_val(a, i, i))
    }
}

/// The first `m` pivots of `a` are nonzero.
pub open spec fn pivots_nonzero_upto(a: Matrix, m: int) -> bool {
    forall|t: int| 0 <= t < m ==> #[trigger] u_val(a, t, t) != 0
}

/// Every pivot of the square matrix `a` is nonzero, so Doolittle
/// elimination runs to completion.
pub open spec fn lu_nonsingular(a: Matrix) -> bool {
    pivots_nonzero_upto(a, a.nrows())
}

/// The machine limits under which the factors of `a` can be computed
/// with `i64` arithmetic: every factor entry, every elementwise
/// product and every partial sum that the elimination forms is
/// representable.  Values that the elimination never reaches — those
/// behind a zero pivot — are unconstrained.
pub open spec fn lu_fits(a: Matrix) -> bool {
    let n = a.nrows();
    &&& forall|i: int, k: int, j: int|
        0 <= i <= k < n && 0 <= j <= i && pivots_nonzero_upto(a, i) ==> fits_i64(
            #[trigger] lu_sum(a, i, k, j),
        )
    &&& forall|i: int, k: int, j: int|
        #![trigger l_val(a, i, j), u_val(a, j, k)]
        0 <= i <= k < n && 0 <= j < i && pivots_nonzero_upto(a, i) ==> fits_i64(
            l_val(a, i, j) * u_val(a, j, k),
        )
    &&& forall|i: int, k: int|
        0 <= i <= k < n && pivots_nonzero_upto(a, i) ==> fits_i64(#[trigger] u_val(a, i, k))
    &&& forall|k: int, i: int, j: int|
        0 <= i < k < n && 0 <= j <= i && pivots_nonzero_upto(a, i + 1) ==> fits_i64(
            #[trigger] lu_sum(a, k, i, j),
        )
    &&& forall|k: int, i: int, j: int|
        #![trigger l_val(a, k, j), u_val(a, j, i)]
        0 <= i < k < n && 0 <= j < i && pivots_nonzero_upto(a, i + 1) ==> fits_i64(
            l_val(a, k, j) * u_val(a, j, i),
        )
    &&& forall|k: int, i: int|
        0 <= i < k < n && pivots_nonzero_upto(a, i + 1) ==> fits_i64(
            a.entry(k, i) - lu_sum(a, k, i, i),
        ) && fits_i64(#[trigger] l_val(a, k, i))
}

/// `l` and `u` hold exactly the Doolittle factors of `a`: `u` carries
/// `u_val` on and above the diagonal and zero below it, `l` carries
/// one on the diagonal, `l_val` below it and zero above it.
pub open spec fn is_lu_factorization(a: Matrix, l: Matrix, u: Matrix) -> bool {
    let n = a.nrows();
    &&& l.wf()
    &&& u.wf()
    &&& l.nrows() == n
    &&& l.ncols() == n
    &&& u.nrows() == n
    &&& u.ncols() == n
    &&& forall|i: int, k: int|
        u.in_bounds(i, k) ==> u.entry(i, k) == (if i <= k {
            u_val(a, i, k)
        } else {
            0int
        })
    &&& forall|k: int, i: int|
        l.in_bounds(k, i) ==> l.entry(k, i) == (if i < k {
            l_val(a, k, i)
        } else if i == k {
            1int
        } else {
            0int
        })
}

/// Each division the elimination performs on `a` is exact: the pivot
/// divides the value above it, so no truncation takes place.
pub open spec fn lu_divisions_exact(a: Matrix) -> bool {
    forall|k: int, i: int|
        0 <= i < k < a.nrows() ==> (a.entry(k, i) - #[trigger] lu_sum(a, k, i, i)) % u_val(
            a,
            i,
            i,
        ) == 0
}

/// The first `m` terms of the dot product of row `r` of `l` with
/// column `c` of `u` agree with the recurrence sum `lu_sum`, as long
/// as those terms lie strictly below the diagonal of `l` and not
/// below the diagonal of `u`.
proof fn lemma_dot_matches_lu_sum(a: Matrix, l: Matrix, u: Matrix, r: int, c: int, m: int)
    requires
        a.nrows() == a.ncols(),
        is_lu_factorization(a, l, u),
        0 <= r < a.nrows(),
        0 <= c < a.nrows(),
        0 <= m,
        m <= r,
        m <= c + 1,
    ensures
        dot_prefix(l, u, r, c, m) == lu_sum(a, r, c, m),
    decreases m,
{
    if m > 0 {
        lemma_dot_matches_lu_sum(a, l, u, r, c, m - 1);
        assert(l.entry(r, m - 1) == l_val(a, r, m - 1));
        assert(u.entry(m - 1, c) == u_val(a, m - 1, c));
    }
}

/// Dropping terms whose factors multiply to zero does not change a
/// dot product prefix.
proof fn lemma_dot_prefix_zero_tail(l: Matrix, u: Matrix, r: int, c: int, s: int, m: int)
    requires
        0 <= s <= m,
        forall|t: int|
            #![trigger l.entry(r, t), u.entry(t, c)]
            s <= t < m ==> l.entry(r, t) == 0 || u.entry(t, c) == 0,
    ensures
        dot_prefix(l, u, r, c, m) == dot_prefix(l, u, r, c, s),
    decreases m,
{
    if m > s {
        lemma_dot_prefix_zero_tail(l, u, r, c, s, m - 1);
        assert(l.entry(r, m - 1) == 0 || u.entry(m - 1, c) == 0);
        assert(l.entry(r, m - 1) * u.entry(m - 1, c) == 0);
    }
}

/// The factorization law: the product of the Doolittle factors
/// restores the decomposed matrix.  For a square `a` whose pivots are
/// all nonzero and whose eliminations divide exactly — so truncation
/// never loses anything — every entry of `l * u` equals the matching
/// entry of `a`.
pub proof fn lemma_lu_reconstructs(a: Matrix, l: Matrix, u: Matrix)
    requires
        a.wf(),
        a.nrows() == a.ncols(),
        lu_nonsingular(a),
        lu_divisions_exact(a),
        is_lu_factorization(a, l, u),
    ensures
        forall|i: int, j: int|
            a.in_bounds(i, j) ==> prod_entry(l, u, i, j) == a.entry(i, j),
{
    let n = a.nrows();
    assert forall|i: int, j: int| a.in_bounds(i, j) implies prod_entry(l, u, i, j)
        == a.entry(i, j) by {
        assert(l.ncols() == n);
        if i <= j {
            // Terms past the diagonal of L vanish.
            assert forall|t: int|
                #![trigger l.entry(i, t), u.entry(t, j)]
                i + 1 <= t < n implies l.entry(i, t) == 0 || u.entry(t, j) == 0 by {
                assert(l.entry(i, t) == 0);
            }
            lemma_dot_prefix_zero_tail(l, u, i, j, i + 1, n);
            assert(dot_prefix(l, u, i, j, i + 1) == dot_prefix(l, u, i, j, i) + l.entry(i, i)
                * u.entry(i, j));
            assert(l.entry(i, i) == 1);
            assert(u.entry(i, j) == u_val(a, i, j));
            lemma_dot_matches_lu_sum(a, l, u, i, j, i);
            assert(u_val(a, i, j) == a.entry(i, j) - lu_sum(a, i, j, i));
        } else {
            // Terms past the diagonal of U vanish.
            assert forall|t: int|
                #![trigger l.entry(i, t), u.entry(t, j)]
                j + 1 <= t < n implies l.entry(i, t) == 0 || u.entry(t, j) == 0 by {
                assert(u.entry(t, j) == 0);
            }
            lemma_dot_prefix_zero_tail(l, u, i, j, j + 1, n);
            assert(dot_prefix(l, u, i, j, j + 1) == dot_prefix(l, u, i, j, j) + l.entry(i, j)
                * u.entry(j, j));
            assert(l.entry(i, j) == l_val(a, i, j));
            assert(u.entry(j, j) == u_val(a, j, j));
            lemma_dot_matches_lu_sum(a, l, u, i, j, j);
            let x = a.entry(i, j) - lu_sum(a, i, j, j);
            let d = u_val(a, j, j);
            assert(x % d == 0);
            assert(d != 0);
            lemma_trunc_div_exact(x, d);
            assert(l_val(a, i, j) == trunc_div(x, d));
        }
    }
}

/// Truncating division undoes an exact multiple: when `d` divides `x`,
/// `trunc_div(x, d) * d == x`.
proof fn lemma_trunc_div_exact(x: int, d: int)
    requires
        d != 0,
        x % d == 0,
    ensures
        trunc_div(x, d) * d == x,
{
    vstd::arithmetic::div_mod::lemma_fundamental_div_mod(x, d);
    let q = x / d;
    assert(x == d * q);
    if x == 0 {
        assert(trunc_div(x, d) == 0);
    } else if x > 0 && d > 0 {
        assert(trunc_div(x, d) * d == x) by (nonlinear_arith)
            requires trunc_div(x, d) == q && x == d * q,
        {
        }
    } else if x < 0 && d < 0 {
        assert((-x) == (-d) * q) by (nonlinear_arith)
            requires x == d * q,
        {
        }
        vstd::arithmetic::div_mod::lemma_div_multiples_vanish(q, -d);
        assert(trunc_div(x, d) * d == x) by (nonlinear_arith)
            requires trunc_div(x, d) == q && x == d * q,
        {
        }
    } else if x < 0 {
        // x < 0 < d: the Euclidean quotient q is negative, -x == d * (-q)
        assert((-x) == d * (-q)) by (nonlinear_arith)
            requires x == d * q,
        {
        }
        vstd::arithmetic::div_mod::lemma_div_multiples_vanish(-q, d);
        assert(trunc_div(x, d) == -(-q));
        assert(trunc_div(x, d) * d == x) by (nonlinear_arith)
            requires trunc_div(x, d) == q && x == d * q,
        {
        }
    } else {
        // x > 0 > d
        assert(x == (-d) * (-q)) by (nonlinear_arith)
            requires x == d * q,
        {
        }
        vstd::arithmetic::div_mod::lemma_div_multiples_vanish(-q, -d);
        assert(trunc_div(x, d) == -(-q));
        assert(trunc_div(x, d) * d == x) by (nonlinear_arith)
            requires trunc_div(x, d) == q && x == d * q,
        {
        }
    }
}

/// `i64::checked_div` computes `trunc_div`: when the divisor is
/// nonzero and the truncated quotient is representable, the checked
/// division returns exactly it.
proof fn lemma_checked_div_is_trunc_div(x: i64, d: i64)
    requires
        d != 0,
        fits_i64(trunc_div(x as int, d as int)),
    ensures
        x.checked_div(d) == Some(trunc_div(x as int, d as int) as i64),
{
    let xi = x as int;
    let di = d as int;
    assert(xi * -1 == -xi && di * -1 == -di);
    if xi == 0 {
    } else if xi > 0 && di > 0 {
    } else if xi < 0 && di < 0 {
        assert((xi * -1) / (di * -1) == (-xi) / (-di));
    } else if xi < 0 {
        assert(((xi * -1) / di) * -1 == -((-xi) / di));
    } else {
        assert((xi / (di * -1)) * -1 == -(xi / (-di)));
    }
}

impl Matrix {
    /// Doolittle LU decomposition.  Factors the square matrix into a
    /// unit-lower-triangular `L` and an upper-triangular `U` whose
    /// entries obey the Doolittle recurrences (`l_val`, `u_val`), so
    /// that `L * U` restores the matrix wherever the divisions are
    /// exact.  A non-square matrix is `NotSquare`; a zero pivot, met
    /// in elimination order, is `SingularMatrix`.  No row pivoting is
    /// performed.  The input is never mutated; both factors are
    /// freshly allocated.
    #[allow(non_snake_case)]
    pub fn LU_decompose(&self) -> (r: Result<(Matrix, Matrix), MatrixError>)
        requires
            self.wf(),
            self.nrows() == self.ncols() ==> lu_fits(*self),
        ensures
            match r {
                Ok(lu) => {
                    &&& self.nrows() == self.ncols()
                    &&& lu_nonsingular(*self)
                    &&& is_lu_factorization(*self, lu.0, lu.1)
                },
                Err(e) => {
                    if self.nrows() != self.ncols() {
                        e == MatrixError::NotSquare
                    } else {
                        e == MatrixError::SingularMatrix && !lu_nonsingular(*self)
                    }
                },
            },
    {
        if self.rows() != self.cols() {
            return Err(MatrixError::NotSquare);
        }
        let n = self.rows();
        proof {
            crate::matrix::lemma_wf_size(*self);
        }
        let mut l = Matrix::fill(n, n, 0);
        let mut u = Matrix::fill(n, n, 0);
        let mut i: usize = 0;
        while i < n
            invariant
                self.wf(),
                self.nrows() == n,
                self.ncols() == n,
                lu_fits(*self),
                l.wf(),
                u.wf(),
                l.nrows() == n,
                l.ncols() == n,
                u.nrows() == n,
                u.ncols() == n,
                i <= n,
                pivots_nonzero_upto(*self, i as int),
                forall|t: int, c: int|
                    0 <= t < i && t <= c < n ==> u.entry(t, c) == u_val(*self, t, c),
                forall|t: int, c: int|
                    u.in_bounds(t, c) && (t >= i || c < t) ==> u.entry(t, c) == 0,
                forall|t: int| 0 <= t < i ==> l.entry(t, t) == 1,
                forall|t: int, c: int|
                    0 <= c < i && c < t < n ==> l.entry(t, c) == l_val(*self, t, c),
                forall|t: int, c: int|
                    l.in_bounds(t, c) && !(c < i && c < t) && !(t == c && t < i)
                        ==> l.entry(t, c) == 0,
            decreases n - i,
        {
            // Upper row i: U[i][k] = A[i][k] - sum of L[i][j] * U[j][k].
            let mut k: usize = i;
            while k < n
                invariant
                    self.wf(),
                    self.nrows() == n,
                    self.ncols() == n,
                    lu_fits(*self),
                    l.wf(),
                    u.wf(),
                    l.nrows() == n,
                    l.ncols() == n,
                    u.nrows() == n,
                    u.ncols() == n,
                    i < n,
                    i <= k <= n,
                    pivots_nonzero_upto(*self, i as int),
                    forall|t: int, c: int|
                        0 <= t < i && t <= c < n ==> u.entry(t, c) == u_val(*self, t, c),
                    forall|c: int|
                        i <= c < k ==> u.entry(i as int, c) == u_val(*self, i as int, c),
                    forall|t: int, c: int|
                        u.in_bounds(t, c) && (t > i || c < t || (t == i && c >= k))
                            ==> u.entry(t, c) == 0,
                    forall|t: int| 0 <= t < i ==> l.entry(t, t) == 1,
                    forall|t: int, c: int|
                        0 <= c < i && c < t < n ==> l.entry(t, c) == l_val(*self, t, c),
                    forall|t: int, c: int|
                        l.in_bounds(t, c) && !(c < i && c < t) && !(t == c && t < i)
                            ==> l.entry(t, c) == 0,
                decreases n - k,
            {
                let mut sum: i64 = 0;
                let mut j: usize = 0;
                while j < i
                    invariant
                        self.wf(),
                        self.nrows() == n,
                        self.ncols() == n,
                        lu_fits(*self),
                        l.wf(),
                        u.wf(),
                        l.nrows() == n,
                        l.ncols() == n,
                        u.nrows() == n,
                        u.ncols() == n,
                        i < n,
                        i <= k < n,
                        j <= i,
                        pivots_nonzero_upto(*self, i as int),
                        forall|t: int, c: int|
                            0 <= t < i && t <= c < n ==> u.entry(t, c) == u_val(*self, t, c),
                        forall|t: int, c: int|
                            0 <= c < i && c < t < n ==> l.entry(t, c) == l_val(*self, t, c),
                        sum as int == lu_sum(*self, i as int, k as int, j as int),
                    decreases i - j,
                {
                    proof {
                        assert(fits_i64(l_val(*self, i as int, j as int) * u_val(
                            *self,
                            j as int,
                            k as int,
                        )));
                        assert(fits_i64(lu_sum(*self, i as int, k as int, j as int + 1)));
                        assert(l.entry(i as int, j as int) == l_val(*self, i as int, j as int));
                        assert(u.entry(j as int, k as int) == u_val(*self, j as int, k as int));
                    }
                    sum = sum + l.at(i, j) * u.at(j, k);
                    j = j + 1;
                }
                proof {
                    assert(fits_i64(u_val(*self, i as int, k as int)));
                }
                let v = self.at(i, k) - sum;
                u.put(i, k, v);
                k = k + 1;
            }
            // The pivot is now in place; elimination stops at a zero one.
            let piv = u.at(i, i);
            if piv == 0 {
                proof {
                    assert(u_val(*self, i as int, i as int) == 0);
                    assert(!lu_nonsingular(*self));
                }
                return Err(MatrixError::SingularMatrix);
            }
            proof {
                assert forall|t: int| 0 <= t < i as int + 1 implies #[trigger] u_val(
                    *self,
                    t,
                    t,
                ) != 0 by {
                    if t < i {
                        assert(u_val(*self, t, t) != 0);
                    }
                }
            }
            l.put(i, i, 1);
            // Lower column i: L[k][i] = (A[k][i] - sum) / U[i][i].
            let mut k: usize = i + 1;
            while k < n
                invariant
                    self.wf(),
                    self.nrows() == n,
                    self.ncols() == n,
                    lu_fits(*self),
                    l.wf(),
                    u.wf(),
                    l.nrows() == n,
                    l.ncols() == n,
                    u.nrows() == n,
                    u.ncols() == n,
                    i < n,
                    i + 1 <= k <= n,
                    pivots_nonzero_upto(*self, i as int + 1),
                    piv as int == u_val(*self, i as int, i as int),
                    piv != 0,
                    forall|t: int, c: int|
                        0 <= t <= i && t <= c < n ==> u.entry(t, c) == u_val(*self, t, c),
                    forall|t: int, c: int|
                        u.in_bounds(t, c) && (t > i || c < t) ==> u.entry(t, c) == 0,
                    forall|t: int| 0 <= t <= i ==> l.entry(t, t) == 1,
                    forall|t: int, c: int|
                        0 <= c < i && c < t < n ==> l.entry(t, c) == l_val(*self, t, c),
                    forall|t: int|
                        i < t < k ==> l.entry(t, i as int) == l_val(*self, t, i as int),
                    forall|t: int, c: int|
                        l.in_bounds(t, c) && !(c < i && c < t) && !(t == c && t <= i) && !(c
                            == i && i < t < k) ==> l.entry(t, c) == 0,
                decreases n - k,
            {
                let mut sum: i64 = 0;
                let mut j: usize = 0;
                while j < i
                    invariant
                        self.wf(),
                        self.nrows() == n,
                        self.ncols() == n,
                        lu_fits(*self),
                        l.wf(),
                        u.wf(),
                        l.nrows() == n,
                        l.ncols() == n,
                        u.nrows() == n,
                        u.ncols() == n,
                        i < k < n,
                        j <= i,
                        pivots_nonzero_upto(*self, i as int + 1),
                        forall|t: int, c: int|
                            0 <= t <= i && t <= c < n ==> u.entry(t, c) == u_val(*self, t, c),
                        forall|t: int, c: int|
                            0 <= c < i && c < t < n ==> l.entry(t, c) == l_val(*self, t, c),
                        sum as int == lu_sum(*self, k as int, i as int, j as int),
                    decreases i - j,
                {
                    proof {
                        assert(fits_i64(l_val(*self, k as int, j as int) * u_val(
                            *self,
                            j as int,
                            i as int,
                        )));
                        assert(fits_i64(lu_sum(*self, k as int, i as int, j as int + 1)));
                        assert(l.entry(k as int, j as int) == l_val(*self, k as int, j as int));
                        assert(u.entry(j as int, i as int) == u_val(*self, j as int, i as int));
                    }
                    sum = sum + l.at(k, j) * u.at(j, i);
                    j = j + 1;
                }
                proof {
                    assert(fits_i64(l_val(*self, k as int, i as int)));
                    assert(fits_i64(self.entry(k as int, i as int) - lu_sum(
                        *self,
                        k as int,
                        i as int,
                        i as int,
                    )));
                }
                let num = self.at(k, i) - sum;
                proof {
                    lemma_checked_div_is_trunc_div(num, piv);
                }
                let v = num.checked_div(piv).unwrap();
                l.put(k, i, v);
                k = k + 1;
            }
            i = i + 1;
        }
        Ok((l, u))
    }
}

} // verus!
