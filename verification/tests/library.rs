//! Scenario tests: exact expected values, error conditions, and
//! concrete instances of the library's proved laws.

use matrix_lib::Matrix;
use matrix_lib::MatrixError;

fn entries(m: &Matrix) -> Vec<i64> {
    let mut out = Vec::new();
    for i in 0..m.rows() {
        for j in 0..m.cols() {
            out.push(m.get(i, j).unwrap());
        }
    }
    out
}

#[test]
fn test_multiply_by_identity_keeps_values() {
    let a = Matrix::from_vec(2, 2, vec![1, 2, 3, 4]).unwrap();
    let id = Matrix::identity(2);
    let product = a.multiply(&id).unwrap();
    assert_eq!(product.rows(), 2);
    assert_eq!(product.cols(), 2);
    assert_eq!(entries(&product), vec![1, 2, 3, 4]);
}

#[test]
fn test_multiply_rectangular_exact_values() {
    let a = Matrix::from_vec(2, 3, vec![1, 2, 3, 4, 5, 6]).unwrap();
    let b = Matrix::from_vec(3, 2, vec![7, 8, 9, 10, 11, 12]).unwrap();
    let c = a.multiply(&b).unwrap();
    assert_eq!(c.rows(), 2);
    assert_eq!(c.cols(), 2);
    assert_eq!(entries(&c), vec![58, 64, 139, 154]);
}

#[test]
fn test_multiply_dimension_mismatch() {
    let a = Matrix::from_vec(2, 3, vec![1, 2, 3, 4, 5, 6]).unwrap();
    let b = Matrix::from_vec(2, 2, vec![1, 2, 3, 4]).unwrap();
    assert_eq!(a.multiply(&b).unwrap_err(), MatrixError::DimensionMismatch);
}

#[test]
fn test_from_vec_length_mismatch() {
    let r = Matrix::from_vec(2, 2, vec![1, 2, 3]);
    assert_eq!(r.unwrap_err(), MatrixError::DimensionMismatch);
}

#[test]
fn test_add_sub_shape_mismatch() {
    let a = Matrix::zeros(2, 3);
    let b = Matrix::zeros(3, 2);
    assert_eq!(a.add(&b).unwrap_err(), MatrixError::DimensionMismatch);
    assert_eq!(a.sub(&b).unwrap_err(), MatrixError::DimensionMismatch);
}

#[test]
fn test_get_set_one_past_end() {
    let mut m = Matrix::zeros(3, 4);
    assert_eq!(m.get(3, 0).unwrap_err(), MatrixError::IndexOutOfBounds);
    assert_eq!(m.get(0, 4).unwrap_err(), MatrixError::IndexOutOfBounds);
    assert_eq!(m.set(3, 0, 7).unwrap_err(), MatrixError::IndexOutOfBounds);
    assert_eq!(m.set(0, 4, 7).unwrap_err(), MatrixError::IndexOutOfBounds);
    // In-range access still works and the failed writes changed nothing.
    assert_eq!(m.get(2, 3).unwrap(), 0);
    m.set(2, 3, 7).unwrap();
    assert_eq!(m.get(2, 3).unwrap(), 7);
}

#[test]
fn test_add_then_sub_restores_values() {
    let a = Matrix::from_vec(2, 3, vec![5, -7, 0, 12, 3, -9]).unwrap();
    let b = Matrix::from_vec(2, 3, vec![1, 2, 3, -4, -5, -6]).unwrap();
    let s = a.add(&b).unwrap();
    let d = s.sub(&b).unwrap();
    assert_eq!(entries(&d), entries(&a));
}

#[test]
fn test_transpose_exact_values() {
    let a = Matrix::from_vec(2, 3, vec![1, 2, 3, 4, 5, 6]).unwrap();
    let t = a.transpose();
    assert_eq!(t.rows(), 3);
    assert_eq!(t.cols(), 2);
    assert_eq!(entries(&t), vec![1, 4, 2, 5, 3, 6]);
}

#[test]
fn test_transpose_twice_restores_values() {
    let a = Matrix::from_vec(3, 2, vec![9, -1, 4, 0, -8, 2]).unwrap();
    let tt = a.transpose().transpose();
    assert_eq!(tt.rows(), 3);
    assert_eq!(tt.cols(), 2);
    assert_eq!(entries(&tt), entries(&a));
}

#[test]
fn test_lu_exact_reconstruction() {
    let a = Matrix::from_vec(3, 3, vec![1, 2, 3, 4, 5, 6, 7, 8, 10]).unwrap();
    let (l, u) = a.LU_decompose().unwrap();
    assert_eq!(entries(&l), vec![1, 0, 0, 4, 1, 0, 7, 2, 1]);
    assert_eq!(entries(&u), vec![1, 2, 3, 0, -3, -6, 0, 0, 1]);
    let product = l.multiply(&u).unwrap();
    assert_eq!(entries(&product), entries(&a));
}

#[test]
fn test_lu_unit_lower_and_upper_shape() {
    let a = Matrix::from_vec(2, 2, vec![2, 3, 6, 13]).unwrap();
    let (l, u) = a.LU_decompose().unwrap();
    assert_eq!(entries(&l), vec![1, 0, 3, 1]);
    assert_eq!(entries(&u), vec![2, 3, 0, 4]);
    let product = l.multiply(&u).unwrap();
    assert_eq!(entries(&product), entries(&a));
}

#[test]
fn test_lu_zero_leading_pivot_is_singular() {
    let a = Matrix::from_vec(2, 2, vec![0, 1, 1, 0]).unwrap();
    assert_eq!(a.LU_decompose().unwrap_err(), MatrixError::SingularMatrix);
}

#[test]
fn test_lu_pivot_becomes_zero_is_singular() {
    // The second pivot vanishes during elimination: U[1][1] = 4 - 2*2.
    let a = Matrix::from_vec(2, 2, vec![1, 2, 2, 4]).unwrap();
    assert_eq!(a.LU_decompose().unwrap_err(), MatrixError::SingularMatrix);
}

#[test]
fn test_lu_not_square() {
    let a = Matrix::from_vec(2, 3, vec![1, 2, 3, 4, 5, 6]).unwrap();
    assert_eq!(a.LU_decompose().unwrap_err(), MatrixError::NotSquare);
}

#[test]
fn test_uniform_range_repeated_trials() {
    for _ in 0..1000 {
        let m = Matrix::random_uniform(5, 5, 1, 10).unwrap();
        for i in 0..5 {
            for j in 0..5 {
                let v = m.get(i, j).unwrap();
                assert!(v >= 1 && v < 10);
            }
        }
    }
}

#[test]
fn test_uniform_invalid_range() {
    assert_eq!(
        Matrix::random_uniform(2, 2, 5, 5).unwrap_err(),
        MatrixError::InvalidRange
    );
    assert_eq!(
        Matrix::random_uniform(2, 2, 7, 3).unwrap_err(),
        MatrixError::InvalidRange
    );
}

#[test]
fn test_uniform_draws_vary() {
    // A sampler that ignored its range and returned a constant would
    // make all of these equal.
    let m = Matrix::random_uniform(20, 20, 0, 1_000_000_000).unwrap();
    let vals = entries(&m);
    assert!(vals.iter().any(|v| *v != vals[0]));
}

#[test]
fn test_bernoulli_invalid_probability() {
    assert_eq!(
        Matrix::random_bernoulli(2, 2, 3, 2).unwrap_err(),
        MatrixError::InvalidProbability
    );
    assert_eq!(
        Matrix::random_bernoulli(2, 2, -1, 2).unwrap_err(),
        MatrixError::InvalidProbability
    );
    assert_eq!(
        Matrix::random_bernoulli(2, 2, 1, 0).unwrap_err(),
        MatrixError::InvalidProbability
    );
}

#[test]
fn test_bernoulli_degenerate_probabilities() {
    let all_ones = Matrix::random_bernoulli(4, 4, 1, 1).unwrap();
    assert!(entries(&all_ones).iter().all(|v| *v == 1));
    let all_zeros = Matrix::random_bernoulli(4, 4, 0, 5).unwrap();
    assert!(entries(&all_zeros).iter().all(|v| *v == 0));
}

#[test]
fn test_bernoulli_mixes_both_values() {
    // With 1000 fair draws, seeing only one side would mean the
    // underlying sampler is not drawing from its range.
    let m = Matrix::random_bernoulli(40, 25, 1, 2).unwrap();
    let vals = entries(&m);
    assert!(vals.iter().any(|v| *v == 0));
    assert!(vals.iter().any(|v| *v == 1));
}

#[test]
fn test_row_and_col_access() {
    let a = Matrix::from_vec(2, 3, vec![1, 2, 3, 4, 5, 6]).unwrap();
    assert_eq!(a.view_row(1).unwrap(), &[4, 5, 6]);
    assert_eq!(a.view_row(2).unwrap_err(), MatrixError::IndexOutOfBounds);

    let row = a.get_row(1).unwrap();
    assert_eq!(row.rows(), 1);
    assert_eq!(row.cols(), 3);
    assert_eq!(entries(&row), vec![4, 5, 6]);
    assert_eq!(a.get_row(2).unwrap_err(), MatrixError::IndexOutOfBounds);

    let col = a.get_col(1).unwrap();
    assert_eq!(col.rows(), 2);
    assert_eq!(col.cols(), 1);
    assert_eq!(entries(&col), vec![2, 5]);
    assert_eq!(a.get_col(3).unwrap_err(), MatrixError::IndexOutOfBounds);
}

#[test]
fn test_empty_matrices() {
    let z = Matrix::new(0, 0);
    assert_eq!(z.rows(), 0);
    assert_eq!(z.cols(), 0);
    let id = Matrix::identity(0);
    assert_eq!(id.rows(), 0);
    let e = Matrix::from_vec(0, 5, vec![]).unwrap();
    assert_eq!(e.rows(), 0);
    assert_eq!(e.cols(), 5);
    assert_eq!(e.get(0, 0).unwrap_err(), MatrixError::IndexOutOfBounds);
}
