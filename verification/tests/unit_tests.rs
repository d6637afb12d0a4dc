//! Construction, random-fill and operation tests over a range of
//! sizes.

use matrix_lib::Matrix;

const MAX_SIZE: usize = 289; // Must have integer square root.
const MIN_SIZE: usize = 1;
const RNG_MAX_SIZE: usize = 100;

#[test]
fn test_matrix_new_creation() {
    for size in MIN_SIZE..MAX_SIZE {
        let new_mat = Matrix::new(size, size);
        for row_idx in 0..size {
            for col_idx in 0..size {
                assert_eq!(new_mat.get(row_idx, col_idx).unwrap(), 0);
            }
        }
    }
}

#[test]
fn test_matrix_from_vec_creation() {
    let root_max = (MAX_SIZE as f64).sqrt() as usize;
    for root_size in MIN_SIZE..=root_max {
        let size = root_size * root_size;

        let mut vector: Vec<i64> = vec![0; size];
        for val in 0..size {
            vector[val] = (val + 1) as i64;
        }

        let from_vec_mat = Matrix::from_vec(root_size, root_size, vector).unwrap();
        let mut counter: i64 = 1;
        for row_idx in 0..root_size {
            for col_idx in 0..root_size {
                assert_eq!(from_vec_mat.get(row_idx, col_idx).unwrap(), counter);
                counter = counter + 1;
            }
        }
    }
}

#[test]
fn test_matrix_ones_creation() {
    for size in MIN_SIZE..MAX_SIZE {
        let ones_mat = Matrix::ones(size, size);
        for row_idx in 0..size {
            for col_idx in 0..size {
                assert_eq!(ones_mat.get(row_idx, col_idx).unwrap(), 1);
            }
        }
    }
}

#[test]
fn test_matrix_zeros_creation() {
    for size in MIN_SIZE..MAX_SIZE {
        let zeros_mat = Matrix::zeros(size, size);
        for row_idx in 0..size {
            for col_idx in 0..size {
                assert_eq!(zeros_mat.get(row_idx, col_idx).unwrap(), 0);
            }
        }
    }
}

#[test]
fn test_matrix_identity_creation() {
    for size in MIN_SIZE..MAX_SIZE {
        let identity_mat = Matrix::identity(size);
        for row_idx in 0..size {
            for col_idx in 0..size {
                if col_idx == row_idx {
                    assert_eq!(identity_mat.get(row_idx, col_idx).unwrap(), 1);
                } else {
                    assert_eq!(identity_mat.get(row_idx, col_idx).unwrap(), 0);
                }
            }
        }
    }
}

#[test]
fn test_matrix_uniform_rng_creation() {
    for size in MIN_SIZE..RNG_MAX_SIZE {
        let rng_mat = Matrix::random_uniform(size, size, i64::MIN, i64::MAX).unwrap();

        for row_idx in 0..size {
            for col_idx in 0..size {
                assert!(rng_mat.get(row_idx, col_idx).unwrap() >= i64::MIN);
                assert!(rng_mat.get(row_idx, col_idx).unwrap() < i64::MAX);
            }
        }
    }
}

#[test]
fn test_matrix_bernoulli_rng_creation() {
    // Success probability one half.
    for size in MIN_SIZE..RNG_MAX_SIZE {
        let rng_mat = Matrix::random_bernoulli(size, size, 1, 2).unwrap();
        for row_idx in 0..size {
            for col_idx in 0..size {
                let v = rng_mat.get(row_idx, col_idx).unwrap();
                assert!(v == 0 || v == 1);
            }
        }
    }
}

#[test]
fn test_matrix_addition() {
    // The random bounds keep every elementwise sum within range.
    let bound: i64 = 2_i64.pow(64 - 2) - 1;
    for mat_size in MIN_SIZE..RNG_MAX_SIZE {
        let mat_a = Matrix::random_uniform(mat_size, mat_size, -bound, bound).unwrap();
        let mat_b = Matrix::random_uniform(mat_size, mat_size, -bound, bound).unwrap();
        let mat_c = mat_a.add(&mat_b).unwrap();

        for row_idx in 0..mat_size {
            for col_idx in 0..mat_size {
                assert_eq!(
                    mat_c.get(row_idx, col_idx).unwrap(),
                    mat_a.get(row_idx, col_idx).unwrap() + mat_b.get(row_idx, col_idx).unwrap()
                );
            }
        }
    }
}

#[test]
fn test_matrix_subtraction() {
    // The random bounds keep every elementwise difference within range.
    let bound: i64 = 2_i64.pow(64 - 2) - 1;
    for mat_size in MIN_SIZE..RNG_MAX_SIZE {
        let mat_a = Matrix::random_uniform(mat_size, mat_size, -bound, bound).unwrap();
        let mat_b = Matrix::random_uniform(mat_size, mat_size, -bound, bound).unwrap();
        let mat_c = mat_a.sub(&mat_b).unwrap();

        for row_idx in 0..mat_size {
            for col_idx in 0..mat_size {
                assert_eq!(
                    mat_c.get(row_idx, col_idx).unwrap(),
                    mat_a.get(row_idx, col_idx).unwrap() - mat_b.get(row_idx, col_idx).unwrap()
                );
            }
        }
    }
}

#[test]
fn test_matrix_transposing() {
    for mat_size in MIN_SIZE..RNG_MAX_SIZE {
        let rng_mat = Matrix::random_uniform(mat_size, mat_size, i64::MIN, i64::MAX).unwrap();
        let rng_mat_t = rng_mat.transpose();

        for row_idx in 0..mat_size {
            for col_idx in 0..mat_size {
                assert_eq!(
                    rng_mat.get(row_idx, col_idx).unwrap(),
                    rng_mat_t.get(col_idx, row_idx).unwrap()
                );
            }
        }
    }
}
