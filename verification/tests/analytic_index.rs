use lau_index_theorem::analytic_index::{
    analytic_index_matrix, dim_cokernel, dim_kernel, fredholm_index, is_fredholm, MatrixRank,
};

#[test]
fn test_analytic_index_square_invertible() {
    // 3×3 identity: rank 3
    let m = MatrixRank::new(3, 3, 3);
    assert_eq!(analytic_index_matrix(&m), 0);
}

#[test]
fn test_analytic_index_zero_matrix() {
    // 3×3 zero: rank 0; dim ker = 3, dim coker = 3, index = 0
    let m = MatrixRank::new(3, 3, 0);
    assert_eq!(analytic_index_matrix(&m), 0);
}

#[test]
fn test_analytic_index_tall_matrix() {
    // 3×2, rank 2 → ker = 0, coker = 1, index = -1
    let m = MatrixRank::new(3, 2, 2);
    assert_eq!(analytic_index_matrix(&m), -1);
}

#[test]
fn test_analytic_index_wide_matrix() {
    // 2×3, rank 2 → ker = 1, coker = 0, index = 1
    let m = MatrixRank::new(2, 3, 2);
    assert_eq!(analytic_index_matrix(&m), 1);
}

#[test]
fn test_is_fredholm() {
    // identity operator on ℝ^3
    let m = MatrixRank::new(3, 3, 3);
    assert!(is_fredholm(&m));
}

#[test]
fn test_analytic_index_operator() {
    // [[1,0,0],[0,1,0]]: 2×3 of rank 2
    let m = MatrixRank::new(2, 3, 2);
    assert_eq!(analytic_index_matrix(&m), 1);
}

#[test]
fn kernel_and_cokernel_dimensions() {
    // [[1,0,0],[0,0,0]]: 2×3 of rank 1
    let m = MatrixRank::new(2, 3, 1);
    assert_eq!(dim_kernel(&m), 2);
    assert_eq!(dim_cokernel(&m), 1);
    assert_eq!(analytic_index_matrix(&m), 1);
    assert_eq!(fredholm_index(&m), 1);
}

#[test]
fn adjoint_swaps_kernel_and_cokernel() {
    let m = MatrixRank::new(2, 5, 1);
    let a = m.adjoint();
    assert_eq!(a, MatrixRank::new(5, 2, 1));
    assert_eq!(dim_kernel(&a), dim_cokernel(&m));
    assert_eq!(dim_cokernel(&a), dim_kernel(&m));
    assert_eq!(analytic_index_matrix(&a), -analytic_index_matrix(&m));
}

#[test]
fn index_depends_on_shape_only() {
    for rank in 0..=4 {
        assert_eq!(analytic_index_matrix(&MatrixRank::new(4, 7, rank)), 3);
    }
}

#[test]
fn every_matrix_operator_is_fredholm() {
    assert!(is_fredholm(&MatrixRank::new(999, 999, 0)));
    assert!(is_fredholm(&MatrixRank::new(1000, 1000, 0)));
    assert!(is_fredholm(&MatrixRank::new(1000, 10, 0)));
    assert!(is_fredholm(&MatrixRank::new(10, 1000, 3)));
    assert!(is_fredholm(&MatrixRank::new(0, 0, 0)));
}
