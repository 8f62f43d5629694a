use lau_index_theorem::topological_index::{
    betti_from_boundaries, boundaries_are_valid, euler_characteristic,
    euler_characteristic_in_range, BoundaryMap,
};

#[test]
fn test_euler_characteristic_simplex() {
    // Point: b_0 = 1 → χ = 1
    assert_eq!(euler_characteristic(&[1]), 1);
}

#[test]
fn test_euler_characteristic_circle() {
    // S^1: b_0 = 1, b_1 = 1 → χ = 0
    assert_eq!(euler_characteristic(&[1, 1]), 0);
}

#[test]
fn test_euler_characteristic_sphere() {
    // S^2: b_0 = 1, b_1 = 0, b_2 = 1 → χ = 2
    assert_eq!(euler_characteristic(&[1, 0, 1]), 2);
}

#[test]
fn test_euler_characteristic_torus() {
    // T^2: b_0 = 1, b_1 = 2, b_2 = 1 → χ = 0
    assert_eq!(euler_characteristic(&[1, 2, 1]), 0);
}

#[test]
fn test_euler_alternating_sum() {
    // χ = 1 - 2 + 1 = 0
    assert_eq!(euler_characteristic(&[1, 2, 1]), 0);
}

#[test]
fn test_betti_empty() {
    let betti = betti_from_boundaries(&[]);
    assert!(betti.is_empty());
}

#[test]
fn euler_characteristic_of_nothing_is_zero() {
    assert_eq!(euler_characteristic(&[]), 0);
}

#[test]
fn euler_characteristic_negative_value() {
    // genus-3 surface: 1 - 6 + 1 = -4
    assert_eq!(euler_characteristic(&[1, 6, 1]), -4);
}

#[test]
fn euler_characteristic_of_odd_dimensional_palindrome_vanishes() {
    // S^3 and a palindromic sequence of even length
    assert_eq!(euler_characteristic(&[1, 0, 0, 1]), 0);
    assert_eq!(euler_characteristic(&[2, 5, 5, 2]), 0);
}

fn bm(rows: usize, cols: usize, rank: usize) -> BoundaryMap {
    BoundaryMap { rows, cols, rank }
}

#[test]
fn betti_of_an_interval() {
    // one edge between two vertices: ∂_1 is 2×1 of rank 1
    assert_eq!(betti_from_boundaries(&[bm(2, 1, 1)]), vec![1, 0]);
}

#[test]
fn betti_of_a_triangle_boundary() {
    // circle as three vertices and three edges: ∂_1 is 3×3 of rank 2
    assert_eq!(betti_from_boundaries(&[bm(3, 3, 2)]), vec![1, 1]);
}

#[test]
fn betti_of_a_filled_triangle() {
    // ∂_1: 3×3 of rank 2, ∂_2: 3×1 of rank 1 → a disc
    assert_eq!(betti_from_boundaries(&[bm(3, 3, 2), bm(3, 1, 1)]), vec![1, 0, 0]);
}

#[test]
fn betti_of_the_cw_torus() {
    // one vertex, two edges, one face, all boundary maps zero
    assert_eq!(betti_from_boundaries(&[bm(1, 2, 0), bm(2, 1, 0)]), vec![1, 2, 1]);
}

#[test]
fn betti_of_disjoint_points() {
    // three vertices, no edges: an empty boundary map with three rows
    assert_eq!(betti_from_boundaries(&[bm(3, 0, 0)]), vec![3, 0]);
    // no rows at all
    assert_eq!(betti_from_boundaries(&[bm(0, 0, 0)]), vec![0, 0]);
}

#[test]
fn euler_poincare_on_concrete_boundaries() {
    // χ of the Betti numbers equals c_0 - c_1 + c_2, whatever the ranks
    let a = [bm(3, 4, 2), bm(4, 5, 2)];
    let b = [bm(3, 4, 1), bm(4, 5, 3)];
    let chi_a = euler_characteristic(&betti_from_boundaries(&a));
    let chi_b = euler_characteristic(&betti_from_boundaries(&b));
    assert_eq!(chi_a, 3 - 4 + 5);
    assert_eq!(chi_b, 3 - 4 + 5);
    // the filled triangle: 3 - 3 + 1
    assert_eq!(euler_characteristic(&betti_from_boundaries(&[bm(3, 3, 2), bm(3, 1, 1)])), 1);
}

#[test]
fn euler_characteristic_range_check() {
    assert!(euler_characteristic_in_range(&[1, 2, 1]));
    assert!(euler_characteristic_in_range(&[]));
    assert!(!euler_characteristic_in_range(&[usize::MAX]));
    let big = i64::MAX as usize;
    assert!(euler_characteristic_in_range(&[big]));
    assert!(!euler_characteristic_in_range(&[big, 0, 1]));
    assert!(euler_characteristic_in_range(&[0, big, 1]));
    assert!(!euler_characteristic_in_range(&[0, big, 0, 2]));
    assert_eq!(euler_characteristic(&[0, big, 1]), i64::MIN + 2);
}

#[test]
fn boundary_validity_check() {
    assert!(boundaries_are_valid(&[]));
    assert!(boundaries_are_valid(&[bm(2, 1, 1)]));
    assert!(boundaries_are_valid(&[bm(3, 3, 2), bm(3, 1, 1)]));
    // a rank above the number of rows, or of columns, is impossible
    assert!(!boundaries_are_valid(&[bm(1, 3, 2)]));
    assert!(!boundaries_are_valid(&[bm(3, 0, 1)]));
    // rank ∂_2 = 2 exceeds cols ∂_1 - rank ∂_1 = 3 - 2
    assert!(!boundaries_are_valid(&[bm(3, 3, 2), bm(3, 2, 2)]));
    assert!(boundaries_are_valid(&[bm(3, 4, 1), bm(4, 5, 3)]));
    assert!(!boundaries_are_valid(&[bm(3, 4, 1), bm(4, 5, 4)]));
}
