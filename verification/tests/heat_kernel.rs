use lau_index_theorem::heat_kernel::index_density_from_heat_kernel;

#[test]
fn test_index_density_runs() {
    let terms = index_density_from_heat_kernel(2, &[1.0f64, 0.5], &[0.0, 0.5]);
    assert_eq!(terms, Some((&0.5, &0.5)));
    let (e, o) = terms.unwrap();
    assert!((e - o).is_finite());
}

#[test]
fn index_density_picks_half_dimension() {
    let even = [1.0f64, 2.0, 3.0];
    let odd = [0.5f64, 1.5, 2.0];
    assert_eq!(index_density_from_heat_kernel(4, &even, &odd), Some((&3.0, &2.0)));
    assert_eq!(index_density_from_heat_kernel(5, &even, &odd), Some((&3.0, &2.0)));
    assert_eq!(index_density_from_heat_kernel(0, &even, &odd), Some((&1.0, &0.5)));
}

#[test]
fn index_density_beyond_coefficients_vanishes() {
    let even = [1.0f64, 2.0, 3.0];
    let odd = [0.5f64];
    assert_eq!(index_density_from_heat_kernel(2, &even, &odd), None);
    assert_eq!(index_density_from_heat_kernel(6, &even, &even), None);
}
