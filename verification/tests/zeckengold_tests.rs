use fibonacci_vsa::zeckengold::{lattice_draws, MonoBundler, LATTICE_MULTIPLIER};

#[test]
fn lattice_draws_follow_the_generator() {
    assert_eq!(lattice_draws(42, 0, 4), vec![1006665568, 1203072297, 794413540, 368560124]);
    assert_eq!(lattice_draws(42, 3, 3), vec![1081830820, 1682231836, 1071671319]);
    assert!(lattice_draws(7, 1, 0).is_empty());
    // the same generator written out step by step
    let mut state = 9u64.wrapping_mul(LATTICE_MULTIPLIER).wrapping_add(6);
    let draws = lattice_draws(9, 5, 100);
    for (dim, &d) in draws.iter().enumerate() {
        state = state.wrapping_mul(LATTICE_MULTIPLIER).wrapping_add(dim as u64 + 1);
        assert_eq!(d as u64, state >> 33);
    }
}

#[test]
fn mono_bundler_keeps_dimension() {
    assert_eq!(MonoBundler::new(10_000).d, 10_000);
    assert_eq!(MonoBundler::new(0).d, 0);
}
