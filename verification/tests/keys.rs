use csidh_core::keys::gen_key;

#[test]
fn key_has_one_exponent_per_prime() {
    assert_eq!(gen_key(0, 5).len(), 0);
    assert_eq!(gen_key(1, 5).len(), 1);
    assert_eq!(gen_key(74, 5).len(), 74);
}

#[test]
fn zero_bound_gives_zero_exponents() {
    assert_eq!(gen_key(8, 0), vec![0i64; 8]);
}

#[test]
fn exponents_stay_within_the_bound() {
    for &m in [1i64, 2, 5, 1000, i64::MAX].iter() {
        for exponent in gen_key(200, m) {
            assert!(-m <= exponent && exponent <= m);
        }
    }
}

#[test]
fn exponents_are_spread_evenly() {
    let mut counts = [0u64; 11];
    for _ in 0..10000 {
        let key = gen_key(10, 5);
        assert_eq!(key.len(), 10);
        for exponent in key {
            assert!(-5 <= exponent && exponent <= 5);
            counts[(exponent + 5) as usize] += 1;
        }
    }
    let expected = 100000.0f64 / 11.0;
    let mut chi_square = 0.0f64;
    for &count in counts.iter() {
        let gap = count as f64 - expected;
        chi_square += gap * gap / expected;
    }
    // ten degrees of freedom: beyond 60 the odds are below one in a billion
    assert!(chi_square < 60.0, "chi-square {}", chi_square);
}

#[test]
fn exponents_differ_between_draws() {
    let first = gen_key(64, 1_000_000);
    let second = gen_key(64, 1_000_000);
    assert_ne!(first, second);
}
