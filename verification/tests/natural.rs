use csidh_core::natural::Natural;

#[test]
fn from_u64_spells_two_limbs() {
    let n = Natural::from_u64(0x1234_5678_9abc_def0);
    assert_eq!(n.limbs(), &vec![0x9abc_def0u32, 0x1234_5678u32]);
}

#[test]
fn from_u64_of_zero_is_zero() {
    assert!(Natural::from_u64(0).is_zero());
    assert!(!Natural::from_u64(1).is_zero());
}

#[test]
fn from_u64_of_largest_value() {
    let n = Natural::from_u64(u64::MAX);
    assert_eq!(n, Natural::from_limbs(vec![u32::MAX, u32::MAX]));
}

#[test]
fn equality_ignores_leading_zero_limbs() {
    let short = Natural::from_limbs(vec![7]);
    let long = Natural::from_limbs(vec![7, 0, 0]);
    assert_eq!(short, long);
    assert_eq!(Natural::from_limbs(vec![]), Natural::from_u64(0));
    assert!(Natural::from_limbs(vec![0, 0]).is_zero());
}

#[test]
fn equality_tells_numbers_apart() {
    assert_ne!(Natural::from_u64(7), Natural::from_u64(8));
    assert_ne!(Natural::from_limbs(vec![0, 1]), Natural::from_limbs(vec![1, 0]));
    assert_ne!(Natural::from_limbs(vec![1]), Natural::from_limbs(vec![1, 1]));
}

#[test]
fn limbs_are_least_significant_first() {
    let n = Natural::from_limbs(vec![0, 1]);
    assert_eq!(n, Natural::from_u64(1u64 << 32));
}

#[test]
fn clone_keeps_the_number() {
    let n = Natural::from_limbs(vec![5, 0, 0, 0, 4]);
    let copy = n.clone();
    assert_eq!(n, copy);
    assert_eq!(copy.limbs(), &vec![5u32, 0, 0, 0, 4]);
}
