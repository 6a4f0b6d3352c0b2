use csidh_core::natural::Natural;
use csidh_core::params::{gen_params, ParamGenError, PrimeSearch, SearchStep};
use csidh_core::primes::{is_small_prime, next_prime};
use num_bigint::BigUint;

fn num(x: u64) -> Natural {
    Natural::from_u64(x)
}

fn big(n: &Natural) -> BigUint {
    BigUint::from_slice(n.limbs())
}

fn modulus_of(primes: &[u64]) -> BigUint {
    let mut product = BigUint::from(4u32);
    for &l in primes.iter() {
        product = product * BigUint::from(l);
    }
    product - BigUint::from(1u32)
}

fn has_no_small_factor(p: &BigUint) -> bool {
    let zero = BigUint::from(0u32);
    let mut d = BigUint::from(2u32);
    while &d * &d <= *p {
        if p % &d == zero {
            return false;
        }
        d = d + BigUint::from(1u32);
    }
    *p >= BigUint::from(2u32)
}

#[test]
fn small_primes_by_trial_division() {
    let primes: Vec<u64> = (0..60u64).filter(|&n| is_small_prime(n)).collect();
    assert_eq!(primes, vec![2, 3, 5, 7, 11, 13, 17, 19, 23, 29, 31, 37, 41, 43, 47, 53, 59]);
    assert!(is_small_prime(419));
    assert!(!is_small_prime(4619));
    assert!(is_small_prime(1_021_019));
    assert!(!is_small_prime(0));
    assert!(!is_small_prime(1));
    assert!(is_small_prime(4_294_967_291));
    assert!(!is_small_prime(4_294_967_295));
}

#[test]
fn next_prime_skips_composites() {
    assert_eq!(next_prime(0), Some(2));
    assert_eq!(next_prime(2), Some(3));
    assert_eq!(next_prime(3), Some(5));
    assert_eq!(next_prime(7), Some(11));
    assert_eq!(next_prime(89), Some(97));
    assert_eq!(next_prime(113), Some(127));
}

#[test]
fn next_prime_runs_out_at_the_top() {
    assert_eq!(next_prime(u64::MAX), None);
    assert_eq!(next_prime(u64::MAX - 1), None);
}

#[test]
fn search_starts_from_the_first_odd_primes() {
    let search = PrimeSearch::start(3).unwrap();
    assert_eq!(search.primes(), &vec![3u64, 5, 7]);
    assert_eq!(*search.candidate(), num(419));
    let search = PrimeSearch::start(1).unwrap();
    assert_eq!(search.primes(), &vec![3u64]);
    assert_eq!(*search.candidate(), num(11));
}

#[test]
fn search_extends_by_the_next_prime() {
    let search = PrimeSearch::start(3).unwrap().extend().unwrap();
    assert_eq!(search.primes(), &vec![3u64, 5, 7, 11]);
    assert_eq!(*search.candidate(), num(4619));
    let search = search.extend().unwrap();
    assert_eq!(search.primes(), &vec![3u64, 5, 7, 11, 13]);
    assert_eq!(*search.candidate(), num(60059));
}

#[test]
fn search_candidate_outgrows_a_machine_word() {
    let search = PrimeSearch::start(16).unwrap();
    assert_eq!(search.primes().len(), 16);
    assert_eq!(search.primes()[15], 59);
    assert_eq!(big(search.candidate()), modulus_of(search.primes()));
    assert_eq!(big(search.candidate()).to_string(), "3845520700308425278139");
}

#[test]
fn accepted_candidate_ends_the_search() {
    match PrimeSearch::start(3).unwrap().advance(true, 0) {
        SearchStep::Found(found) => {
            assert_eq!(found.primes(), &vec![3u64, 5, 7]);
            assert_eq!(*found.candidate(), num(419));
        }
        other => panic!("{:?}", other),
    }
}

#[test]
fn rejected_candidate_extends_the_factor_base() {
    match PrimeSearch::start(4).unwrap().advance(false, 1) {
        SearchStep::Extended(next) => {
            assert_eq!(next.primes(), &vec![3u64, 5, 7, 11, 13]);
            assert_eq!(*next.candidate(), num(60059));
        }
        other => panic!("{:?}", other),
    }
}

#[test]
fn rejected_candidate_without_retries_exhausts_the_search() {
    assert!(matches!(PrimeSearch::start(4).unwrap().advance(false, 0), SearchStep::Exhausted));
}

#[test]
fn search_parameters_hold_field_and_curve() {
    let (p, primes, field, curve) = PrimeSearch::start(3).unwrap().into_parameters(num(420));
    assert_eq!(p, num(419));
    assert_eq!(primes, vec![3u64, 5, 7]);
    assert_eq!(*field.modulus(), num(419));
    assert_eq!(*curve.field().modulus(), num(419));
    assert_eq!(*curve.a().value(), num(1));
}

#[test]
fn generated_modulus_has_the_required_form() {
    let (p, primes, field, curve) = gen_params(3, num(1), 64).unwrap();
    assert!(primes.len() >= 3);
    assert_eq!(&primes[..3], &[3u64, 5, 7]);
    for pair in primes.windows(2) {
        assert_eq!(next_prime(pair[0]), Some(pair[1]));
    }
    assert_eq!(big(&p), modulus_of(&primes));
    if primes.len() <= 7 {
        assert!(has_no_small_factor(&big(&p)));
    }
    assert_eq!(*field.modulus(), p);
    assert_eq!(*curve.field().modulus(), p);
    assert_eq!(*curve.a().value(), num(1));
    assert_eq!(*curve.a().modulus(), p);
}

#[test]
fn generated_modulus_skips_composite_candidates() {
    let (p, primes, _field, _curve) = gen_params(4, num(1), 64).unwrap();
    assert!(primes.len() >= 6);
    assert_eq!(&primes[..6], &[3u64, 5, 7, 11, 13, 17]);
    assert_eq!(big(&p), modulus_of(&primes));
}

#[test]
fn search_without_retries_fails_on_a_composite_candidate() {
    assert_eq!(gen_params(4, num(1), 0).err(), Some(ParamGenError::PrimeSearchExhausted));
    assert_eq!(gen_params(4, num(1), 1).err(), Some(ParamGenError::PrimeSearchExhausted));
    assert_eq!(gen_params(5, num(1), 0).err(), Some(ParamGenError::PrimeSearchExhausted));
}
