use csidh_core::field::{FieldError, FiniteField, FiniteFieldElement};
use csidh_core::natural::Natural;

fn num(x: u64) -> Natural {
    Natural::from_u64(x)
}

fn field(p: u64) -> FiniteField {
    FiniteField::new(num(p))
}

fn mersenne_127() -> Natural {
    Natural::from_limbs(vec![0xffff_ffff, 0xffff_ffff, 0xffff_ffff, 0x7fff_ffff])
}

#[test]
fn element_reduces_on_construction() {
    let f = field(11);
    assert_eq!(*f.element(num(15)).value(), num(4));
    assert_eq!(*f.element(num(0)).value(), num(0));
    assert_eq!(*f.element(num(10)).value(), num(10));
    assert_eq!(*f.element(num(11)).value(), num(0));
    assert_eq!(*f.element(num(1_000_000)).value(), num(1_000_000 % 11));
}

#[test]
fn element_keeps_the_modulus() {
    let f = field(11);
    assert_eq!(*f.modulus(), num(11));
    assert_eq!(*f.element(num(15)).modulus(), num(11));
    assert_eq!(f.element(num(15)), FiniteFieldElement::new(num(4), num(11)));
}

#[test]
fn add_in_field_of_eleven() {
    let f = field(11);
    let sum = f.element(num(4)).add(&f.element(num(9))).unwrap();
    assert_eq!(*sum.value(), num(2));
    assert_eq!(*sum.modulus(), num(11));
}

#[test]
fn inverse_of_seven_modulo_eleven() {
    let f = field(11);
    let inverse = f.element(num(7)).inv().unwrap();
    assert_eq!(*inverse.value(), num(8));
    assert_eq!(*inverse.modulus(), num(11));
}

#[test]
fn sub_wraps_below_zero() {
    let f = field(11);
    assert_eq!(*f.element(num(3)).sub(&f.element(num(9))).unwrap().value(), num(5));
    assert_eq!(*f.element(num(9)).sub(&f.element(num(3))).unwrap().value(), num(6));
    assert_eq!(*f.element(num(0)).sub(&f.element(num(10))).unwrap().value(), num(1));
    assert_eq!(*f.element(num(7)).sub(&f.element(num(7))).unwrap().value(), num(0));
}

#[test]
fn mul_in_field_of_eleven() {
    let f = field(11);
    assert_eq!(*f.element(num(7)).mul(&f.element(num(8))).unwrap().value(), num(1));
    assert_eq!(*f.element(num(10)).mul(&f.element(num(10))).unwrap().value(), num(1));
    assert_eq!(*f.element(num(0)).mul(&f.element(num(5))).unwrap().value(), num(0));
}

#[test]
fn operations_agree_with_integers_on_a_spread_of_values() {
    let p: u64 = 101;
    let f = field(p);
    let values: [u64; 7] = [0, 1, 50, 100, 101, 102, 1_000_003];
    for &a in values.iter() {
        for &b in values.iter() {
            let x = f.element(num(a));
            let y = f.element(num(b));
            assert_eq!(*x.add(&y).unwrap().value(), num((a + b) % p));
            assert_eq!(*x.mul(&y).unwrap().value(), num((a % p) * (b % p) % p));
            assert_eq!(*x.sub(&y).unwrap().value(), num((a % p + p - b % p) % p));
        }
    }
}

#[test]
fn every_nonzero_element_times_its_inverse_is_one() {
    for &p in [5u64, 7, 11, 13, 101, 419].iter() {
        let f = field(p);
        for a in 1..p {
            let x = f.element(num(a));
            let product = x.mul(&x.inv().unwrap()).unwrap();
            assert_eq!(*product.value(), num(1));
        }
    }
}

#[test]
fn add_refuses_mismatched_moduli() {
    let x = FiniteFieldElement::new(num(3), num(11));
    let y = FiniteFieldElement::new(num(2), num(13));
    assert_eq!(x.add(&y), Err(FieldError::MismatchedModulus));
}

#[test]
fn sub_and_mul_refuse_mismatched_moduli() {
    let x = FiniteFieldElement::new(num(3), num(11));
    let y = FiniteFieldElement::new(num(2), num(13));
    assert_eq!(x.sub(&y), Err(FieldError::MismatchedModulus));
    assert_eq!(x.mul(&y), Err(FieldError::MismatchedModulus));
    assert_eq!(y.mul(&x), Err(FieldError::MismatchedModulus));
}

#[test]
fn inverse_of_zero_is_refused() {
    let f = field(11);
    assert_eq!(f.element(num(0)).inv(), Err(FieldError::DivisionByZero));
    assert_eq!(f.element(num(22)).inv(), Err(FieldError::DivisionByZero));
}

#[test]
fn is_zero_tells_zero_apart() {
    let f = field(13);
    assert!(f.element(num(26)).is_zero());
    assert!(!f.element(num(27)).is_zero());
}

#[test]
fn elements_of_different_fields_differ() {
    let x = FiniteFieldElement::new(num(3), num(11));
    let y = FiniteFieldElement::new(num(3), num(13));
    assert_ne!(x, y);
    assert_eq!(x, x.clone());
}

#[test]
fn large_modulus_reduces_wide_values() {
    let f = FiniteField::new(mersenne_127());
    let wide = Natural::from_limbs(vec![5, 0, 0, 0, 4]);
    assert_eq!(*f.element(wide).value(), num(13));
}

#[test]
fn large_modulus_arithmetic() {
    let f = FiniteField::new(mersenne_127());
    let a = f.element(Natural::from_limbs(vec![12345, 0, 0, 16]));
    let b = f.element(Natural::from_limbs(vec![2129924785, 229956191, 0, 1073741824]));
    assert_eq!(
        *a.mul(&b).unwrap().value(),
        Natural::from_limbs(vec![3195321717, 4130768658, 660, 792800024])
    );
    assert_eq!(
        *a.add(&b).unwrap().value(),
        Natural::from_limbs(vec![2129937130, 229956191, 0, 1073741840])
    );
    assert_eq!(
        *a.sub(&b).unwrap().value(),
        Natural::from_limbs(vec![2165054855, 4065011104, 4294967295, 1073741839])
    );
    let inverse = a.inv().unwrap();
    assert_eq!(
        *inverse.value(),
        Natural::from_limbs(vec![1305372005, 2412790422, 2406557679, 1858242949])
    );
    assert_eq!(*a.mul(&inverse).unwrap().value(), num(1));
}

#[test]
fn square_of_largest_u64_modulo_mersenne() {
    let f = FiniteField::new(mersenne_127());
    let x = f.element(num(u64::MAX));
    assert_eq!(
        *x.mul(&x).unwrap().value(),
        Natural::from_limbs(vec![2, 0, 4294967294, 2147483647])
    );
}

#[test]
fn field_clone_keeps_the_modulus() {
    let f = field(419);
    let g = f.clone();
    assert_eq!(*g.modulus(), num(419));
    assert_eq!(f.element(num(420)), g.element(num(1)));
}
