use csidh_core::curve::{EllipticCurve, EllipticCurvePoint, GroupLawError};
use csidh_core::field::{FiniteField, FiniteFieldElement};
use csidh_core::natural::Natural;

fn num(x: u64) -> Natural {
    Natural::from_u64(x)
}

fn curve(p: u64, a: u64) -> EllipticCurve {
    EllipticCurve::new(FiniteField::new(num(p)), num(a))
}

fn point(c: &EllipticCurve, x: u64, y: u64) -> EllipticCurvePoint {
    c.point(num(x), num(y))
}

fn coordinates(p: &EllipticCurvePoint) -> Option<(Natural, Natural)> {
    match (p.x(), p.y()) {
        (Some(x), Some(y)) => Some((x.value().clone(), y.value().clone())),
        _ => None,
    }
}

fn at(x: u64, y: u64) -> Option<(Natural, Natural)> {
    Some((num(x), num(y)))
}

#[test]
fn curve_reduces_its_coefficient() {
    let c = curve(11, 12);
    assert_eq!(*c.a().value(), num(1));
    assert_eq!(*c.a().modulus(), num(11));
    assert_eq!(*c.field().modulus(), num(11));
    assert!(c.is_nonsingular());
    assert!(!curve(11, 22).is_nonsingular());
}

#[test]
fn point_reduces_its_coordinates() {
    let c = curve(11, 1);
    let p = point(&c, 18, 14);
    assert_eq!(coordinates(&p), at(7, 3));
    assert_eq!(*p.a().value(), num(1));
    assert!(!p.is_infinity());
}

#[test]
fn point_factory_does_not_validate() {
    let c = curve(11, 1);
    let p = point(&c, 1, 1);
    assert_eq!(coordinates(&p), at(1, 1));
    assert!(!p.is_on_curve());
}

#[test]
fn contains_checks_the_equation() {
    let c = curve(11, 1);
    let on: [(u64, u64); 11] = [
        (0, 0), (5, 3), (5, 8), (7, 3), (7, 8), (8, 5), (8, 6), (9, 1), (9, 10), (10, 3), (10, 8),
    ];
    for x in 0..11u64 {
        for y in 0..11u64 {
            assert_eq!(c.contains(&num(x), &num(y)), on.contains(&(x, y)));
        }
    }
    assert!(c.contains(&num(18), &num(14)));
}

#[test]
fn checked_point_refuses_points_off_the_curve() {
    let c = curve(11, 1);
    assert_eq!(c.checked_point(num(1), num(1)), Err(GroupLawError::InvalidCurvePoint));
    let p = c.checked_point(num(7), num(3)).unwrap();
    assert_eq!(coordinates(&p), at(7, 3));
    assert!(p.is_on_curve());
}

#[test]
fn identity_is_neutral() {
    let c = curve(11, 1);
    let zero = c.identity();
    let p = point(&c, 7, 3);
    assert!(zero.is_infinity());
    assert!(zero.is_on_curve());
    assert_eq!(zero.x(), None);
    assert_eq!(zero.y(), None);
    assert_eq!(p.add(&zero).unwrap(), p);
    assert_eq!(zero.add(&p).unwrap(), p);
    assert_eq!(zero.add(&zero).unwrap(), zero);
    assert_eq!(zero.double().unwrap(), zero);
}

#[test]
fn chord_rule_on_small_curve() {
    let c = curve(11, 1);
    let sum = point(&c, 7, 3).add(&point(&c, 9, 1)).unwrap();
    assert_eq!(coordinates(&sum), at(7, 8));
    let sum = point(&c, 9, 1).add(&point(&c, 5, 8)).unwrap();
    assert_eq!(coordinates(&sum), at(9, 10));
}

#[test]
fn tangent_rule_on_small_curve() {
    let c = curve(11, 1);
    assert_eq!(coordinates(&point(&c, 7, 3).double().unwrap()), at(9, 10));
    assert_eq!(coordinates(&point(&c, 5, 3).double().unwrap()), at(5, 8));
}

#[test]
fn adding_a_point_to_itself_doubles_it() {
    let c = curve(11, 1);
    let p = point(&c, 7, 3);
    assert_eq!(p.add(&p).unwrap(), p.double().unwrap());
}

#[test]
fn opposite_points_add_up_to_the_identity() {
    let c = curve(11, 1);
    let sum = point(&c, 7, 3).add(&point(&c, 7, 8)).unwrap();
    assert!(sum.is_infinity());
    assert_eq!(sum, c.identity());
}

#[test]
fn point_of_order_two_doubles_to_the_identity() {
    let c = curve(11, 1);
    let p = point(&c, 0, 0);
    assert!(p.is_on_curve());
    assert!(p.double().unwrap().is_infinity());
    assert!(p.add(&p).unwrap().is_infinity());
}

#[test]
fn repeated_addition_returns_to_the_identity() {
    let c = curve(11, 1);
    let p = c.checked_point(num(7), num(3)).unwrap();
    let multiples: [(u64, u64); 11] = [
        (7, 3), (9, 10), (10, 3), (5, 8), (8, 5), (0, 0), (8, 6), (5, 3), (10, 8), (9, 1), (7, 8),
    ];
    let mut q = p.clone();
    for k in 0..11 {
        assert_eq!(coordinates(&q), at(multiples[k].0, multiples[k].1));
        assert!(q.is_on_curve());
        q = q.add(&p).unwrap();
    }
    assert!(q.is_infinity());
    assert_eq!(q.add(&p).unwrap(), p);
}

#[test]
fn repeated_addition_on_the_curve_over_419() {
    let c = curve(419, 1);
    let p = c.checked_point(num(10), num(163)).unwrap();
    let mut q = p.clone();
    let mut additions = 0;
    while !q.is_infinity() {
        assert!(q.is_on_curve());
        q = q.add(&p).unwrap();
        additions += 1;
        assert!(additions <= 419);
    }
    assert_eq!(additions, 419);
}

#[test]
fn addition_is_commutative_and_associative_on_three_points() {
    let c = curve(11, 1);
    let p = point(&c, 7, 3);
    let q = point(&c, 9, 1);
    let r = point(&c, 5, 8);
    assert_eq!(p.add(&q).unwrap(), q.add(&p).unwrap());
    assert_eq!(q.add(&r).unwrap(), r.add(&q).unwrap());
    let left = p.add(&q).unwrap().add(&r).unwrap();
    let right = p.add(&q.add(&r).unwrap()).unwrap();
    assert_eq!(left, right);
    assert_eq!(coordinates(&left), at(10, 3));
}

#[test]
fn addition_is_associative_over_the_whole_small_curve() {
    let c = curve(11, 1);
    let mut points = vec![c.identity()];
    for x in 0..11u64 {
        for y in 0..11u64 {
            if c.contains(&num(x), &num(y)) {
                points.push(point(&c, x, y));
            }
        }
    }
    assert_eq!(points.len(), 12);
    for p in points.iter() {
        for q in points.iter() {
            let pq = p.add(q).unwrap();
            assert!(pq.is_on_curve());
            assert_eq!(pq, q.add(p).unwrap());
            for r in points.iter() {
                assert_eq!(pq.add(r).unwrap(), p.add(&q.add(r).unwrap()).unwrap());
            }
        }
    }
}

#[test]
fn points_over_different_moduli_do_not_add() {
    let p = point(&curve(11, 1), 7, 3);
    let q = point(&curve(13, 1), 7, 3);
    assert_eq!(p.add(&q), Err(GroupLawError::MismatchedModulus));
}

#[test]
fn points_on_different_curves_do_not_add() {
    let p = point(&curve(11, 1), 7, 3);
    let q = point(&curve(11, 2), 7, 3);
    assert_eq!(p.add(&q), Err(GroupLawError::MismatchedCurve));
    assert_eq!(p.add(&curve(11, 2).identity()), Err(GroupLawError::MismatchedCurve));
}

#[test]
fn vertical_chord_between_points_off_the_curve_is_refused() {
    let c = curve(11, 1);
    let p = point(&c, 1, 1);
    let q = point(&c, 1, 2);
    assert_eq!(p.add(&q), Err(GroupLawError::DivisionByZero));
}

#[test]
fn tangent_over_an_even_modulus_is_refused() {
    let c = curve(6, 1);
    let p = point(&c, 1, 3);
    assert_eq!(p.double(), Err(GroupLawError::DivisionByZero));
}

#[test]
fn new_point_checks_the_moduli() {
    let x = FiniteFieldElement::new(num(7), num(11));
    let y = FiniteFieldElement::new(num(3), num(11));
    let a = FiniteFieldElement::new(num(1), num(11));
    let p = EllipticCurvePoint::new(x.clone(), y.clone(), a.clone()).unwrap();
    assert_eq!(p, point(&curve(11, 1), 7, 3));
    let stray = FiniteFieldElement::new(num(3), num(13));
    assert_eq!(
        EllipticCurvePoint::new(x.clone(), stray.clone(), a.clone()),
        Err(GroupLawError::MismatchedModulus)
    );
    assert_eq!(
        EllipticCurvePoint::new(stray.clone(), y.clone(), a.clone()),
        Err(GroupLawError::MismatchedModulus)
    );
    assert_eq!(EllipticCurvePoint::new(x, y, stray), Err(GroupLawError::MismatchedModulus));
}

#[test]
fn curve_clone_is_the_same_curve() {
    let c = curve(11, 1);
    let d = c.clone();
    assert_eq!(point(&c, 7, 3), point(&d, 7, 3));
}
