//! The curve `y^2 = x^3 + A x` over a field, its points and their group
//! law.
//!
//! A point is the point at infinity, which is the identity of the group,
//! or an affine pair of field elements. The group law is stated by the
//! spec functions `add_positions` and `double_position` over residues as
//! natural numbers; the executable operations are proved to compute
//! exactly those.

use crate::field::{
    field_inv, field_mul, residue, FiniteField, FiniteFieldElement, ResidueClass,
};
use crate::field_laws::lemma_residue_absorbs;
use crate::natural::Natural;
use vstd::arithmetic::div_mod::lemma_small_mod;
use vstd::prelude::*;

verus! {

/// Why a curve operation was refused.
#[derive(Debug, Clone, Copy, PartialEq, Eq, Structural)]
pub enum GroupLawError {
    /// The operands live over fields of different moduli.
    MismatchedModulus,
    /// The operands live over one field but on curves of different
    /// coefficients.
    MismatchedCurve,
    /// A slope would need the inverse of zero, and the result is not the
    /// point at infinity.
    DivisionByZero,
    /// The coordinates do not satisfy the curve equation.
    InvalidCurvePoint,
}

/// What a curve is: the modulus of its field and its coefficient `A`.
pub struct CurveModel {
    pub modulus: nat,
    pub a: nat,
}

/// Where a point lies.
pub enum Position {
    /// The point at infinity, identity of the group.
    Infinity,
    /// The affine point `(x, y)`.
    Affine { x: nat, y: nat },
}

/// What a point is: its curve and its position.
pub struct PointModel {
    pub curve: CurveModel,
    pub position: Position,
}

/// Whether `(x, y)` satisfies `y^2 = x^3 + A x` modulo the curve's modulus.
pub open spec fn on_curve(c: CurveModel, x: nat, y: nat) -> bool {
    residue(c.modulus, (y * y) as int) == residue(c.modulus, (x * x * x + c.a * x) as int)
}

/// Whether a position is the point at infinity or satisfies the curve
/// equation.
pub open spec fn position_on_curve(c: CurveModel, position: Position) -> bool {
    match position {
        Position::Infinity => true,
        Position::Affine { x, y } => on_curve(c, x, y),
    }
}

/// The field element `n / d`: the residue of `n` times the inverse of the
/// residue of `d`.
pub open spec fn quotient(p: nat, n: int, d: int) -> nat {
    field_mul(p, residue(p, n), field_inv(p, residue(p, d)))
}

/// The slope of the chord through `(x1, y1)` and `(x2, y2)`.
pub open spec fn chord_slope(p: nat, x1: nat, y1: nat, x2: nat, y2: nat) -> nat {
    quotient(p, y2 - y1, x2 - x1)
}

/// The slope of the tangent at `(x, y)`.
pub open spec fn tangent_slope(c: CurveModel, x: nat, y: nat) -> nat {
    quotient(c.modulus, (3 * (x * x) + c.a) as int, (2 * y) as int)
}

/// The third point of the curve on the line of slope `slope` through
/// `(x1, y1)` and a point of abscissa `x2`, reflected in the x-axis.
pub open spec fn third_point(p: nat, slope: nat, x1: nat, y1: nat, x2: nat) -> Position {
    let x3 = residue(p, slope * slope - x1 - x2);
    Position::Affine { x: x3, y: residue(p, slope * (x1 - x3) - y1) }
}

/// Twice a position. The point at infinity and the points of ordinate 0
/// double to the point at infinity. Elsewhere the tangent rule applies; it
/// is refused where `2 y` vanishes although `y` does not, which no field
/// of odd prime modulus allows.
pub open spec fn double_position(c: CurveModel, position: Position) -> Result<
    Position,
    GroupLawError,
> {
    match position {
        Position::Infinity => Ok(Position::Infinity),
        Position::Affine { x, y } => if y == 0 {
            Ok(Position::Infinity)
        } else if residue(c.modulus, (2 * y) as int) == 0 {
            Err(GroupLawError::DivisionByZero)
        } else {
            Ok(third_point(c.modulus, tangent_slope(c, x, y), x, y, x))
        },
    }
}

/// The sum of two positions. The point at infinity is neutral; a point
/// added to itself is doubled; two points of one abscissa and opposite
/// ordinates add up to the point at infinity; two points of one abscissa
/// otherwise, which cannot both lie on a curve over a field, are refused;
/// elsewhere the chord rule applies.
pub open spec fn add_positions(c: CurveModel, first: Position, second: Position) -> Result<
    Position,
    GroupLawError,
> {
    match (first, second) {
        (Position::Infinity, _) => Ok(second),
        (_, Position::Infinity) => Ok(first),
        (Position::Affine { x: x1, y: y1 }, Position::Affine { x: x2, y: y2 }) => if x1 == x2 {
            if y1 == y2 {
                double_position(c, first)
            } else if residue(c.modulus, (y1 + y2) as int) == 0 {
                Ok(Position::Infinity)
            } else {
                Err(GroupLawError::DivisionByZero)
            }
        } else {
            Ok(third_point(c.modulus, chord_slope(c.modulus, x1, y1, x2, y2), x1, y1, x2))
        },
    }
}

/// The affine position `(x, y)`, refused unless it satisfies the curve
/// equation.
pub open spec fn checked_position(c: CurveModel, x: nat, y: nat) -> Result<
    Position,
    GroupLawError,
> {
    if on_curve(c, x, y) {
        Ok(Position::Affine { x, y })
    } else {
        Err(GroupLawError::InvalidCurvePoint)
    }
}

/// The curve whose coefficient is the given field element.
pub open spec fn curve_of(a: ResidueClass) -> CurveModel {
    CurveModel { modulus: a.modulus, a: a.value }
}

/// The affine position of two field elements, refused unless both belong
/// to the field of the coefficient `a`.
pub open spec fn joined_position(x: ResidueClass, y: ResidueClass, a: ResidueClass) -> Result<
    Position,
    GroupLawError,
> {
    if x.modulus == a.modulus && y.modulus == a.modulus {
        Ok(Position::Affine { x: x.value, y: y.value })
    } else {
        Err(GroupLawError::MismatchedModulus)
    }
}

/// The field element at an affine position's abscissa, nothing at
/// infinity.
pub open spec fn abscissa_of(point: PointModel) -> Option<ResidueClass> {
    match point.position {
        Position::Infinity => None,
        Position::Affine { x, y } => Some(ResidueClass { value: x, modulus: point.curve.modulus }),
    }
}

/// The field element at an affine position's ordinate, nothing at
/// infinity.
pub open spec fn ordinate_of(point: PointModel) -> Option<ResidueClass> {
    match point.position {
        Position::Infinity => None,
        Position::Affine { x, y } => Some(ResidueClass { value: y, modulus: point.curve.modulus }),
    }
}

/// The curve `y^2 = x^3 + A x` over a field.
#[derive(Debug)]
pub struct EllipticCurve {
    field: FiniteField,
    a: FiniteFieldElement,
}

/// A point of a curve, carrying the curve's coefficient.
#[derive(Debug)]
pub struct EllipticCurvePoint {
    x: FiniteFieldElement,
    y: FiniteFieldElement,
    a: FiniteFieldElement,
    infinity: bool,
}

/// Whether the outcome of a curve operation is the point of curve `c` at
/// the expected position, or the expected refusal.
pub open spec fn outcome_is(
    outcome: Result<EllipticCurvePoint, GroupLawError>,
    c: CurveModel,
    expected: Result<Position, GroupLawError>,
) -> bool {
    match expected {
        Ok(position) => outcome is Ok && outcome->Ok_0@ == (PointModel { curve: c, position }),
        Err(e) => outcome is Err && outcome->Err_0 == e,
    }
}

impl View for EllipticCurve {
    type V = CurveModel;

    closed spec fn view(&self) -> CurveModel {
        CurveModel { modulus: self.field@, a: self.a@.value }
    }
}

impl Clone for EllipticCurve {
    fn clone(&self) -> (r: Self)
        ensures
            r@ == self@,
    {
        proof {
            use_type_invariant(self);
        }
        EllipticCurve { field: self.field.clone(), a: self.a.clone() }
    }
}

impl EllipticCurve {
    #[verifier::type_invariant]
    spec fn coherent(self) -> bool {
        self.a@.modulus == self.field@
    }

    /// The curve over `field` whose coefficient is the residue of `a`.
    pub fn new(field: FiniteField, a: Natural) -> (curve: EllipticCurve)
        ensures
            curve@ == (CurveModel { modulus: field@, a: residue(field@, a@ as int) }),
    {
        let a_element = field.element(a);
        EllipticCurve { field, a: a_element }
    }

    /// The field of the curve.
    pub fn field(&self) -> (f: &FiniteField)
        ensures
            f@ == self@.modulus,
    {
        &self.field
    }

    /// The coefficient `A` of the curve.
    pub fn a(&self) -> (a: &FiniteFieldElement)
        ensures
            a@ == (ResidueClass { value: self@.a, modulus: self@.modulus }),
    {
        proof {
            use_type_invariant(self);
        }
        &self.a
    }

    /// Whether the coefficient is nonzero, as a curve of this family must
    /// have it to be nonsingular.
    pub fn is_nonsingular(&self) -> (r: bool)
        ensures
            r == (self@.a != 0),
    {
        !self.a.is_zero()
    }

    /// The point whose coordinates are the residues of `x` and `y`. It is
    /// not checked against the curve equation.
    pub fn point(&self, x: Natural, y: Natural) -> (point: EllipticCurvePoint)
        ensures
            point@ == (PointModel {
                curve: self@,
                position: Position::Affine {
                    x: residue(self@.modulus, x@ as int),
                    y: residue(self@.modulus, y@ as int),
                },
            }),
    {
        proof {
            use_type_invariant(self);
        }
        EllipticCurvePoint {
            x: self.field.element(x),
            y: self.field.element(y),
            a: self.a.clone(),
            infinity: false,
        }
    }

    /// The point at infinity of the curve.
    pub fn identity(&self) -> (point: EllipticCurvePoint)
        ensures
            point@ == (PointModel { curve: self@, position: Position::Infinity }),
    {
        proof {
            use_type_invariant(self);
        }
        EllipticCurvePoint {
            x: self.field.element(Natural::from_u64(0)),
            y: self.field.element(Natural::from_u64(0)),
            a: self.a.clone(),
            infinity: true,
        }
    }

    /// Whether the residues of `x` and `y` satisfy the curve equation.
    pub fn contains(&self, x: &Natural, y: &Natural) -> (r: bool)
        ensures
            r == on_curve(
                self@,
                residue(self@.modulus, x@ as int),
                residue(self@.modulus, y@ as int),
            ),
    {
        self.point(x.clone(), y.clone()).is_on_curve()
    }

    /// The point whose coordinates are the residues of `x` and `y`,
    /// refused unless it satisfies the curve equation.
    pub fn checked_point(&self, x: Natural, y: Natural) -> (r: Result<
        EllipticCurvePoint,
        GroupLawError,
    >)
        ensures
            outcome_is(
                r,
                self@,
                checked_position(
                    self@,
                    residue(self@.modulus, x@ as int),
                    residue(self@.modulus, y@ as int),
                ),
            ),
    {
        let point = self.point(x, y);
        if point.is_on_curve() {
            Ok(point)
        } else {
            Err(GroupLawError::InvalidCurvePoint)
        }
    }
}

impl View for EllipticCurvePoint {
    type V = PointModel;

    closed spec fn view(&self) -> PointModel {
        PointModel {
            curve: CurveModel { modulus: self.a@.modulus, a: self.a@.value },
            position: if self.infinity {
                Position::Infinity
            } else {
                Position::Affine { x: self.x@.value, y: self.y@.value }
            },
        }
    }
}

impl Clone for EllipticCurvePoint {
    fn clone(&self) -> (r: Self)
        ensures
            r@ == self@,
    {
        proof {
            use_type_invariant(self);
        }
        EllipticCurvePoint {
            x: self.x.clone(),
            y: self.y.clone(),
            a: self.a.clone(),
            infinity: self.infinity,
        }
    }
}

impl PartialEq for EllipticCurvePoint {
    /// Two points are equal when they lie on one curve at one position.
    fn eq(&self, other: &Self) -> (r: bool) {
        if !self.a.eq(&other.a) {
            false
        } else if self.infinity || other.infinity {
            self.infinity && other.infinity
        } else {
            self.x.value().same_value(other.x.value()) && self.y.value().same_value(
                other.y.value(),
            )
        }
    }
}

impl vstd::std_specs::cmp::PartialEqSpecImpl for EllipticCurvePoint {
    open spec fn obeys_eq_spec() -> bool {
        true
    }

    open spec fn eq_spec(&self, other: &Self) -> bool {
        self@ == other@
    }
}

impl EllipticCurvePoint {
    #[verifier::type_invariant]
    spec fn coherent(self) -> bool {
        self.x@.modulus == self.a@.modulus && self.y@.modulus == self.a@.modulus
    }

    /// The affine point `(x, y)` of the curve of coefficient `a`, refused
    /// unless the three elements belong to one field.
    pub fn new(x: FiniteFieldElement, y: FiniteFieldElement, a: FiniteFieldElement) -> (r: Result<
        EllipticCurvePoint,
        GroupLawError,
    >)
        ensures
            outcome_is(r, curve_of(a@), joined_position(x@, y@, a@)),
    {
        if x.modulus().same_value(a.modulus()) && y.modulus().same_value(a.modulus()) {
            Ok(EllipticCurvePoint { x, y, a, infinity: false })
        } else {
            Err(GroupLawError::MismatchedModulus)
        }
    }

    /// Whether this is the point at infinity.
    pub fn is_infinity(&self) -> (r: bool)
        ensures
            r == (self@.position == Position::Infinity),
    {
        self.infinity
    }

    /// The abscissa of an affine point; nothing for the point at infinity.
    pub fn x(&self) -> (r: Option<&FiniteFieldElement>)
        ensures
            r is Some <==> abscissa_of(self@) is Some,
            r is Some ==> r->Some_0@ == abscissa_of(self@)->Some_0,
    {
        proof {
            use_type_invariant(self);
        }
        if self.infinity {
            None
        } else {
            Some(&self.x)
        }
    }

    /// The ordinate of an affine point; nothing for the point at infinity.
    pub fn y(&self) -> (r: Option<&FiniteFieldElement>)
        ensures
            r is Some <==> ordinate_of(self@) is Some,
            r is Some ==> r->Some_0@ == ordinate_of(self@)->Some_0,
    {
        proof {
            use_type_invariant(self);
        }
        if self.infinity {
            None
        } else {
            Some(&self.y)
        }
    }

    /// The coefficient of the curve that the point belongs to.
    pub fn a(&self) -> (a: &FiniteFieldElement)
        ensures
            a@ == (ResidueClass { value: self@.curve.a, modulus: self@.curve.modulus }),
    {
        &self.a
    }

    /// Whether the point is the point at infinity or satisfies the
    /// equation of its curve.
    pub fn is_on_curve(&self) -> (r: bool)
        ensures
            r == position_on_curve(self@.curve, self@.position),
    {
        proof {
            use_type_invariant(self);
        }
        if self.infinity {
            return true;
        }
        let left = self.y.mul(&self.y).unwrap();
        let square = self.x.mul(&self.x).unwrap();
        let cube = square.mul(&self.x).unwrap();
        let linear = self.a.mul(&self.x).unwrap();
        let right = cube.add(&linear).unwrap();
        let modulus = self.a.modulus();
        proof {
            let p = self.a@.modulus;
            let x = self.x@.value as int;
            let a = self.a@.value as int;
            lemma_residue_absorbs(p, x * x, x);
            lemma_residue_absorbs(p, x * x * x, residue(p, a * x) as int);
            lemma_residue_absorbs(p, x * x * x, a * x);
            lemma_residue_absorbs(p, residue(p, x * x * x) as int, residue(p, a * x) as int);
        }
        left.value().same_value(right.value())
    }

    /// The point opposite the third intersection of the curve with the
    /// line of the given slope through `(x1, y1)` and a point of abscissa
    /// `x2`.
    fn third(
        slope: &FiniteFieldElement,
        x1: &FiniteFieldElement,
        y1: &FiniteFieldElement,
        x2: &FiniteFieldElement,
        a: &FiniteFieldElement,
    ) -> (point: EllipticCurvePoint)
        requires
            slope@.modulus == a@.modulus,
            x1@.modulus == a@.modulus,
            y1@.modulus == a@.modulus,
            x2@.modulus == a@.modulus,
        ensures
            point@ == (PointModel {
                curve: curve_of(a@),
                position: third_point(
                    a@.modulus,
                    slope@.value,
                    x1@.value,
                    y1@.value,
                    x2@.value,
                ),
            }),
    {
        let m = a.modulus();
        let square = slope.mul(slope).unwrap();
        let x3 = square.sub(x1).unwrap().sub(x2).unwrap();
        let y3 = slope.mul(&x1.sub(&x3).unwrap()).unwrap().sub(y1).unwrap();
        proof {
            let p = a@.modulus;
            let s = slope@.value as int;
            let u1 = x1@.value as int;
            let v1 = y1@.value as int;
            let u2 = x2@.value as int;
            lemma_residue_absorbs(p, s * s, u1);
            lemma_residue_absorbs(p, s * s - u1, u2);
            lemma_residue_absorbs(p, s, u1 - x3@.value);
            lemma_residue_absorbs(p, s * (u1 - x3@.value), v1);
        }
        EllipticCurvePoint { x: x3, y: y3, a: a.clone(), infinity: false }
    }

    /// The point at infinity of the curve of coefficient `a`.
    fn infinity_of(a: &FiniteFieldElement) -> (point: EllipticCurvePoint)
        ensures
            point@ == (PointModel {
                curve: curve_of(a@),
                position: Position::Infinity,
            }),
    {
        let zero = FiniteFieldElement::new(Natural::from_u64(0), a.modulus().clone());
        EllipticCurvePoint { x: zero.clone(), y: zero, a: a.clone(), infinity: true }
    }

    /// Twice the point.
    pub fn double(&self) -> (r: Result<EllipticCurvePoint, GroupLawError>)
        ensures
            outcome_is(r, self@.curve, double_position(self@.curve, self@.position)),
    {
        proof {
            use_type_invariant(self);
        }
        if self.infinity || self.y.is_zero() {
            return Ok(Self::infinity_of(&self.a));
        }
        let modulus = self.a.modulus();
        let two = FiniteFieldElement::new(Natural::from_u64(2), modulus.clone());
        let three = FiniteFieldElement::new(Natural::from_u64(3), modulus.clone());
        let denominator = two.mul(&self.y).unwrap();
        proof {
            lemma_small_mod(2, modulus@);
            lemma_small_mod(3, modulus@);
        }
        if denominator.is_zero() {
            return Err(GroupLawError::DivisionByZero);
        }
        let numerator = self.x.mul(&self.x).unwrap().mul(&three).unwrap().add(&self.a).unwrap();
        let slope = numerator.mul(&denominator.inv().unwrap()).unwrap();
        proof {
            let p = self.a@.modulus;
            let x = self.x@.value as int;
            let a = self.a@.value as int;
            lemma_residue_absorbs(p, x * x, 3);
            lemma_residue_absorbs(p, x * x * 3, a);
            assert(x * x * 3 == 3 * (x * x));
        }
        Ok(Self::third(&slope, &self.x, &self.y, &self.x, &self.a))
    }

    /// The sum of two points of one curve.
    pub fn add(&self, other: &Self) -> (r: Result<EllipticCurvePoint, GroupLawError>)
        ensures
            self@.curve.modulus != other@.curve.modulus ==> outcome_is(
                r,
                self@.curve,
                Err(GroupLawError::MismatchedModulus),
            ),
            self@.curve.modulus == other@.curve.modulus && self@.curve.a != other@.curve.a
                ==> outcome_is(r, self@.curve, Err(GroupLawError::MismatchedCurve)),
            self@.curve == other@.curve ==> outcome_is(
                r,
                self@.curve,
                add_positions(self@.curve, self@.position, other@.position),
            ),
    {
        proof {
            use_type_invariant(self);
            use_type_invariant(other);
        }
        if !self.a.modulus().same_value(other.a.modulus()) {
            return Err(GroupLawError::MismatchedModulus);
        }
        if !self.a.value().same_value(other.a.value()) {
            return Err(GroupLawError::MismatchedCurve);
        }
        if self.infinity {
            return Ok(other.clone());
        }
        if other.infinity {
            return Ok(self.clone());
        }
        if self.x.value().same_value(other.x.value()) {
            if self.y.value().same_value(other.y.value()) {
                return self.double();
            }
            let sum = self.y.add(&other.y).unwrap();
            if sum.is_zero() {
                return Ok(Self::infinity_of(&self.a));
            }
            return Err(GroupLawError::DivisionByZero);
        }
        let rise = other.y.sub(&self.y).unwrap();
        let run = other.x.sub(&self.x).unwrap();
        proof {
            let p = self.a@.modulus as int;
            let d = other.x@.value - self.x@.value;
            if d > 0 {
                lemma_small_mod(d as nat, p as nat);
            } else {
                vstd::arithmetic::div_mod::lemma_mod_add_multiples_vanish(d, p);
                lemma_small_mod((p + d) as nat, p as nat);
            }
        }
        let slope = rise.mul(&run.inv().unwrap()).unwrap();
        Ok(Self::third(&slope, &self.x, &self.y, &other.x, &self.a))
    }
}

} // verus!
