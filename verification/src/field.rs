//! A field of integers modulo `p` and its elements.
//!
//! Every operation is stated over the residues as natural numbers: the
//! spec functions `field_add`, `field_sub`, `field_mul` and `field_inv`
//! say what each operation computes, for any modulus. That `field_inv`
//! yields a multiplicative inverse is a theorem about prime moduli, proved
//! in `field_laws`.

use crate::natural::Natural;
use vstd::arithmetic::div_mod::{lemma_mod_add_multiples_vanish, lemma_mod_bound};
use vstd::arithmetic::power::pow;
use vstd::prelude::*;

verus! {

/// Why a field operation was refused.
#[derive(Debug, Clone, Copy, PartialEq, Eq, Structural)]
pub enum FieldError {
    /// The operands belong to fields of different moduli.
    MismatchedModulus,
    /// The inverse of zero was asked for.
    DivisionByZero,
}

/// The residue of an integer modulo `p`, between 0 and `p - 1`.
pub open spec fn residue(p: nat, v: int) -> nat {
    (v % (p as int)) as nat
}

/// The sum of two residues modulo `p`.
pub open spec fn field_add(p: nat, a: nat, b: nat) -> nat {
    residue(p, (a + b) as int)
}

/// The difference of two residues modulo `p`.
pub open spec fn field_sub(p: nat, a: nat, b: nat) -> nat {
    residue(p, a - b)
}

/// The product of two residues modulo `p`.
pub open spec fn field_mul(p: nat, a: nat, b: nat) -> nat {
    residue(p, (a * b) as int)
}

/// The power `a^(p-2)` modulo `p`: for a prime `p` and `a` not divisible
/// by it, the multiplicative inverse of `a`.
pub open spec fn field_inv(p: nat, a: nat) -> nat {
    residue(p, pow(a as int, (p - 2) as nat))
}

/// What a field element is: a residue and the modulus it is reduced by.
pub struct ResidueClass {
    pub value: nat,
    pub modulus: nat,
}

/// The field of integers modulo `modulus`, which is at least 5.
#[derive(Debug)]
pub struct FiniteField {
    modulus: Natural,
}

/// An element of a field: a value below the field's modulus.
#[derive(Debug)]
pub struct FiniteFieldElement {
    value: Natural,
    modulus: Natural,
}

impl View for FiniteField {
    type V = nat;

    /// The modulus of the field.
    closed spec fn view(&self) -> nat {
        self.modulus@
    }
}

impl Clone for FiniteField {
    fn clone(&self) -> (r: Self)
        ensures
            r@ == self@,
    {
        proof {
            use_type_invariant(self);
        }
        FiniteField { modulus: self.modulus.clone() }
    }
}

impl FiniteField {
    #[verifier::type_invariant]
    spec fn large_enough(self) -> bool {
        self.modulus@ >= 5
    }

    /// The field of integers modulo `modulus`.
    pub fn new(modulus: Natural) -> (field: FiniteField)
        requires
            modulus@ >= 5,
        ensures
            field@ == modulus@,
    {
        FiniteField { modulus }
    }

    /// The modulus of the field.
    pub fn modulus(&self) -> (m: &Natural)
        ensures
            m@ == self@,
            m@ >= 5,
    {
        proof {
            use_type_invariant(self);
        }
        &self.modulus
    }

    /// The element that `value` reduces to.
    pub fn element(&self, value: Natural) -> (e: FiniteFieldElement)
        ensures
            e@ == (ResidueClass { value: residue(self@, value@ as int), modulus: self@ }),
    {
        proof {
            use_type_invariant(self);
        }
        FiniteFieldElement::new(value, self.modulus.clone())
    }
}

impl View for FiniteFieldElement {
    type V = ResidueClass;

    closed spec fn view(&self) -> ResidueClass {
        ResidueClass { value: self.value@, modulus: self.modulus@ }
    }
}

impl Clone for FiniteFieldElement {
    fn clone(&self) -> (r: Self)
        ensures
            r@ == self@,
    {
        proof {
            use_type_invariant(self);
        }
        FiniteFieldElement { value: self.value.clone(), modulus: self.modulus.clone() }
    }
}

impl PartialEq for FiniteFieldElement {
    /// Two elements are equal when both their values and their moduli are.
    fn eq(&self, other: &Self) -> (r: bool) {
        self.value.same_value(&other.value) && self.modulus.same_value(&other.modulus)
    }
}

impl vstd::std_specs::cmp::PartialEqSpecImpl for FiniteFieldElement {
    open spec fn obeys_eq_spec() -> bool {
        true
    }

    open spec fn eq_spec(&self, other: &Self) -> bool {
        self@ == other@
    }
}

impl FiniteFieldElement {
    #[verifier::type_invariant]
    spec fn reduced(self) -> bool {
        self.value@ < self.modulus@ && self.modulus@ >= 5
    }

    /// The element of the field modulo `modulus` that `value` reduces to.
    pub fn new(value: Natural, modulus: Natural) -> (e: FiniteFieldElement)
        requires
            modulus@ >= 5,
        ensures
            e@ == (ResidueClass { value: residue(modulus@, value@ as int), modulus: modulus@ }),
    {
        let value = value.remainder(&modulus);
        proof {
            lemma_mod_bound(value@ as int, modulus@ as int);
        }
        FiniteFieldElement { value, modulus }
    }

    /// The value of the element, below its modulus.
    pub fn value(&self) -> (v: &Natural)
        ensures
            v@ == self@.value,
            v@ < self@.modulus,
    {
        proof {
            use_type_invariant(self);
        }
        &self.value
    }

    /// The modulus of the element's field.
    pub fn modulus(&self) -> (m: &Natural)
        ensures
            m@ == self@.modulus,
            m@ >= 5,
    {
        proof {
            use_type_invariant(self);
        }
        &self.modulus
    }

    /// Whether the element is the zero of its field.
    pub fn is_zero(&self) -> (r: bool)
        ensures
            r == (self@.value == 0),
    {
        self.value.is_zero()
    }

    /// The sum of two elements of one field.
    pub fn add(&self, other: &Self) -> (r: Result<FiniteFieldElement, FieldError>)
        ensures
            self@.modulus != other@.modulus ==> r == Err::<FiniteFieldElement, FieldError>(
                FieldError::MismatchedModulus,
            ),
            self@.modulus == other@.modulus ==> r is Ok && r->Ok_0@ == (ResidueClass {
                value: field_add(self@.modulus, self@.value, other@.value),
                modulus: self@.modulus,
            }),
    {
        proof {
            use_type_invariant(self);
            use_type_invariant(other);
        }
        if !self.modulus.same_value(&other.modulus) {
            return Err(FieldError::MismatchedModulus);
        }
        let sum = self.value.plus(&other.value);
        let value = sum.remainder(&self.modulus);
        proof {
            lemma_mod_bound(sum@ as int, self.modulus@ as int);
        }
        Ok(FiniteFieldElement { value, modulus: self.modulus.clone() })
    }

    /// The difference of two elements of one field.
    pub fn sub(&self, other: &Self) -> (r: Result<FiniteFieldElement, FieldError>)
        ensures
            self@.modulus != other@.modulus ==> r == Err::<FiniteFieldElement, FieldError>(
                FieldError::MismatchedModulus,
            ),
            self@.modulus == other@.modulus ==> r is Ok && r->Ok_0@ == (ResidueClass {
                value: field_sub(self@.modulus, self@.value, other@.value),
                modulus: self@.modulus,
            }),
    {
        proof {
            use_type_invariant(self);
            use_type_invariant(other);
        }
        if !self.modulus.same_value(&other.modulus) {
            return Err(FieldError::MismatchedModulus);
        }
        let lifted = self.value.plus(&self.modulus);
        let difference = lifted.minus(&other.value);
        let value = difference.remainder(&self.modulus);
        proof {
            lemma_mod_bound(difference@ as int, self.modulus@ as int);
            lemma_mod_add_multiples_vanish(self.value@ - other.value@, self.modulus@ as int);
        }
        Ok(FiniteFieldElement { value, modulus: self.modulus.clone() })
    }

    /// The product of two elements of one field.
    pub fn mul(&self, other: &Self) -> (r: Result<FiniteFieldElement, FieldError>)
        ensures
            self@.modulus != other@.modulus ==> r == Err::<FiniteFieldElement, FieldError>(
                FieldError::MismatchedModulus,
            ),
            self@.modulus == other@.modulus ==> r is Ok && r->Ok_0@ == (ResidueClass {
                value: field_mul(self@.modulus, self@.value, other@.value),
                modulus: self@.modulus,
            }),
    {
        proof {
            use_type_invariant(self);
            use_type_invariant(other);
        }
        if !self.modulus.same_value(&other.modulus) {
            return Err(FieldError::MismatchedModulus);
        }
        let product = self.value.times(&other.value);
        let value = product.remainder(&self.modulus);
        proof {
            lemma_mod_bound(product@ as int, self.modulus@ as int);
        }
        Ok(FiniteFieldElement { value, modulus: self.modulus.clone() })
    }

    /// The power `self^(p-2)` in the field modulo `p`, refused for zero.
    pub fn inv(&self) -> (r: Result<FiniteFieldElement, FieldError>)
        ensures
            self@.value == 0 ==> r == Err::<FiniteFieldElement, FieldError>(
                FieldError::DivisionByZero,
            ),
            self@.value != 0 ==> r is Ok && r->Ok_0@ == (ResidueClass {
                value: field_inv(self@.modulus, self@.value),
                modulus: self@.modulus,
            }),
    {
        proof {
            use_type_invariant(self);
        }
        if self.value.is_zero() {
            return Err(FieldError::DivisionByZero);
        }
        let two = Natural::from_u64(2);
        let exponent = self.modulus.minus(&two);
        let value = self.value.power_mod(&exponent, &self.modulus);
        proof {
            lemma_mod_bound(pow(self.value@ as int, exponent@), self.modulus@ as int);
        }
        Ok(FiniteFieldElement { value, modulus: self.modulus.clone() })
    }
}

} // verus!
