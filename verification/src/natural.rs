//! Arbitrary-precision natural numbers.
//!
//! A `Natural` keeps its base-2^32 limbs, least significant first, and its
//! view is the number those limbs spell. The arithmetic itself is done by
//! `num_bigint::BigUint`; the functions that hand limbs to it and take limbs
//! back are the only unproved code in this module.

use num_bigint::BigUint;
use vstd::arithmetic::power::pow;
use vstd::prelude::*;

verus! {

/// The number spelled by base-2^32 limbs, least significant limb first.
pub open spec fn limbs_value(limbs: Seq<u32>) -> nat
    decreases limbs.len(),
{
    if limbs.len() == 0 {
        0
    } else {
        limbs[0] as nat + 0x1_0000_0000 * limbs_value(limbs.drop_first())
    }
}

/// A natural number of any size.
#[derive(Debug)]
pub struct Natural {
    limbs: Vec<u32>,
}

impl View for Natural {
    type V = nat;

    closed spec fn view(&self) -> nat {
        limbs_value(self.limbs@)
    }
}

impl Clone for Natural {
    fn clone(&self) -> (r: Self)
        ensures
            r@ == self@,
    {
        let limbs = self.limbs.clone();
        assert(limbs@ =~= self.limbs@);
        Natural { limbs }
    }
}

impl PartialEq for Natural {
    /// Two naturals are equal when they are the same number, however many
    /// leading zero limbs either carries.
    fn eq(&self, other: &Self) -> (r: bool) {
        self.same_value(other)
    }
}

impl vstd::std_specs::cmp::PartialEqSpecImpl for Natural {
    open spec fn obeys_eq_spec() -> bool {
        true
    }

    open spec fn eq_spec(&self, other: &Self) -> bool {
        self@ == other@
    }
}

impl Natural {
    /// The natural with the given limbs, least significant first.
    pub fn from_limbs(limbs: Vec<u32>) -> (r: Natural)
        ensures
            r@ == limbs_value(limbs@),
    {
        Natural { limbs }
    }

    /// The limbs of this natural, least significant first.
    pub fn limbs(&self) -> (r: &Vec<u32>)
        ensures
            limbs_value(r@) == self@,
    {
        &self.limbs
    }

    /// The natural equal to a machine integer.
    pub fn from_u64(x: u64) -> (r: Natural)
        ensures
            r@ == x as nat,
    {
        let low: u32 = (x % 0x1_0000_0000) as u32;
        let high: u32 = (x / 0x1_0000_0000) as u32;
        let mut limbs: Vec<u32> = Vec::new();
        limbs.push(low);
        limbs.push(high);
        proof {
            let s = limbs@;
            let t = s.drop_first();
            assert(t.len() == 1 && t[0] == high);
            assert(t.drop_first().len() == 0);
            assert(limbs_value(t.drop_first()) == 0);
            assert(limbs_value(t) == high as nat);
            assert(limbs_value(s) == low as nat + 0x1_0000_0000 * (high as nat));
        }
        Natural { limbs }
    }

    /// Whether this natural is zero.
    pub fn is_zero(&self) -> (r: bool)
        ensures
            r == (self@ == 0),
    {
        let zero = Natural::from_u64(0);
        self.same_value(&zero)
    }

    /// Calls `BigUint`'s `==` on the two numbers. `BigUint::from_slice`
    /// drops leading zero limbs, and `==` then compares limb by limb, so
    /// the answer is whether the two numbers are the same.
    #[verifier::external_body]
    pub(crate) fn same_value(&self, other: &Natural) -> (r: bool)
        ensures
            r == (self@ == other@),
    {
        BigUint::from_slice(&self.limbs) == BigUint::from_slice(&other.limbs)
    }

    /// Calls `BigUint`'s `+`: the result is the sum of the two numbers.
    #[verifier::external_body]
    pub(crate) fn plus(&self, other: &Natural) -> (r: Natural)
        ensures
            r@ == self@ + other@,
    {
        let sum = BigUint::from_slice(&self.limbs) + BigUint::from_slice(&other.limbs);
        Natural { limbs: sum.to_u32_digits() }
    }

    /// Calls `BigUint`'s `-`, which panics when the result would be
    /// negative: that case is excluded. Otherwise the result is the
    /// difference of the two numbers.
    #[verifier::external_body]
    pub(crate) fn minus(&self, other: &Natural) -> (r: Natural)
        requires
            other@ <= self@,
        ensures
            r@ == self@ - other@,
    {
        let difference = BigUint::from_slice(&self.limbs) - BigUint::from_slice(&other.limbs);
        Natural { limbs: difference.to_u32_digits() }
    }

    /// Calls `BigUint`'s `*`: the result is the product of the two numbers.
    #[verifier::external_body]
    pub(crate) fn times(&self, other: &Natural) -> (r: Natural)
        ensures
            r@ == self@ * other@,
    {
        let product = BigUint::from_slice(&self.limbs) * BigUint::from_slice(&other.limbs);
        Natural { limbs: product.to_u32_digits() }
    }

    /// Calls `BigUint`'s `%`, which panics on a zero divisor: that case is
    /// excluded. Otherwise the result is the remainder of the division.
    #[verifier::external_body]
    pub(crate) fn remainder(&self, modulus: &Natural) -> (r: Natural)
        requires
            modulus@ > 0,
        ensures
            r@ == self@ % modulus@,
    {
        let rest = BigUint::from_slice(&self.limbs) % BigUint::from_slice(&modulus.limbs);
        Natural { limbs: rest.to_u32_digits() }
    }

    /// Calls `BigUint::modpow`, documented to return
    /// `(self ^ exponent) % modulus` and to panic on a zero modulus: that
    /// case is excluded.
    #[verifier::external_body]
    pub(crate) fn power_mod(&self, exponent: &Natural, modulus: &Natural) -> (r: Natural)
        requires
            modulus@ > 0,
        ensures
            r@ == pow(self@ as int, exponent@) % (modulus@ as int),
    {
        let base = BigUint::from_slice(&self.limbs);
        let raised = base.modpow(
            &BigUint::from_slice(&exponent.limbs),
            &BigUint::from_slice(&modulus.limbs),
        );
        Natural { limbs: raised.to_u32_digits() }
    }
}

} // verus!
