//! What holds of the field operations: that they agree with integer
//! arithmetic on unreduced operands, and that `field_inv` inverts.

use crate::field::{field_add, field_inv, field_mul, field_sub, residue};
use crate::number_theory::{is_prime, lemma_fermat_unit, lemma_pow_step};
use vstd::arithmetic::div_mod::{
    lemma_add_mod_noop, lemma_mod_bound, lemma_mod_twice, lemma_mul_mod_noop_general,
    lemma_small_mod, lemma_sub_mod_noop,
};
use vstd::arithmetic::power::pow;
use vstd::prelude::*;

verus! {

/// Reducing two integers and adding them in the field gives the residue
/// of their sum.
pub proof fn lemma_add_of_residues(p: nat, a: int, b: int)
    requires
        p > 0,
    ensures
        field_add(p, residue(p, a), residue(p, b)) == residue(p, a + b),
{
    lemma_mod_bound(a, p as int);
    lemma_mod_bound(b, p as int);
    lemma_add_mod_noop(a, b, p as int);
}

/// Reducing two integers and subtracting them in the field gives the
/// residue of their difference.
pub proof fn lemma_sub_of_residues(p: nat, a: int, b: int)
    requires
        p > 0,
    ensures
        field_sub(p, residue(p, a), residue(p, b)) == residue(p, a - b),
{
    lemma_mod_bound(a, p as int);
    lemma_mod_bound(b, p as int);
    lemma_sub_mod_noop(a, b, p as int);
}

/// Reducing two integers and multiplying them in the field gives the
/// residue of their product.
pub proof fn lemma_mul_of_residues(p: nat, a: int, b: int)
    requires
        p > 0,
    ensures
        field_mul(p, residue(p, a), residue(p, b)) == residue(p, a * b),
{
    lemma_mod_bound(a, p as int);
    lemma_mod_bound(b, p as int);
    lemma_mul_mod_noop_general(a, b, p as int);
}

/// A residue is below the modulus, and reducing it again changes nothing.
pub proof fn lemma_residue_reduced(p: nat, v: int)
    requires
        p > 0,
    ensures
        residue(p, v) < p,
        residue(p, residue(p, v) as int) == residue(p, v),
{
    lemma_mod_bound(v, p as int);
    lemma_mod_twice(v, p as int);
}

/// A residue inside a sum, a difference or a product can be replaced by
/// the integer it was reduced from.
pub proof fn lemma_residue_absorbs(p: nat, u: int, v: int)
    requires
        p > 0,
    ensures
        residue(p, residue(p, u) + v) == residue(p, u + v),
        residue(p, u + residue(p, v)) == residue(p, u + v),
        residue(p, residue(p, u) - v) == residue(p, u - v),
        residue(p, u - residue(p, v)) == residue(p, u - v),
        residue(p, residue(p, u) * v) == residue(p, u * v),
        residue(p, u * residue(p, v)) == residue(p, u * v),
{
    let m = p as int;
    lemma_mod_bound(u, m);
    lemma_mod_bound(v, m);
    lemma_add_mod_noop(u, v, m);
    lemma_add_mod_noop(u % m, v, m);
    lemma_add_mod_noop(u, v % m, m);
    lemma_sub_mod_noop(u, v, m);
    lemma_sub_mod_noop(u % m, v, m);
    lemma_sub_mod_noop(u, v % m, m);
    lemma_mod_twice(u, m);
    lemma_mod_twice(v, m);
    lemma_mul_mod_noop_general(u, v, m);
}

/// In a field of prime modulus, every nonzero element times its inverse
/// is 1.
pub proof fn lemma_inverse_cancels(p: nat, a: nat)
    requires
        is_prime(p),
        0 < a < p,
    ensures
        field_mul(p, a, field_inv(p, a)) == 1,
        field_mul(p, field_inv(p, a), a) == 1,
{
    let pi = p as int;
    let ai = a as int;
    let e = (p - 2) as nat;
    let t = pow(ai, e);
    lemma_mod_bound(t, pi);
    lemma_small_mod(a, p);
    lemma_fermat_unit(p, a);
    lemma_pow_step(ai, e);
    assert(pow(ai, (p - 1) as nat) == ai * t);
    lemma_mul_mod_noop_general(ai, t, pi);
    assert(ai * (t % pi) == (t % pi) * ai) by (nonlinear_arith);
}

} // verus!
