//! Small primes by trial division: the factor base is drawn from here.

use crate::number_theory::is_prime;
use vstd::arithmetic::div_mod::{
    lemma_fundamental_div_mod, lemma_mod_bound, lemma_mod_multiples_basic,
};
use vstd::prelude::*;

verus! {

/// Whether `q` is the least prime above `l`.
pub open spec fn is_next_prime(l: nat, q: nat) -> bool {
    &&& l < q
    &&& is_prime(q)
    &&& forall|j: nat| l < j < q ==> !#[trigger] is_prime(j)
}

/// A number with no divisor `k` such that `1 < k` and `k * k <= n` has no
/// divisor strictly between 1 and itself.
proof fn lemma_no_small_divisor_no_divisor(n: nat, d: nat)
    requires
        n >= 2,
        d >= 2,
        d * d > n,
        forall|k: nat| 1 < k < d ==> #[trigger] (n % k) != 0,
    ensures
        is_prime(n),
{
    assert forall|k: nat| 1 < k < n implies #[trigger] (n % k) != 0 by {
        if k >= d && n % k == 0 {
            let ni = n as int;
            let ki = k as int;
            let j = ni / ki;
            lemma_fundamental_div_mod(ni, ki);
            assert(ni == ki * j);
            assert(j > 1 && j < d) by (nonlinear_arith)
                requires
                    ni == ki * j,
                    1 < ki < ni,
                    ki >= d,
                    d * d > ni,
                    d >= 2,
            ;
            assert(ni == j * ki) by (nonlinear_arith)
                requires
                    ni == ki * j,
            ;
            lemma_mod_multiples_basic(ki, j);
            assert(n % (j as nat) == 0);
        }
    }
}

/// Whether `n` is prime, by trial division.
pub fn is_small_prime(n: u64) -> (r: bool)
    ensures
        r == is_prime(n as nat),
{
    if n < 2 {
        return false;
    }
    let mut d: u64 = 2;
    while d <= n / d
        invariant
            n >= 2,
            2 <= d <= n,
            forall|k: nat| 1 < k < d ==> #[trigger] ((n as nat) % k) != 0,
        decreases n - d,
    {
        proof {
            lemma_fundamental_div_mod(n as int, d as int);
            lemma_mod_bound(n as int, d as int);
            assert((d as int) * 2 <= (d as int) * ((n as int) / (d as int))) by (nonlinear_arith)
                requires
                    2 <= d <= (n as int) / (d as int),
            ;
        }
        if n % d == 0 {
            assert(1 < (d as nat) < (n as nat));
            assert((n as nat) % (d as nat) == 0);
            return false;
        }
        d = d + 1;
    }
    proof {
        let ni = n as int;
        let di = d as int;
        lemma_fundamental_div_mod(ni, di);
        lemma_mod_bound(ni, di);
        assert(di * di > ni) by (nonlinear_arith)
            requires
                ni == di * (ni / di) + ni % di,
                0 <= ni % di < di,
                ni / di < di,
        ;
        lemma_no_small_divisor_no_divisor(n as nat, d as nat);
    }
    true
}

/// The least prime above `l`, or nothing where no prime above `l` fits a
/// `u64`.
pub fn next_prime(l: u64) -> (r: Option<u64>)
    ensures
        r is Some ==> is_next_prime(l as nat, r->Some_0 as nat),
        r is None ==> forall|j: nat| l < j <= u64::MAX ==> !#[trigger] is_prime(j),
{
    let mut c: u64 = l;
    while c < u64::MAX
        invariant
            l <= c,
            forall|j: nat| l < j <= c ==> !#[trigger] is_prime(j),
        decreases u64::MAX - c,
    {
        c = c + 1;
        if is_small_prime(c) {
            return Some(c);
        }
    }
    None
}

} // verus!
