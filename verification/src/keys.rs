//! Private keys: one exponent per prime of the factor base, each drawn
//! from `[-m, m]`.

use rand::Rng;
use vstd::prelude::*;

verus! {

/// Calls `rand::thread_rng` and `Rng::gen_range` on the inclusive range
/// from `low` to `high`, which panics on an empty range: that case is
/// excluded. The value drawn lies in the range; that it is uniform there
/// is the generator's business and is not stated.
#[verifier::external_body]
fn uniform_between(low: i64, high: i64) -> (drawn: i64)
    requires
        low <= high,
    ensures
        low <= drawn <= high,
{
    rand::thread_rng().gen_range(low..=high)
}

/// A private key for a factor base of `n` primes: `n` exponents, each
/// drawn independently from `[-m, m]`.
pub fn gen_key(n: usize, m: i64) -> (key: Vec<i64>)
    requires
        m >= 0,
    ensures
        key.len() == n,
        forall|i: int| 0 <= i < n ==> -m <= #[trigger] key[i] <= m,
{
    let mut key: Vec<i64> = Vec::new();
    while key.len() < n
        invariant
            m >= 0,
            key.len() <= n,
            forall|i: int| 0 <= i < key.len() ==> -m <= #[trigger] key[i] <= m,
        decreases n - key.len(),
    {
        let exponent = uniform_between(-m, m);
        key.push(exponent);
    }
    key
}

} // verus!
