//! The search for a modulus `4 * l_1 * ... * l_n - 1` over a factor base of
//! consecutive odd primes.
//!
//! The candidates are tested by `num_primes`, whose test is randomised:
//! what it answers for a number is not a function of the number. The
//! search is therefore a state machine, `PrimeSearch`, whose step takes the
//! answer as an argument and is proved for either answer; `gen_params`
//! runs it against the test.

use crate::curve::{CurveModel, EllipticCurve};
use crate::field::{residue, FiniteField};
use crate::natural::Natural;
use crate::number_theory::is_prime;
use crate::primes::{is_next_prime, next_prime};
use num_bigint::BigUint;
use num_primes::Verification;
use vstd::prelude::*;

verus! {

/// Why no parameters were produced.
#[derive(Debug, Clone, Copy, PartialEq, Eq, Structural)]
pub enum ParamGenError {
    /// Every candidate within the retry budget was rejected, or the next
    /// prime of the factor base does not fit a `u64`.
    PrimeSearchExhausted,
}

/// The product of a list of primes.
pub open spec fn product(primes: Seq<u64>) -> nat
    decreases primes.len(),
{
    if primes.len() == 0 {
        1
    } else {
        product(primes.drop_last()) * (primes.last() as nat)
    }
}

/// The candidate modulus that a factor base defines.
pub open spec fn modulus_of(primes: Seq<u64>) -> int {
    4 * product(primes) - 1
}

/// The number above which the member at `i` of a factor base is the least
/// prime: 2 for the first member, the member before it for the others.
pub open spec fn floor_at(primes: Seq<u64>, i: int) -> nat {
    if i == 0 {
        2
    } else {
        primes[i - 1] as nat
    }
}

/// Whether a list holds the odd primes in order, from 3 on, none left out.
pub open spec fn is_factor_base(primes: Seq<u64>) -> bool {
    forall|i: int|
        0 <= i < primes.len() ==> is_next_prime(floor_at(primes, i), #[trigger] primes[i] as nat)
}

/// Whether no prime above `l` fits a `u64`.
pub open spec fn no_prime_above(l: nat) -> bool {
    forall|j: nat| l < j <= u64::MAX ==> !#[trigger] is_prime(j)
}

/// What a search holds: its factor base and the candidate built from it.
pub struct SearchModel {
    pub primes: Seq<u64>,
    pub candidate: nat,
}

/// Whether a search holds a nonempty factor base and the candidate that it
/// defines.
pub open spec fn is_search(model: SearchModel) -> bool {
    &&& model.primes.len() >= 1
    &&& is_factor_base(model.primes)
    &&& model.candidate == modulus_of(model.primes)
}

/// Whether `after` is `before` with the next prime appended and the
/// candidate updated as `(p + 1) * l - 1`.
pub open spec fn is_extension(before: SearchModel, after: SearchModel) -> bool {
    &&& is_search(after)
    &&& after.primes.len() == before.primes.len() + 1
    &&& after.primes.drop_last() == before.primes
    &&& is_next_prime(before.primes.last() as nat, after.primes.last() as nat)
    &&& after.candidate == (before.candidate + 1) * after.primes.last() - 1
}

/// Every member of a factor base is at least 3.
pub proof fn lemma_factor_base_members(primes: Seq<u64>, i: int)
    requires
        is_factor_base(primes),
        0 <= i < primes.len(),
    ensures
        primes[i] >= 3,
    decreases i,
{
    if i > 0 {
        lemma_factor_base_members(primes, i - 1);
    }
}

/// Two factor bases agree wherever both reach.
pub proof fn lemma_factor_base_unique(first: Seq<u64>, second: Seq<u64>, i: int)
    requires
        is_factor_base(first),
        is_factor_base(second),
        0 <= i < first.len(),
        i < second.len(),
    ensures
        first[i] == second[i],
    decreases i,
{
    if i > 0 {
        lemma_factor_base_unique(first, second, i - 1);
    }
    let a = first[i] as nat;
    let b = second[i] as nat;
    if a < b {
        assert(is_prime(a));
    } else if b < a {
        assert(is_prime(b));
    }
}

/// The product of positive numbers is positive.
pub proof fn lemma_product_positive(primes: Seq<u64>)
    requires
        forall|i: int| 0 <= i < primes.len() ==> primes[i] >= 1,
    ensures
        product(primes) >= 1,
    decreases primes.len(),
{
    if primes.len() > 0 {
        let front = primes.drop_last();
        lemma_product_positive(front);
        assert(product(front) * (primes.last() as nat) >= 1) by (nonlinear_arith)
            requires
                product(front) >= 1,
                primes.last() >= 1,
        ;
    }
}

/// The candidate of a nonempty factor base is at least 11.
pub proof fn lemma_candidate_bound(primes: Seq<u64>)
    requires
        primes.len() >= 1,
        is_factor_base(primes),
    ensures
        modulus_of(primes) >= 11,
{
    let front = primes.drop_last();
    assert forall|i: int| 0 <= i < front.len() implies front[i] >= 1 by {
        lemma_factor_base_members(primes, i);
    }
    lemma_product_positive(front);
    lemma_factor_base_members(primes, primes.len() - 1);
    assert(product(front) * (primes.last() as nat) >= 3) by (nonlinear_arith)
        requires
            product(front) >= 1,
            primes.last() >= 3,
    ;
}

/// Appending a prime multiplies the product by it.
pub proof fn lemma_product_push(primes: Seq<u64>, q: u64)
    ensures
        product(primes.push(q)) == product(primes) * (q as nat),
{
    assert(primes.push(q).drop_last() =~= primes);
}

/// Appending the next prime to a factor base gives a factor base.
pub proof fn lemma_factor_base_push(primes: Seq<u64>, q: u64)
    requires
        is_factor_base(primes),
        is_next_prime(floor_at(primes, primes.len() as int), q as nat),
    ensures
        is_factor_base(primes.push(q)),
{
    let longer = primes.push(q);
    assert forall|i: int| 0 <= i < longer.len() implies is_next_prime(
        floor_at(longer, i),
        #[trigger] longer[i] as nat,
    ) by {
        if i < primes.len() {
            assert(longer[i] == primes[i]);
            assert(floor_at(longer, i) == floor_at(primes, i));
        }
    }
}

/// What appending the next prime to a nonempty factor base gives.
pub proof fn lemma_extension(primes: Seq<u64>, q: u64)
    requires
        primes.len() >= 1,
        is_factor_base(primes),
        is_next_prime(primes.last() as nat, q as nat),
    ensures
        is_factor_base(primes.push(q)),
        primes.push(q).drop_last() == primes,
        primes.push(q).last() == q,
        product(primes.push(q)) == product(primes) * (q as nat),
        modulus_of(primes.push(q)) >= 11,
{
    lemma_factor_base_push(primes, q);
    lemma_product_push(primes, q);
    assert(primes.push(q).drop_last() =~= primes);
    lemma_candidate_bound(primes.push(q));
}

/// Where no prime above the last member of a factor base fits a `u64`, no
/// factor base is longer.
pub proof fn lemma_factor_base_ends(primes: Seq<u64>, other: Seq<u64>)
    requires
        is_factor_base(primes),
        is_factor_base(other),
        no_prime_above(floor_at(primes, primes.len() as int)),
    ensures
        other.len() <= primes.len(),
{
    let k = primes.len() as int;
    if other.len() > k {
        if k > 0 {
            lemma_factor_base_unique(primes, other, k - 1);
        }
        assert(is_prime(other[k] as nat));
    }
}

/// A search in progress: the factor base so far and its candidate.
#[derive(Debug)]
pub struct PrimeSearch {
    primes: Vec<u64>,
    candidate: Natural,
}

/// What a search does once its candidate has been tested.
#[derive(Debug)]
pub enum SearchStep {
    /// The candidate was accepted: the search is over.
    Found(PrimeSearch),
    /// The candidate was rejected and the factor base extended.
    Extended(PrimeSearch),
    /// The candidate was rejected and the search cannot go on.
    Exhausted,
}

/// Whether `step` is what follows a rejected candidate while a retry is
/// left: the extension of the search, or its end where no further prime
/// fits a `u64`.
pub open spec fn is_retry(before: SearchModel, step: SearchStep) -> bool {
    match step {
        SearchStep::Found(_) => false,
        SearchStep::Extended(search) => is_extension(before, search@),
        SearchStep::Exhausted => no_prime_above(before.primes.last() as nat),
    }
}

impl View for PrimeSearch {
    type V = SearchModel;

    closed spec fn view(&self) -> SearchModel {
        SearchModel { primes: self.primes@, candidate: self.candidate@ }
    }
}

/// Calls `num_primes::Verification::is_prime`. Its answer depends on
/// random witnesses and may be wrong either way, so nothing is claimed of
/// it. Its Miller-Rabin rounds draw each witness from 2 up to the
/// candidate less 2, a range that is empty for the candidate 3, where the
/// call panics: candidates below 5 are excluded.
#[verifier::external_body]
fn probably_prime(candidate: &Natural) -> (accepted: bool)
    requires
        candidate@ >= 5,
{
    Verification::is_prime(&BigUint::from_slice(candidate.limbs()))
}

impl PrimeSearch {
    #[verifier::type_invariant]
    spec fn coherent(self) -> bool {
        is_search(self@)
    }

    /// The search over the first `n` odd primes, or nothing where fewer
    /// than `n` of them fit a `u64`.
    pub fn start(n: usize) -> (r: Option<PrimeSearch>)
        requires
            n >= 1,
        ensures
            r is Some ==> is_search(r->Some_0@) && r->Some_0@.primes.len() == n,
            r is None ==> forall|other: Seq<u64>| #[trigger]
                is_factor_base(other) ==> other.len() < n,
    {
        let mut primes: Vec<u64> = Vec::new();
        let mut scaled = Natural::from_u64(4);
        let mut last: u64 = 2;
        while primes.len() < n
            invariant
                primes.len() <= n,
                is_factor_base(primes@),
                scaled@ == 4 * product(primes@),
                last == floor_at(primes@, primes.len() as int),
            decreases n - primes.len(),
        {
            match next_prime(last) {
                None => {
                    proof {
                        assert forall|other: Seq<u64>| #[trigger]
                            is_factor_base(other) implies other.len() < n by {
                            lemma_factor_base_ends(primes@, other);
                        }
                    }
                    return None;
                },
                Some(q) => {
                    proof {
                        lemma_factor_base_push(primes@, q);
                        lemma_product_push(primes@, q);
                        assert(4 * product(primes@) * (q as nat) == 4 * (product(primes@) * (
                        q as nat))) by (nonlinear_arith);
                    }
                    primes.push(q);
                    scaled = scaled.times(&Natural::from_u64(q));
                    last = q;
                },
            }
        }
        proof {
            lemma_candidate_bound(primes@);
        }
        let candidate = scaled.minus(&Natural::from_u64(1));
        Some(PrimeSearch { primes, candidate })
    }

    /// The factor base so far.
    pub fn primes(&self) -> (r: &Vec<u64>)
        ensures
            r@ == self@.primes,
            is_search(self@),
    {
        proof {
            use_type_invariant(self);
        }
        &self.primes
    }

    /// The candidate modulus, which is at least 11.
    pub fn candidate(&self) -> (r: &Natural)
        ensures
            r@ == self@.candidate,
            r@ >= 11,
            is_search(self@),
    {
        proof {
            use_type_invariant(self);
            lemma_candidate_bound(self.primes@);
        }
        &self.candidate
    }

    /// The search with the next prime appended to the factor base, or
    /// nothing where that prime does not fit a `u64`.
    pub fn extend(self) -> (r: Option<PrimeSearch>)
        ensures
            r is Some ==> is_extension(self@, r->Some_0@),
            r is None ==> no_prime_above(self@.primes.last() as nat),
    {
        proof {
            use_type_invariant(&self);
        }
        let PrimeSearch { mut primes, candidate } = self;
        let last = primes[primes.len() - 1];
        match next_prime(last) {
            None => None,
            Some(q) => {
                let ghost before = primes@;
                let one = Natural::from_u64(1);
                let raised = candidate.plus(&one);
                let scaled = raised.times(&Natural::from_u64(q));
                proof {
                    lemma_extension(before, q);
                    assert(scaled@ == 4 * product(before.push(q))) by (nonlinear_arith)
                        requires
                            scaled@ == raised@ * (q as nat),
                            raised@ == 4 * product(before),
                            product(before.push(q)) == product(before) * (q as nat),
                    ;
                }
                let candidate = scaled.minus(&one);
                primes.push(q);
                Some(PrimeSearch { primes, candidate })
            },
        }
    }

    /// The step that follows the test of the candidate. An accepted
    /// candidate ends the search. A rejected one has the factor base
    /// extended, as long as a retry is left and the next prime fits a
    /// `u64`.
    pub fn advance(self, accepted: bool, retries_left: usize) -> (step: SearchStep)
        ensures
            accepted ==> (step matches SearchStep::Found(search) && search@ == self@ && is_search(
                search@,
            )),
            !accepted && retries_left == 0 ==> step is Exhausted,
            !accepted && retries_left > 0 ==> is_retry(self@, step),
    {
        proof {
            use_type_invariant(&self);
        }
        if accepted {
            SearchStep::Found(self)
        } else if retries_left == 0 {
            SearchStep::Exhausted
        } else {
            match self.extend() {
                Some(search) => SearchStep::Extended(search),
                None => SearchStep::Exhausted,
            }
        }
    }

    /// The parameters that the search stands for: its candidate as the
    /// modulus, its factor base, the field of that modulus and the curve
    /// over it whose coefficient is the residue of `a`.
    pub fn into_parameters(self, a: Natural) -> (r: (Natural, Vec<u64>, FiniteField, EllipticCurve))
        ensures
            r.0@ == self@.candidate,
            r.1@ == self@.primes,
            r.2@ == self@.candidate,
            r.3@ == (CurveModel {
                modulus: self@.candidate,
                a: residue(self@.candidate, a@ as int),
            }),
    {
        proof {
            use_type_invariant(&self);
            lemma_candidate_bound(self.primes@);
        }
        let PrimeSearch { primes, candidate } = self;
        let field = FiniteField::new(candidate.clone());
        let curve = EllipticCurve::new(field.clone(), a);
        (candidate, primes, field, curve)
    }
}

/// Searches for a modulus `p = 4 * l_1 * ... * l_k - 1` that the primality
/// test accepts, starting from the first `n` odd primes and appending the
/// next prime after each rejection, at most `max_retries` times. With no
/// prime the candidate would be 3, below the least modulus of a field, so
/// `n` is at least 1.
///
/// On success the result is the modulus, the factor base, the field of
/// that modulus and the curve over it whose coefficient is the residue of
/// `a`. Whether a candidate is accepted is up to the test.
pub fn gen_params(n: usize, a: Natural, max_retries: usize) -> (r: Result<
    (Natural, Vec<u64>, FiniteField, EllipticCurve),
    ParamGenError,
>)
    requires
        n >= 1,
    ensures
        r is Ok ==> is_factor_base(r->Ok_0.1@),
        r is Ok ==> n <= r->Ok_0.1.len() <= n + max_retries,
        r is Ok ==> r->Ok_0.0@ == modulus_of(r->Ok_0.1@),
        r is Ok ==> r->Ok_0.2@ == r->Ok_0.0@,
        r is Ok ==> r->Ok_0.3@ == (CurveModel {
            modulus: r->Ok_0.0@,
            a: residue(r->Ok_0.0@, a@ as int),
        }),
        r is Err ==> r->Err_0 == ParamGenError::PrimeSearchExhausted,
{
    let mut search = match PrimeSearch::start(n) {
        Some(search) => search,
        None => {
            return Err(ParamGenError::PrimeSearchExhausted);
        },
    };
    let mut retries_left = max_retries;
    loop
        invariant
            retries_left <= max_retries,
            is_search(search@),
            search@.primes.len() == n + (max_retries - retries_left),
        decreases retries_left,
    {
        let accepted = probably_prime(search.candidate());
        match search.advance(accepted, retries_left) {
            SearchStep::Found(found) => {
                return Ok(found.into_parameters(a));
            },
            SearchStep::Extended(next) => {
                search = next;
                retries_left = retries_left - 1;
            },
            SearchStep::Exhausted => {
                return Err(ParamGenError::PrimeSearchExhausted);
            },
        }
    }
}

} // verus!
