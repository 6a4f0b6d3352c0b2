//! Primes, divisibility by a prime, binomial coefficients and Fermat's
//! little theorem, as far as the field and the curve need them.

use vstd::arithmetic::div_mod::{
    lemma_add_mod_noop, lemma_fundamental_div_mod, lemma_mod_bound, lemma_mod_multiples_basic,
    lemma_mul_mod_noop_left, lemma_mul_mod_noop_right, lemma_small_mod, lemma_sub_mod_noop,
};
use vstd::arithmetic::power::{lemma0_pow, lemma_pow0, pow};
use vstd::prelude::*;

verus! {

/// A prime: at least 2, and divisible by nothing strictly between 1 and
/// itself.
pub open spec fn is_prime(n: nat) -> bool {
    n >= 2 && forall|d: nat| 1 < d < n ==> #[trigger] (n % d) != 0
}

/// Unfolds one step of a power.
pub proof fn lemma_pow_step(b: int, e: nat)
    ensures
        pow(b, e + 1) == b * pow(b, e),
{
    reveal(pow);
}

/// A prime that divides `k * m`, with `k` strictly between 0 and the
/// prime, divides `m`.
pub proof fn lemma_prime_cancels_small_factor(p: nat, k: nat, m: int)
    requires
        is_prime(p),
        0 < k < p,
        (k * m) % (p as int) == 0,
    ensures
        m % (p as int) == 0,
    decreases k,
{
    let pi = p as int;
    if k == 1 {
        assert(1 * m == m);
    } else {
        let q = pi / (k as int);
        let r = p % k;
        assert(r != 0);
        lemma_fundamental_div_mod(pi, k as int);
        lemma_mod_bound(pi, k as int);
        assert(pi == (k as int) * q + r);
        assert(r * m == pi * m - q * (k * m)) by (nonlinear_arith)
            requires
                pi == (k as int) * q + r,
        ;
        assert((m * pi) % pi == 0) by {
            lemma_mod_multiples_basic(m, pi);
        }
        assert(pi * m == m * pi) by (nonlinear_arith);
        assert((q * (k * m)) % pi == 0) by {
            lemma_mul_mod_noop_right(q, k * m, pi);
            assert(q * 0 == 0);
        }
        assert((r * m) % pi == 0) by {
            lemma_difference_of_congruent(pi, pi * m, q * (k * m));
        }
        lemma_prime_cancels_small_factor(p, r, m);
    }
}

/// Euclid's lemma: a prime that divides a product divides a factor.
pub proof fn lemma_prime_divides_factor(p: nat, a: int, b: int)
    requires
        is_prime(p),
        (a * b) % (p as int) == 0,
    ensures
        a % (p as int) == 0 || b % (p as int) == 0,
{
    let pi = p as int;
    let k = a % pi;
    lemma_mod_bound(a, pi);
    if k != 0 {
        lemma_mul_mod_noop_left(a, b, pi);
        lemma_prime_cancels_small_factor(p, k as nat, b);
    }
}

/// Modulo a prime, a common factor that the prime does not divide can be
/// cancelled from a congruence.
pub proof fn lemma_cancel_modulo_prime(p: nat, c: int, x: int, y: int)
    requires
        is_prime(p),
        c % (p as int) != 0,
        (c * x) % (p as int) == (c * y) % (p as int),
    ensures
        x % (p as int) == y % (p as int),
{
    let pi = p as int;
    lemma_difference_of_congruent(pi, c * x, c * y);
    assert(c * (x - y) == c * x - c * y) by (nonlinear_arith);
    lemma_prime_divides_factor(p, c, x - y);
    lemma_congruent_of_difference(pi, x, y);
}

/// Two integers whose difference is a multiple of `m` leave the same
/// remainder.
pub proof fn lemma_congruent_of_difference(m: int, x: int, y: int)
    requires
        m > 0,
        (x - y) % m == 0,
    ensures
        x % m == y % m,
{
    lemma_fundamental_div_mod(x - y, m);
    let q = (x - y) / m;
    assert(x == y + m * q);
    lemma_fundamental_div_mod(y, m);
    lemma_mod_bound(y, m);
    let qy = y / m;
    assert(x == m * (q + qy) + y % m) by (nonlinear_arith)
        requires
            x == y + m * q,
            y == m * qy + y % m,
    ;
    vstd::arithmetic::div_mod::lemma_fundamental_div_mod_converse_mod(x, m, q + qy, y % m);
}

/// Two integers that leave the same remainder differ by a multiple of `m`.
pub proof fn lemma_difference_of_congruent(m: int, x: int, y: int)
    requires
        m > 0,
        x % m == y % m,
    ensures
        (x - y) % m == 0,
{
    lemma_sub_mod_noop(x, y, m);
    lemma_small_mod(0, m as nat);
}

/// Whether two integers leave the same remainder modulo `m`.
pub open spec fn congruent(m: int, x: int, y: int) -> bool {
    x % m == y % m
}

/// Sums of congruent integers are congruent.
pub proof fn lemma_congruent_add(m: int, a: int, b: int, c: int, d: int)
    requires
        m > 0,
        congruent(m, a, b),
        congruent(m, c, d),
    ensures
        congruent(m, a + c, b + d),
{
    lemma_add_mod_noop(a, c, m);
    lemma_add_mod_noop(b, d, m);
}

/// Differences of congruent integers are congruent.
pub proof fn lemma_congruent_sub(m: int, a: int, b: int, c: int, d: int)
    requires
        m > 0,
        congruent(m, a, b),
        congruent(m, c, d),
    ensures
        congruent(m, a - c, b - d),
{
    lemma_sub_mod_noop(a, c, m);
    lemma_sub_mod_noop(b, d, m);
}

/// Products of congruent integers are congruent.
pub proof fn lemma_congruent_mul(m: int, a: int, b: int, c: int, d: int)
    requires
        m > 0,
        congruent(m, a, b),
        congruent(m, c, d),
    ensures
        congruent(m, a * c, b * d),
{
    vstd::arithmetic::div_mod::lemma_mul_mod_noop_general(a, c, m);
    vstd::arithmetic::div_mod::lemma_mul_mod_noop_general(b, d, m);
}

/// An integer is congruent to its remainder.
pub proof fn lemma_congruent_remainder(m: int, a: int)
    requires
        m > 0,
    ensures
        congruent(m, a % m, a),
        congruent(m, a, a % m),
{
    vstd::arithmetic::div_mod::lemma_mod_twice(a, m);
}

/// The binomial coefficient, by Pascal's rule.
pub open spec fn binomial(n: nat, k: nat) -> nat
    decreases n,
{
    if k == 0 {
        1
    } else if n == 0 {
        0
    } else {
        binomial((n - 1) as nat, (k - 1) as nat) + binomial((n - 1) as nat, k)
    }
}

/// No way to choose more than there is.
pub proof fn lemma_binomial_beyond(n: nat, k: nat)
    requires
        k > n,
    ensures
        binomial(n, k) == 0,
    decreases n,
{
    if n > 0 {
        lemma_binomial_beyond((n - 1) as nat, (k - 1) as nat);
        lemma_binomial_beyond((n - 1) as nat, k);
    }
}

/// One way to choose everything.
pub proof fn lemma_binomial_full(n: nat)
    ensures
        binomial(n, n) == 1,
    decreases n,
{
    if n > 0 {
        lemma_binomial_full((n - 1) as nat);
        lemma_binomial_beyond((n - 1) as nat, n);
    }
}

/// The absorption identity `k * C(n, k) = n * C(n-1, k-1)`.
pub proof fn lemma_binomial_absorption(n: nat, k: nat)
    requires
        n >= 1,
        k >= 1,
    ensures
        k * binomial(n, k) == n * binomial((n - 1) as nat, (k - 1) as nat),
    decreases n,
{
    let n1 = (n - 1) as nat;
    let k1 = (k - 1) as nat;
    if n == 1 {
        if k >= 2 {
            lemma_binomial_beyond(0, k1);
            lemma_binomial_beyond(0, k);
            assert(binomial(1, k) == 0);
            assert(k * 0 == 0);
        }
    } else {
        let x = binomial(n1, k1);
        let y = binomial(n1, k);
        assert(binomial(n, k) == x + y);
        lemma_binomial_absorption(n1, k);
        let w = binomial((n1 - 1) as nat, k1);
        assert(k * y == n1 * w);
        if k == 1 {
            assert(x == 1);
            assert(w == 1);
            assert(k * (x + y) == n * x) by (nonlinear_arith)
                requires
                    k == 1,
                    x == 1,
                    w == 1,
                    k * y == n1 * w,
                    n == n1 + 1,
            ;
        } else {
            lemma_binomial_absorption(n1, k1);
            let v = binomial((n1 - 1) as nat, (k1 - 1) as nat);
            assert(k1 * x == n1 * v);
            assert(x == v + w);
            assert(k * (x + y) == n * x) by (nonlinear_arith)
                requires
                    k == k1 + 1,
                    n == n1 + 1,
                    k1 * x == n1 * v,
                    k * y == n1 * w,
                    x == v + w,
            ;
        }
    }
}

/// A prime divides every binomial coefficient of its own row except the
/// two at the ends.
pub proof fn lemma_prime_divides_binomial(p: nat, k: nat)
    requires
        is_prime(p),
        0 < k < p,
    ensures
        binomial(p, k) % p == 0,
{
    let pi = p as int;
    lemma_binomial_absorption(p, k);
    let c = binomial((p - 1) as nat, (k - 1) as nat);
    let b = binomial(p, k) as int;
    assert(k * b == c * pi) by (nonlinear_arith)
        requires
            k * binomial(p, k) == p * c,
            b == binomial(p, k),
            pi == p,
    ;
    lemma_mod_multiples_basic(c as int, pi);
    lemma_prime_cancels_small_factor(p, k, b);
}

/// The sum of `C(n, k) * a^k` over `k` from 0 to `j`.
pub open spec fn binomial_sum(n: nat, j: nat, a: int) -> int
    decreases j,
{
    if j == 0 {
        1
    } else {
        binomial_sum(n, (j - 1) as nat, a) + binomial(n, j) * pow(a, j)
    }
}

/// Pascal's rule carried over to the partial sums.
pub proof fn lemma_binomial_sum_step(n: nat, j: nat, a: int)
    ensures
        binomial_sum(n + 1, j + 1, a) == a * binomial_sum(n, j, a) + binomial_sum(n, j + 1, a),
    decreases j,
{
    let c0 = binomial(n, j) as int;
    let c1 = binomial(n, j + 1) as int;
    let top = pow(a, j + 1);
    assert(binomial(n + 1, j + 1) == c0 + c1);
    lemma_pow_step(a, j);
    if j == 0 {
        lemma_pow0(a);
        assert(binomial_sum(n + 1, 0, a) == 1);
        assert(binomial_sum(n, 0, a) == 1);
        assert(c0 == 1);
        assert(top == a) by (nonlinear_arith)
            requires
                top == a * 1,
        ;
        assert(binomial_sum(n + 1, 1, a) == 1 + (c0 + c1) * top);
        assert(binomial_sum(n, 1, a) == 1 + c1 * top);
        assert(1 + (1 + c1) * a == a * 1 + (1 + c1 * a)) by (nonlinear_arith);
    } else {
        let j1 = (j - 1) as nat;
        lemma_binomial_sum_step(n, j1, a);
        let s0 = binomial_sum(n, j1, a);
        let s1 = binomial_sum(n, j, a);
        let low = pow(a, j);
        assert(binomial_sum(n + 1, j, a) == a * s0 + s1);
        assert(s1 == s0 + c0 * low);
        assert(binomial_sum(n + 1, j + 1, a) == (a * s0 + s1) + (c0 + c1) * top);
        assert(binomial_sum(n, j + 1, a) == s1 + c1 * top);
        assert((a * s0 + s1) + (c0 + c1) * top == a * (s0 + c0 * low) + (s1 + c1 * top))
            by (nonlinear_arith)
            requires
                top == a * low,
        ;
    }
}

/// The binomial theorem for `(a + 1)^n`.
pub proof fn lemma_binomial_theorem(n: nat, a: int)
    ensures
        binomial_sum(n, n, a) == pow(a + 1, n),
    decreases n,
{
    if n == 0 {
        lemma_pow0(a + 1);
    } else {
        let n1 = (n - 1) as nat;
        lemma_binomial_theorem(n1, a);
        lemma_binomial_sum_step(n1, n1, a);
        lemma_binomial_beyond(n1, n);
        let s = binomial_sum(n1, n1, a);
        assert(binomial_sum(n1, n, a) == s + 0 * pow(a, n));
        assert(0 * pow(a, n) == 0);
        lemma_pow_step(a + 1, n1);
        assert(a * s + s == (a + 1) * s) by (nonlinear_arith);
    }
}

/// Modulo a prime, the partial sums of its own row stay at 1 until the
/// last term.
pub proof fn lemma_binomial_sum_modulo_prime(p: nat, j: nat, a: int)
    requires
        is_prime(p),
        j < p,
    ensures
        binomial_sum(p, j, a) % (p as int) == 1,
    decreases j,
{
    let pi = p as int;
    if j == 0 {
        lemma_small_mod(1, p);
    } else {
        let j1 = (j - 1) as nat;
        lemma_binomial_sum_modulo_prime(p, j1, a);
        lemma_prime_divides_binomial(p, j);
        let c = binomial(p, j) as int;
        let t = pow(a, j);
        assert((c * t) % pi == 0) by {
            lemma_mul_mod_noop_left(c, t, pi);
            assert(0 * t == 0);
        }
        lemma_add_mod_noop(binomial_sum(p, j1, a), c * t, pi);
        lemma_small_mod(1, p);
    }
}

/// Modulo a prime `p`, raising to the power `p` commutes with adding 1.
pub proof fn lemma_power_of_successor(p: nat, a: int)
    requires
        is_prime(p),
    ensures
        pow(a + 1, p) % (p as int) == (pow(a, p) + 1) % (p as int),
{
    let pi = p as int;
    let top = (p - 1) as nat;
    lemma_binomial_theorem(p, a);
    lemma_binomial_sum_modulo_prime(p, top, a);
    lemma_binomial_full(p);
    let s = binomial_sum(p, top, a);
    let t = pow(a, p);
    assert(binomial_sum(p, p, a) == s + 1 * t);
    assert(1 * t == t);
    lemma_add_mod_noop(s, t, pi);
    lemma_add_mod_noop(1, t, pi);
    lemma_small_mod(1, p);
}

/// Fermat's little theorem: `a^p` is congruent to `a` modulo a prime `p`.
pub proof fn lemma_fermat(p: nat, a: nat)
    requires
        is_prime(p),
    ensures
        pow(a as int, p) % (p as int) == a % p,
    decreases a,
{
    let pi = p as int;
    if a == 0 {
        lemma0_pow(p);
        lemma_small_mod(0, p);
    } else {
        let b = (a - 1) as nat;
        lemma_fermat(p, b);
        lemma_power_of_successor(p, b as int);
        lemma_add_mod_noop(pow(b as int, p), 1, pi);
        lemma_add_mod_noop(b as int, 1, pi);
    }
}

/// For a prime `p` and `a` not divisible by it, `a^(p-1)` is congruent
/// to 1.
pub proof fn lemma_fermat_unit(p: nat, a: nat)
    requires
        is_prime(p),
        a % p != 0,
    ensures
        pow(a as int, (p - 1) as nat) % (p as int) == 1,
{
    let pi = p as int;
    let ai = a as int;
    let top = (p - 1) as nat;
    let t = pow(ai, top);
    lemma_fermat(p, a);
    lemma_pow_step(ai, top);
    assert(pow(ai, p) == ai * t);
    lemma_difference_of_congruent(pi, ai * t, ai);
    assert(ai * (t - 1) == ai * t - ai) by (nonlinear_arith);
    lemma_prime_divides_factor(p, ai, t - 1);
    lemma_congruent_of_difference(pi, t, 1);
    lemma_small_mod(1, p);
}

} // verus!
