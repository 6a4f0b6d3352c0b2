//! What holds of the group law over a field of prime modulus.

use crate::curve::{
    add_positions, chord_slope, double_position, on_curve, position_on_curve, quotient,
    tangent_slope, third_point, CurveModel, GroupLawError, Position,
};
use crate::field::{field_inv, residue};
use crate::field_laws::{lemma_inverse_cancels, lemma_residue_absorbs, lemma_residue_reduced};
use crate::number_theory::{
    congruent, is_prime, lemma_cancel_modulo_prime, lemma_congruent_add, lemma_congruent_mul,
    lemma_congruent_of_difference, lemma_congruent_remainder, lemma_congruent_sub,
    lemma_difference_of_congruent, lemma_prime_divides_factor,
};
use vstd::arithmetic::div_mod::{lemma_mod_bound, lemma_small_mod, lemma_sub_mod_noop};
use vstd::prelude::*;

verus! {

/// Whether the coordinates of a position are reduced modulo `p`.
pub open spec fn is_reduced(p: nat, position: Position) -> bool {
    match position {
        Position::Infinity => true,
        Position::Affine { x, y } => x < p && y < p,
    }
}

/// Congruent integers have congruent opposites.
pub proof fn lemma_congruence_negates(m: int, x: int, y: int)
    requires
        m > 0,
        x % m == y % m,
    ensures
        (-x) % m == (-y) % m,
{
    lemma_sub_mod_noop(0, x, m);
    lemma_sub_mod_noop(0, y, m);
}

/// Over a field of prime modulus, the quotient `n / d` times `d` is `n`.
pub proof fn lemma_quotient_times_divisor(p: nat, n: int, d: int)
    requires
        is_prime(p),
        residue(p, d) != 0,
    ensures
        residue(p, quotient(p, n, d) * d) == residue(p, n),
        quotient(p, n, d) < p,
{
    let big_n = residue(p, n) as int;
    let big_d = residue(p, d) as int;
    let inverse = field_inv(p, residue(p, d)) as int;
    let q = quotient(p, n, d) as int;
    lemma_residue_reduced(p, n);
    lemma_residue_reduced(p, d);
    lemma_residue_reduced(p, big_n * inverse);
    lemma_inverse_cancels(p, residue(p, d));
    assert(residue(p, inverse * big_d) == 1);
    assert(q == residue(p, big_n * inverse));
    // q * d = (N * I) * d = N * (I * D) = N, all modulo p
    lemma_residue_absorbs(p, big_n * inverse, d);
    assert(residue(p, q * d) == residue(p, (big_n * inverse) * d));
    assert(residue(p, (big_n * inverse) * d) == residue(p, (big_n * inverse) * big_d));
    assert((big_n * inverse) * big_d == big_n * (inverse * big_d)) by (nonlinear_arith);
    lemma_residue_absorbs(p, big_n, inverse * big_d);
    assert(residue(p, big_n * (inverse * big_d)) == residue(p, big_n * 1));
    assert(big_n * 1 == big_n);
}

/// Over a field of prime modulus, the chord through two points of
/// different abscissas has one slope, whichever point is named first, and
/// it carries the difference of the abscissas to that of the ordinates.
pub proof fn lemma_chord_slope_symmetric(p: nat, x1: nat, y1: nat, x2: nat, y2: nat)
    requires
        is_prime(p),
        x1 < p,
        x2 < p,
        x1 != x2,
    ensures
        chord_slope(p, x1, y1, x2, y2) == chord_slope(p, x2, y2, x1, y1),
        residue(p, chord_slope(p, x1, y1, x2, y2) * (x2 - x1)) == residue(p, y2 - y1),
{
    let m = p as int;
    let d = x2 - x1;
    let n = y2 - y1;
    let s = chord_slope(p, x1, y1, x2, y2) as int;
    let t = chord_slope(p, x2, y2, x1, y1) as int;
    lemma_difference_nonzero(p, x1, x2);
    lemma_difference_nonzero(p, x2, x1);
    lemma_quotient_times_divisor(p, n, d);
    lemma_quotient_times_divisor(p, -n, -d);
    assert((t * (-d)) % m == (-n) % m);
    lemma_congruence_negates(m, t * (-d), -n);
    assert(-(t * (-d)) == d * t) by (nonlinear_arith);
    assert((d * t) % m == n % m);
    assert(s * d == d * s) by (nonlinear_arith);
    lemma_cancel_modulo_prime(p, d, s, t);
    lemma_small_mod(s as nat, p);
    lemma_small_mod(t as nat, p);
}

/// Two different residues differ by no multiple of the modulus.
pub proof fn lemma_difference_nonzero(p: nat, x1: nat, x2: nat)
    requires
        p > 0,
        x1 < p,
        x2 < p,
        x1 != x2,
    ensures
        residue(p, x2 - x1) != 0,
{
    let m = p as int;
    if residue(p, x2 - x1) == 0 {
        lemma_congruent_of_difference(m, x2 as int, x1 as int);
        lemma_small_mod(x1, p);
        lemma_small_mod(x2, p);
    }
}

/// The position opposite a given one: the same abscissa, the ordinate
/// negated; the point at infinity is its own opposite.
pub open spec fn opposite(p: nat, position: Position) -> Position {
    match position {
        Position::Infinity => Position::Infinity,
        Position::Affine { x, y } => Position::Affine { x, y: residue(p, -y) },
    }
}

/// The point at infinity is neutral on either side, over any modulus.
pub proof fn lemma_infinity_neutral(c: CurveModel, position: Position)
    ensures
        add_positions(c, Position::Infinity, position) == Ok::<Position, GroupLawError>(position),
        add_positions(c, position, Position::Infinity) == Ok::<Position, GroupLawError>(position),
{
}

/// Over a field of odd prime modulus, a position and its opposite add up
/// to the point at infinity, and the opposite of a point of the curve is a
/// point of the curve.
pub proof fn lemma_opposite_cancels(c: CurveModel, position: Position)
    requires
        is_prime(c.modulus),
        c.modulus > 2,
        is_reduced(c.modulus, position),
    ensures
        add_positions(c, position, opposite(c.modulus, position)) == Ok::<
            Position,
            GroupLawError,
        >(Position::Infinity),
        is_reduced(c.modulus, opposite(c.modulus, position)),
        position_on_curve(c, position) ==> position_on_curve(c, opposite(c.modulus, position)),
{
    let p = c.modulus;
    let m = p as int;
    match position {
        Position::Infinity => {},
        Position::Affine { x, y } => {
            let v = y as int;
            let w = residue(p, -v) as int;
            lemma_residue_reduced(p, -v);
            lemma_residue_absorbs(p, v, -v);
            lemma_small_mod(0, p);
            assert(residue(p, v + w) == 0);
            if y == w {
                // then 2 y vanishes, which over an odd prime forces y = 0
                lemma_prime_divides_factor(p, 2, v);
                lemma_small_mod(2, p);
                lemma_small_mod(y, p);
            }
            lemma_congruent_remainder(m, -v);
            lemma_congruent_mul(m, w, -v, w, -v);
            assert((-v) * (-v) == v * v) by (nonlinear_arith);
        },
    }
}

/// Over a field of prime modulus the group law is commutative: the sum of
/// two positions, or its refusal, is the same in either order.
pub proof fn lemma_add_commutes(c: CurveModel, first: Position, second: Position)
    requires
        is_prime(c.modulus),
        is_reduced(c.modulus, first),
        is_reduced(c.modulus, second),
    ensures
        add_positions(c, first, second) == add_positions(c, second, first),
{
    let p = c.modulus;
    let m = p as int;
    match (first, second) {
        (Position::Affine { x: x1, y: y1 }, Position::Affine { x: x2, y: y2 }) => {
            if x1 != x2 {
                lemma_chord_slope_symmetric(p, x1, y1, x2, y2);
                let s = chord_slope(p, x1, y1, x2, y2) as int;
                let x3 = residue(p, s * s - x1 - x2) as int;
                assert(s * s - x1 - x2 == s * s - x2 - x1);
                let left = s * (x1 - x3) - y1;
                let right = s * (x2 - x3) - y2;
                assert(left - right == (y2 - y1) - s * (x2 - x1)) by (nonlinear_arith)
                    requires
                        left == s * (x1 - x3) - y1,
                        right == s * (x2 - x3) - y2,
                ;
                lemma_difference_of_congruent(m, y2 - y1, s * (x2 - x1));
                lemma_congruent_of_difference(m, left, right);
            } else if y1 != y2 {
                assert(y1 + y2 == y2 + y1);
            }
        },
        _ => {},
    }
}

/// The ordinate at `x` of the line of slope `s` through `(x1, y1)`.
pub open spec fn line_at(s: int, x1: int, y1: int, x: int) -> int {
    s * (x - x1) + y1
}

/// The cubic `x^3 + a x` less the square of the line, at `x`: zero where
/// the line meets the curve.
pub open spec fn gap_at(a: int, s: int, x1: int, y1: int, x: int) -> int {
    x * x * x + a * x - line_at(s, x1, y1, x) * line_at(s, x1, y1, x)
}

/// The abscissa that the chord-and-tangent rule assigns to the third
/// point, before reduction.
pub open spec fn third_abscissa(s: int, x1: int, xo: int) -> int {
    s * s - x1 - xo
}

/// The coefficient of `x` in what `gap_at` leaves over after division by
/// `(x - x1) (x - xo) (x - third_abscissa)`.
pub open spec fn rest_slope(a: int, s: int, x1: int, y1: int, xo: int) -> int {
    let nu = y1 - s * x1;
    let z = third_abscissa(s, x1, xo);
    a - 2 * (s * nu) - (x1 * xo + (x1 + xo) * z)
}

/// The constant term of what `gap_at` leaves over after that division.
pub open spec fn rest_offset(a: int, s: int, x1: int, y1: int, xo: int) -> int {
    let nu = y1 - s * x1;
    let z = third_abscissa(s, x1, xo);
    x1 * xo * z - nu * nu
}

/// The product of three linear factors, multiplied out.
proof fn lemma_cubic_expands(x: int, r1: int, r2: int, r3: int)
    ensures
        (x - r1) * (x - r2) * (x - r3) == x * x * x - (r1 + r2 + r3) * (x * x) + (r1 * r2 + (r1
            + r2) * r3) * x - r1 * r2 * r3,
{
    let u = (x - r1) * (x - r2);
    let sum = r1 + r2;
    let prod = r1 * r2;
    let xx = x * x;
    assert(u == xx - sum * x + prod) by (nonlinear_arith)
        requires
            u == (x - r1) * (x - r2),
            sum == r1 + r2,
            prod == r1 * r2,
            xx == x * x,
    ;
    assert(u * (x - r3) == u * x - u * r3) by (nonlinear_arith);
    assert(u * x == xx * x - (sum * x) * x + prod * x) by (nonlinear_arith)
        requires
            u == xx - sum * x + prod,
    ;
    assert(u * r3 == xx * r3 - (sum * x) * r3 + prod * r3) by (nonlinear_arith)
        requires
            u == xx - sum * x + prod,
    ;
    assert((sum * x) * x == sum * xx) by (nonlinear_arith)
        requires
            xx == x * x,
    ;
    assert((sum * x) * r3 == (sum * r3) * x) by (nonlinear_arith);
    assert((sum + r3) * xx == sum * xx + xx * r3) by (nonlinear_arith);
    assert((prod + sum * r3) * x == prod * x + (sum * r3) * x) by (nonlinear_arith);
}

/// The square of the line, multiplied out.
proof fn lemma_line_square_expands(s: int, x1: int, y1: int, x: int)
    ensures
        line_at(s, x1, y1, x) * line_at(s, x1, y1, x) == (s * s) * (x * x) + 2 * (s * (y1 - s
            * x1)) * x + (y1 - s * x1) * (y1 - s * x1),
{
    let nu = y1 - s * x1;
    let l = line_at(s, x1, y1, x);
    assert(l == s * x + nu) by (nonlinear_arith)
        requires
            l == s * (x - x1) + y1,
            nu == y1 - s * x1,
    ;
    assert((s * x + nu) * (s * x + nu) == (s * s) * (x * x) + 2 * (s * nu) * x + nu * nu)
        by (nonlinear_arith);
}

/// `gap_at` is the product of the three linear factors plus a linear rest.
proof fn lemma_gap_splits(a: int, s: int, x1: int, y1: int, xo: int, x: int)
    ensures
        gap_at(a, s, x1, y1, x) == (x - x1) * (x - xo) * (x - third_abscissa(s, x1, xo))
            + rest_slope(a, s, x1, y1, xo) * x + rest_offset(a, s, x1, y1, xo),
{
    let nu = y1 - s * x1;
    let z = third_abscissa(s, x1, xo);
    let e2 = x1 * xo + (x1 + xo) * z;
    let e3 = x1 * xo * z;
    let ss = s * s;
    let xx = x * x;
    let sn = s * nu;
    lemma_cubic_expands(x, x1, xo, z);
    lemma_line_square_expands(s, x1, y1, x);
    let cubic = (x - x1) * (x - xo) * (x - z);
    let square = line_at(s, x1, y1, x) * line_at(s, x1, y1, x);
    assert(cubic == x * x * x - ss * xx + e2 * x - e3);
    assert(square == ss * xx + 2 * sn * x + nu * nu);
    assert((a - 2 * sn - e2) * x == a * x - 2 * sn * x - e2 * x) by (nonlinear_arith);
}

/// Where the rest is congruent to zero, the third point of a line through
/// a point of the curve lies on the curve.
proof fn lemma_third_point_on_curve(c: CurveModel, s: nat, x1: nat, y1: nat, xo: nat)
    requires
        c.modulus > 0,
        on_curve(c, x1, y1),
        congruent(
            c.modulus as int,
            rest_slope(c.a as int, s as int, x1 as int, y1 as int, xo as int),
            0,
        ),
    ensures
        position_on_curve(c, third_point(c.modulus, s, x1, y1, xo)),
        is_reduced(c.modulus, third_point(c.modulus, s, x1, y1, xo)),
{
    let p = c.modulus;
    let m = p as int;
    let a = c.a as int;
    let si = s as int;
    let u1 = x1 as int;
    let v1 = y1 as int;
    let uo = xo as int;
    let z = third_abscissa(si, u1, uo);
    let big_a = rest_slope(a, si, u1, v1, uo);
    let big_b = rest_offset(a, si, u1, v1, uo);
    // at x1 the line passes through the point, so the gap vanishes there
    let g1 = gap_at(a, si, u1, v1, u1);
    assert(line_at(si, u1, v1, u1) == v1) by (nonlinear_arith)
        requires
            line_at(si, u1, v1, u1) == si * (u1 - u1) + v1,
    ;
    assert(g1 == (u1 * u1 * u1 + a * u1) - v1 * v1);
    lemma_difference_of_congruent(m, u1 * u1 * u1 + a * u1, v1 * v1);
    assert(congruent(m, g1, 0)) by {
        lemma_small_mod(0, p);
    }
    lemma_gap_splits(a, si, u1, v1, uo, u1);
    assert((u1 - u1) * (u1 - uo) * (u1 - z) == 0) by (nonlinear_arith);
    assert(g1 == big_a * u1 + big_b);
    // the rest vanishes identically modulo p
    lemma_congruent_mul(m, big_a, 0, u1, u1);
    assert(0 * u1 == 0);
    lemma_congruent_sub(m, big_a * u1 + big_b, 0, big_a * u1, 0);
    assert(congruent(m, big_b, 0));
    lemma_congruent_mul(m, big_a, 0, z, z);
    assert(0 * z == 0);
    lemma_congruent_add(m, big_a * z, 0, big_b, 0);
    // so the gap vanishes at the third abscissa
    let gz = gap_at(a, si, u1, v1, z);
    lemma_gap_splits(a, si, u1, v1, uo, z);
    assert((z - u1) * (z - uo) * (z - z) == 0) by (nonlinear_arith);
    assert(gz == big_a * z + big_b);
    let lz = line_at(si, u1, v1, z);
    assert(gz == (z * z * z + a * z) - lz * lz);
    lemma_congruent_of_difference(m, z * z * z + a * z, lz * lz);
    // the ordinate before reduction is the opposite of the line's
    let big_y = si * (u1 - z) - v1;
    assert(big_y * big_y == lz * lz) by (nonlinear_arith)
        requires
            big_y == si * (u1 - z) - v1,
            lz == si * (z - u1) + v1,
    ;
    // reduction keeps both sides of the equation
    let x3 = residue(p, z) as int;
    let y3 = residue(p, si * (u1 - x3) - v1) as int;
    lemma_mod_bound(z, m);
    lemma_mod_bound(si * (u1 - x3) - v1, m);
    lemma_congruent_remainder(m, z);
    lemma_congruent_sub(m, u1, u1, x3, z);
    lemma_congruent_mul(m, si, si, u1 - x3, u1 - z);
    lemma_congruent_sub(m, si * (u1 - x3), si * (u1 - z), v1, v1);
    lemma_congruent_remainder(m, si * (u1 - x3) - v1);
    assert(congruent(m, y3, big_y));
    lemma_congruent_mul(m, y3, big_y, y3, big_y);
    lemma_congruent_mul(m, x3, z, x3, z);
    lemma_congruent_mul(m, x3 * x3, z * z, x3, z);
    lemma_congruent_mul(m, a, a, x3, z);
    lemma_congruent_add(m, x3 * x3 * x3, z * z * z, a * x3, a * z);
    assert(congruent(m, y3 * y3, x3 * x3 * x3 + a * x3));
}

/// For the chord through two points of the curve of different abscissas,
/// the rest is congruent to zero.
proof fn lemma_chord_rest_vanishes(c: CurveModel, x1: nat, y1: nat, x2: nat, y2: nat)
    requires
        is_prime(c.modulus),
        x1 < c.modulus,
        x2 < c.modulus,
        x1 != x2,
        on_curve(c, x1, y1),
        on_curve(c, x2, y2),
    ensures
        congruent(
            c.modulus as int,
            rest_slope(
                c.a as int,
                chord_slope(c.modulus, x1, y1, x2, y2) as int,
                x1 as int,
                y1 as int,
                x2 as int,
            ),
            0,
        ),
{
    let p = c.modulus;
    let m = p as int;
    let a = c.a as int;
    let s = chord_slope(p, x1, y1, x2, y2) as int;
    let u1 = x1 as int;
    let v1 = y1 as int;
    let u2 = x2 as int;
    let v2 = y2 as int;
    let z = third_abscissa(s, u1, u2);
    let big_a = rest_slope(a, s, u1, v1, u2);
    let big_b = rest_offset(a, s, u1, v1, u2);
    lemma_small_mod(0, p);
    // the gap vanishes at x1
    let g1 = gap_at(a, s, u1, v1, u1);
    assert(line_at(s, u1, v1, u1) == v1) by (nonlinear_arith)
        requires
            line_at(s, u1, v1, u1) == s * (u1 - u1) + v1,
    ;
    lemma_difference_of_congruent(m, u1 * u1 * u1 + a * u1, v1 * v1);
    assert(congruent(m, g1, 0));
    lemma_gap_splits(a, s, u1, v1, u2, u1);
    assert((u1 - u1) * (u1 - u2) * (u1 - z) == 0) by (nonlinear_arith);
    // the line reaches the second point, so the gap vanishes at x2
    lemma_chord_slope_symmetric(p, x1, y1, x2, y2);
    let l2 = line_at(s, u1, v1, u2);
    lemma_congruent_add(m, s * (u2 - u1), v2 - v1, v1, v1);
    assert(congruent(m, l2, v2));
    lemma_congruent_mul(m, l2, v2, l2, v2);
    let cubic2 = u2 * u2 * u2 + a * u2;
    lemma_congruent_sub(m, cubic2, cubic2, l2 * l2, cubic2);
    let g2 = gap_at(a, s, u1, v1, u2);
    assert(congruent(m, g2, 0));
    lemma_gap_splits(a, s, u1, v1, u2, u2);
    assert((u2 - u1) * (u2 - u2) * (u2 - z) == 0) by (nonlinear_arith);
    // a linear rest with two roots has no slope
    assert(big_a * (u2 - u1) == (big_a * u2 + big_b) - (big_a * u1 + big_b))
        by (nonlinear_arith);
    lemma_congruent_sub(m, g2, 0, g1, 0);
    lemma_prime_divides_factor(p, big_a, u2 - u1);
    lemma_difference_nonzero(p, x1, x2);
}

/// For the tangent at a point whose doubled ordinate does not vanish, the
/// rest is congruent to zero.
proof fn lemma_tangent_rest_vanishes(c: CurveModel, x1: nat, y1: nat)
    requires
        is_prime(c.modulus),
        residue(c.modulus, (2 * y1) as int) != 0,
    ensures
        congruent(
            c.modulus as int,
            rest_slope(
                c.a as int,
                tangent_slope(c, x1, y1) as int,
                x1 as int,
                y1 as int,
                x1 as int,
            ),
            0,
        ),
{
    let p = c.modulus;
    let m = p as int;
    let a = c.a as int;
    let s = tangent_slope(c, x1, y1) as int;
    let u1 = x1 as int;
    let v1 = y1 as int;
    let big_a = rest_slope(a, s, u1, v1, u1);
    let n = 3 * (u1 * u1) + a;
    lemma_quotient_times_divisor(p, n, 2 * v1);
    assert(congruent(m, n, s * (2 * v1)));
    let nu = v1 - s * u1;
    let z = s * s - u1 - u1;
    let ss = s * s;
    let uu = u1 * u1;
    assert(s * nu == s * v1 - ss * u1) by (nonlinear_arith)
        requires
            nu == v1 - s * u1,
            ss == s * s,
    ;
    assert((u1 + u1) * z == 2 * (ss * u1) - 4 * uu) by (nonlinear_arith)
        requires
            z == ss - u1 - u1,
            uu == u1 * u1,
    ;
    assert(s * (2 * v1) == 2 * (s * v1)) by (nonlinear_arith);
    assert(big_a == n - s * (2 * v1));
    lemma_difference_of_congruent(m, n, s * (2 * v1));
    lemma_small_mod(0, p);
}

/// Over a field of odd prime modulus, twice a point of the curve is never
/// refused and lies on the curve.
pub proof fn lemma_double_closed(c: CurveModel, position: Position)
    requires
        is_prime(c.modulus),
        c.modulus > 2,
        is_reduced(c.modulus, position),
        position_on_curve(c, position),
    ensures
        double_position(c, position) is Ok,
        is_reduced(c.modulus, double_position(c, position)->Ok_0),
        position_on_curve(c, double_position(c, position)->Ok_0),
{
    let p = c.modulus;
    match position {
        Position::Infinity => {},
        Position::Affine { x, y } => {
            if y != 0 {
                if residue(p, (2 * y) as int) == 0 {
                    lemma_prime_divides_factor(p, 2, y as int);
                    lemma_small_mod(2, p);
                    lemma_small_mod(y, p);
                }
                lemma_tangent_rest_vanishes(c, x, y);
                lemma_third_point_on_curve(c, tangent_slope(c, x, y), x, y, x);
            }
        },
    }
}

/// Over a field of odd prime modulus, the sum of two points of the curve
/// is never refused and lies on the curve.
pub proof fn lemma_add_closed(c: CurveModel, first: Position, second: Position)
    requires
        is_prime(c.modulus),
        c.modulus > 2,
        is_reduced(c.modulus, first),
        is_reduced(c.modulus, second),
        position_on_curve(c, first),
        position_on_curve(c, second),
    ensures
        add_positions(c, first, second) is Ok,
        is_reduced(c.modulus, add_positions(c, first, second)->Ok_0),
        position_on_curve(c, add_positions(c, first, second)->Ok_0),
{
    let p = c.modulus;
    let m = p as int;
    match (first, second) {
        (Position::Affine { x: x1, y: y1 }, Position::Affine { x: x2, y: y2 }) => {
            if x1 != x2 {
                lemma_chord_rest_vanishes(c, x1, y1, x2, y2);
                lemma_third_point_on_curve(c, chord_slope(p, x1, y1, x2, y2), x1, y1, x2);
            } else if y1 == y2 {
                lemma_double_closed(c, first);
            } else {
                let v1 = y1 as int;
                let v2 = y2 as int;
                lemma_difference_of_congruent(m, v1 * v1, v2 * v2);
                assert((v1 - v2) * (v1 + v2) == v1 * v1 - v2 * v2) by (nonlinear_arith);
                lemma_prime_divides_factor(p, v1 - v2, v1 + v2);
                lemma_difference_nonzero(p, y2, y1);
            }
        },
        _ => {},
    }
}

} // verus!
