//! Arithmetic core for a CSIDH-style key exchange: arbitrary-precision
//! naturals, a prime field and its elements, the curve `y^2 = x^3 + A x`
//! with its group law, the search for a modulus `4 * l_1 * ... * l_n - 1`,
//! and the sampling of private exponent vectors.
//!
//! Everything is verified but the calls into `num_bigint`, `num_primes`
//! and `rand`, each of which stands in one small function whose contract is
//! taken on trust: the arithmetic of `natural::Natural`, the primality test
//! in `params` and the random draw in `keys`.
//!
//! The fields, curves and points keep their invariants to themselves, so
//! their operations ask nothing of well-typed arguments. Beside the
//! operations stand the laws: `field_laws` for the field, `curve_laws` for
//! the group law, both resting on `number_theory`.

pub mod natural;
pub mod number_theory;
pub mod field;
pub mod field_laws;
pub mod curve;
pub mod curve_laws;
pub mod primes;
pub mod params;
pub mod keys;
