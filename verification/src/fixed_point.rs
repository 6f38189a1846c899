//! Fixed-point decimal arithmetic over 256-bit magnitudes.
//!
//! A value `v` stands for the real number `v / SCALE`, with `SCALE = 10^18`.
//! Every operation truncates toward zero; overflow and division by zero are
//! reported through [`FixedPointError`], never silently clamped.

use vstd::arithmetic::div_mod::{
    lemma_div_by_multiple, lemma_div_is_ordered, lemma_fundamental_div_mod,
};
use vstd::arithmetic::mul::lemma_mul_inequality;
use vstd::pervasive::unreached;
use vstd::prelude::*;

use crate::u256::{
    u256_checked_div, u256_checked_mul, u256_from, u256_is_zero, u256_limit, u256_lt, u256_val,
};

verus! {

/// The scaling factor: one whole unit holds 18 fractional decimal digits.
pub const SCALE: u128 = 1_000_000_000_000_000_000;

/// How an arithmetic primitive can fail.  Either kind aborts the computation
/// in progress and is surfaced to the caller.
#[derive(Clone, Copy, Debug, PartialEq, Eq, Structural)]
pub enum FixedPointError {
    /// The divisor handed to `div_fixed` was zero.
    DivisionByZero,
    /// An intermediate magnitude does not fit in 256 bits.
    Overflow,
}

/// Relates an executable result to its mathematical counterpart: success
/// carries exactly the specified value, failure exactly the specified error.
pub open spec fn result_matches(
    r: Result<ruint::aliases::U256, FixedPointError>,
    s: Result<nat, FixedPointError>,
) -> bool {
    match r {
        Ok(v) => s == Ok::<nat, FixedPointError>(u256_val(v)),
        Err(e) => s == Err::<nat, FixedPointError>(e),
    }
}

/// What `mul_fixed` returns: `(a * b) / SCALE`, truncated, unless the
/// double-width product exceeds 256 bits.
pub open spec fn spec_mul_fixed(a: nat, b: nat) -> Result<nat, FixedPointError> {
    if a * b < u256_limit() {
        Ok((a * b) / (SCALE as nat))
    } else {
        Err(FixedPointError::Overflow)
    }
}

/// What `div_fixed` returns: `(a * SCALE) / b`, truncated; a zero divisor is
/// rejected before the scaled numerator is formed.
pub open spec fn spec_div_fixed(a: nat, b: nat) -> Result<nat, FixedPointError> {
    if b == 0 {
        Err(FixedPointError::DivisionByZero)
    } else if a * (SCALE as nat) >= u256_limit() {
        Err(FixedPointError::Overflow)
    } else {
        Ok((a * (SCALE as nat)) / b)
    }
}

/// What `to_basis_points` returns: `(a * 10000) / SCALE`, truncated.
pub open spec fn spec_to_basis_points(a: nat) -> Result<nat, FixedPointError> {
    if a * 10000 < u256_limit() {
        Ok((a * 10000) / (SCALE as nat))
    } else {
        Err(FixedPointError::Overflow)
    }
}

/// Builds the fixed-point representation of the whole number `value`.
/// A `u128` input can always be scaled without overflowing 256 bits.
pub fn from_decimal(value: u128) -> (r: ruint::aliases::U256)
    ensures
        u256_val(r) == value * SCALE,
{
    let v = u256_from(value);
    let s = u256_from(SCALE);
    proof {
        lemma_mul_inequality(value as int, u128::MAX as int, SCALE as int);
        assert((u128::MAX as nat) * (SCALE as nat) < u256_limit());
    }
    match u256_checked_mul(&v, &s) {
        Some(r) => r,
        None => unreached(),
    }
}

/// Builds a fixed-point value directly from its raw (already scaled) form.
pub fn from_raw(raw: u128) -> (r: ruint::aliases::U256)
    ensures
        u256_val(r) == raw,
{
    u256_from(raw)
}

/// The scaling factor as a fixed-point value, representing 1.0.
pub fn scale_u256() -> (r: ruint::aliases::U256)
    ensures
        u256_val(r) == SCALE,
{
    u256_from(SCALE)
}

/// Multiplies two fixed-point values: `(a * b) / SCALE`, truncated.
pub fn mul_fixed(a: &ruint::aliases::U256, b: &ruint::aliases::U256) -> (r: Result<
    ruint::aliases::U256,
    FixedPointError,
>)
    ensures
        result_matches(r, spec_mul_fixed(u256_val(*a), u256_val(*b))),
{
    match u256_checked_mul(a, b) {
        Some(p) => {
            let s = u256_from(SCALE);
            match u256_checked_div(&p, &s) {
                Some(q) => Ok(q),
                None => unreached(),
            }
        },
        None => Err(FixedPointError::Overflow),
    }
}

/// Divides two fixed-point values: `(a * SCALE) / b`, truncated.
pub fn div_fixed(a: &ruint::aliases::U256, b: &ruint::aliases::U256) -> (r: Result<
    ruint::aliases::U256,
    FixedPointError,
>)
    ensures
        result_matches(r, spec_div_fixed(u256_val(*a), u256_val(*b))),
{
    if u256_is_zero(b) {
        return Err(FixedPointError::DivisionByZero);
    }
    let s = u256_from(SCALE);
    match u256_checked_mul(a, &s) {
        Some(scaled) => match u256_checked_div(&scaled, b) {
            Some(q) => Ok(q),
            None => unreached(),
        },
        None => Err(FixedPointError::Overflow),
    }
}

/// Squares a fixed-point value: `multiply(a, a)`.
pub fn square_fixed(a: &ruint::aliases::U256) -> (r: Result<ruint::aliases::U256, FixedPointError>)
    ensures
        result_matches(r, spec_mul_fixed(u256_val(*a), u256_val(*a))),
{
    mul_fixed(a, a)
}

/// Converts a fixed-point value to basis points: `(a * 10000) / SCALE`,
/// truncated.  Meant for display, not for price math.
pub fn to_basis_points(a: &ruint::aliases::U256) -> (r: Result<
    ruint::aliases::U256,
    FixedPointError,
>)
    ensures
        result_matches(r, spec_to_basis_points(u256_val(*a))),
{
    let t = u256_from(10000);
    match u256_checked_mul(a, &t) {
        Some(p) => {
            let s = u256_from(SCALE);
            match u256_checked_div(&p, &s) {
                Some(q) => Ok(q),
                None => unreached(),
            }
        },
        None => Err(FixedPointError::Overflow),
    }
}

/// Numeric comparison of two fixed-point values.
pub fn fixed_lt(a: &ruint::aliases::U256, b: &ruint::aliases::U256) -> (r: bool)
    ensures
        r == (u256_val(*a) < u256_val(*b)),
{
    u256_lt(a, b)
}

/// SCALE is the multiplicative identity: multiplying by it, or dividing by
/// it, returns any in-range value unchanged.
pub proof fn lemma_scale_identity(x: nat)
    requires
        x * SCALE < u256_limit(),
    ensures
        spec_mul_fixed(x, SCALE as nat) == Ok::<nat, FixedPointError>(x),
        spec_div_fixed(x, SCALE as nat) == Ok::<nat, FixedPointError>(x),
{
    lemma_div_by_multiple(x as int, SCALE as int);
}

/// Truncating division respects the ordering of the underlying fractions:
/// `a/b <= c/d` whenever `a*d <= c*b`.
pub proof fn lemma_div_frac_le(a: nat, b: nat, c: nat, d: nat)
    requires
        0 < b,
        0 < d,
        a * d <= c * b,
    ensures
        a / b <= c / d,
{
    let q = a / b;
    lemma_fundamental_div_mod(a as int, b as int);
    assert(q * b <= a) by (nonlinear_arith)
        requires
            b > 0,
            a == b * (a / b) + a % b,
            a % b >= 0,
            q == a / b,
    ;
    assert(q * d <= c) by (nonlinear_arith)
        requires
            q * b <= a,
            a * d <= c * b,
            b > 0,
            d >= 0,
    ;
    lemma_div_is_ordered((q * d) as int, c as int, d as int);
    lemma_div_by_multiple(q as int, d as int);
}

/// Dividing by `b` and multiplying the quotient back by `b` recovers the
/// dividend to within one raw unit, for divisors of at most one whole unit.
pub proof fn lemma_div_mul_round_trip(a: nat, b: nat)
    requires
        0 < b <= SCALE,
        a * SCALE < u256_limit(),
    ensures
        spec_div_fixed(a, b) == Ok::<nat, FixedPointError>(a * (SCALE as nat) / b),
        spec_mul_fixed(a * (SCALE as nat) / b, b) matches Ok(m) && m <= a && a <= m + 1,
{
    let s = SCALE as nat;
    let q = a * s / b;
    lemma_fundamental_div_mod((a * s) as int, b as int);
    assert(q * b <= a * s && q * b + b > a * s) by (nonlinear_arith)
        requires
            b > 0,
            a * s == b * (a * s / b) + (a * s) % b,
            0 <= (a * s) % b < b,
            q == a * s / b,
    ;
    // The product fits, so `spec_mul_fixed` succeeds.
    assert(q * b < u256_limit());
    let m = q * b / s;
    // Upper bound: m <= a.
    lemma_div_is_ordered((q * b) as int, (a * s) as int, s as int);
    lemma_div_by_multiple(a as int, s as int);
    // Lower bound: m + 1 >= a.
    if a > 0 {
        assert(((a - 1) as nat) * s <= q * b) by (nonlinear_arith)
            requires
                a >= 1,
                b <= s,
                q * b + b > a * s,
        ;
        lemma_div_is_ordered((((a - 1) as nat) * s) as int, (q * b) as int, s as int);
        lemma_div_by_multiple((a - 1) as int, s as int);
    }
}

} // verus!
