//! Trusted surface over `ruint`'s 256-bit unsigned integer.
//!
//! Every fixed-point magnitude in this crate is stored in a
//! `ruint::aliases::U256`.  The value such an integer holds is named by the
//! uninterpreted function [`u256_val`]; the wrappers below state, over that
//! name, what `ruint`'s arithmetic returns.  Everything else in the crate is
//! proved from these contracts.

use vstd::prelude::*;

verus! {

#[verifier::external_type_specification]
#[verifier::external_body]
pub struct ExUint<const BITS: usize, const LIMBS: usize>(ruint::Uint<BITS, LIMBS>);

/// The numeric value a 256-bit integer holds, in `0 .. u256_limit()`.
pub uninterp spec fn u256_val(x: ruint::aliases::U256) -> nat;

/// One past the largest value a 256-bit unsigned integer can hold: 2^256.
pub open spec fn u256_limit() -> nat {
    0x10000000000000000000000000000000000000000000000000000000000000000nat
}

/// Relies on `ruint::Uint::from::<u128>`: builds the integer with that value.
/// A `u128` always fits in 256 bits, so the conversion cannot fail.
#[verifier::external_body]
pub(crate) fn u256_from(v: u128) -> (r: ruint::aliases::U256)
    ensures
        u256_val(r) == v,
        u256_val(r) < u256_limit(),
{
    ruint::aliases::U256::from(v)
}

/// Relies on `ruint::Uint::checked_add`: the sum, or `None` on overflow.
#[verifier::external_body]
pub(crate) fn u256_checked_add(a: &ruint::aliases::U256, b: &ruint::aliases::U256) -> (r: Option<
    ruint::aliases::U256,
>)
    ensures
        match r {
            Some(c) => u256_val(*a) + u256_val(*b) < u256_limit() && u256_val(c) == u256_val(*a)
                + u256_val(*b),
            None => u256_val(*a) + u256_val(*b) >= u256_limit(),
        },
{
    (*a).checked_add(*b)
}

/// Relies on `ruint::Uint::checked_sub`: the difference, or `None` when the
/// subtrahend is larger.
#[verifier::external_body]
pub(crate) fn u256_checked_sub(a: &ruint::aliases::U256, b: &ruint::aliases::U256) -> (r: Option<
    ruint::aliases::U256,
>)
    ensures
        match r {
            Some(c) => u256_val(*b) <= u256_val(*a) && u256_val(c) == u256_val(*a) - u256_val(*b),
            None => u256_val(*a) < u256_val(*b),
        },
{
    (*a).checked_sub(*b)
}

/// Relies on `ruint::Uint::checked_mul`: the product, or `None` on overflow.
#[verifier::external_body]
pub(crate) fn u256_checked_mul(a: &ruint::aliases::U256, b: &ruint::aliases::U256) -> (r: Option<
    ruint::aliases::U256,
>)
    ensures
        match r {
            Some(c) => u256_val(*a) * u256_val(*b) < u256_limit() && u256_val(c) == u256_val(*a)
                * u256_val(*b),
            None => u256_val(*a) * u256_val(*b) >= u256_limit(),
        },
{
    (*a).checked_mul(*b)
}

/// Relies on `ruint::Uint::checked_div`: the quotient rounded toward zero, or
/// `None` for a zero divisor.
#[verifier::external_body]
pub(crate) fn u256_checked_div(a: &ruint::aliases::U256, b: &ruint::aliases::U256) -> (r: Option<
    ruint::aliases::U256,
>)
    ensures
        match r {
            Some(c) => u256_val(*b) != 0 && u256_val(c) == u256_val(*a) / u256_val(*b),
            None => u256_val(*b) == 0,
        },
{
    (*a).checked_div(*b)
}

/// Relies on `ruint::Uint::checked_rem`: the remainder of truncating
/// division, or `None` for a zero divisor.
#[verifier::external_body]
pub(crate) fn u256_checked_rem(a: &ruint::aliases::U256, b: &ruint::aliases::U256) -> (r: Option<
    ruint::aliases::U256,
>)
    ensures
        match r {
            Some(c) => u256_val(*b) != 0 && u256_val(c) == u256_val(*a) % u256_val(*b),
            None => u256_val(*b) == 0,
        },
{
    (*a).checked_rem(*b)
}

/// Relies on `ruint::Uint`'s `PartialOrd`: comparison by numeric value.
#[verifier::external_body]
pub(crate) fn u256_lt(a: &ruint::aliases::U256, b: &ruint::aliases::U256) -> (r: bool)
    ensures
        r == (u256_val(*a) < u256_val(*b)),
{
    *a < *b
}

/// Relies on `ruint::Uint::is_zero`.
#[verifier::external_body]
pub(crate) fn u256_is_zero(a: &ruint::aliases::U256) -> (r: bool)
    ensures
        r == (u256_val(*a) == 0),
{
    (*a).is_zero()
}

/// Relies on `ruint::Uint::MAX` and `PartialOrd`: every 256-bit integer is
/// at most `MAX`, that is, strictly below 2^256.
#[verifier::external_body]
pub(crate) fn u256_in_range(a: &ruint::aliases::U256) -> (r: bool)
    ensures
        r,
        r == (u256_val(*a) < u256_limit()),
{
    *a <= ruint::aliases::U256::MAX
}

/// Relies on `ruint::Uint` being `Copy`: duplicating the integer keeps its
/// value.
#[verifier::external_body]
pub(crate) fn u256_dup(a: &ruint::aliases::U256) -> (r: ruint::aliases::U256)
    ensures
        u256_val(r) == u256_val(*a),
{
    *a
}

/// Relies on `ruint::Uint::as_limbs`: limbs are in little-endian order, so
/// the first limb is the value reduced modulo 2^64.
#[verifier::external_body]
pub(crate) fn u256_limb0(a: &ruint::aliases::U256) -> (r: u64)
    ensures
        r == u256_val(*a) % 0x10000000000000000nat,
{
    (*a).as_limbs()[0]
}

} // verus!
