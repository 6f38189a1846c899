//! Exponential approximation and the sigmoid evaluator.
//!
//! The series estimator computes e^x from the Maclaurin series in pure
//! fixed-point arithmetic; its result is pinned down exactly by
//! [`spec_exp_taylor`].  The sigmoid is built from either estimator through
//! the stability identity that only ever evaluates e^(-|x|).

use vstd::arithmetic::div_mod::{
    lemma_div_by_multiple, lemma_div_is_ordered, lemma_div_is_ordered_by_denominator,
    lemma_mod_division_less_than_divisor, lemma_small_mod,
};
use vstd::arithmetic::mul::{lemma_mul_inequality, lemma_mul_upper_bound};
use vstd::pervasive::unreached;
use vstd::prelude::*;

use crate::fixed_point::{
    div_fixed, fixed_lt, from_decimal, mul_fixed, result_matches, scale_u256, spec_div_fixed,
    FixedPointError, SCALE,
};
use crate::u256::{
    u256_checked_add, u256_checked_div, u256_checked_mul, u256_checked_rem, u256_from, u256_limb0,
    u256_limit, u256_lt, u256_val,
};

verus! {

/// The series is cut off after this many terms.
pub const MAX_ITERATIONS: u64 = 8;

/// Inputs are capped at this many whole units (5.0) before the series runs.
pub const SERIES_CAP_WHOLE: u128 = 5;

/// A term below this raw magnitude (1e-15) ends the series early.
pub const NEGLIGIBLE_THRESHOLD: u128 = 1000;

/// The magnitude the series actually runs on: the input, capped at 5.0.
pub open spec fn spec_series_cap(x: nat) -> nat {
    if x > 5 * (SCALE as nat) {
        5 * (SCALE as nat)
    } else {
        x
    }
}

/// The series accumulation from iteration `i` onward, starting from the
/// given current term and partial sum.  Each step divides the scaled product
/// by the iteration index, stopping after iteration 8 or once a term falls
/// below the negligible threshold (that term is still added).
pub open spec fn spec_series_from(x: nat, term: nat, acc: nat, i: nat) -> nat
    decreases 9 - i,
{
    if i > 8 {
        acc
    } else {
        let t = (term * x / (SCALE as nat)) / i;
        if t < 1000 {
            acc + t
        } else {
            spec_series_from(x, t, acc + t, i + 1)
        }
    }
}

/// The full series sum for input `x`: seeded with 1.0 for both the first
/// term and the accumulator.
pub open spec fn spec_series_sum(x: nat) -> nat {
    spec_series_from(spec_series_cap(x), SCALE as nat, SCALE as nat, 1)
}

/// What `exp_taylor` returns: the series sum for e^|x|, reciprocated when
/// the out-of-band sign says the true input was negative.
pub open spec fn spec_exp_taylor(x: nat, is_negative: bool) -> nat {
    if is_negative {
        (SCALE as nat) * (SCALE as nat) / spec_series_sum(x)
    } else {
        spec_series_sum(x)
    }
}

/// Powers of five, used to bound the series terms.
spec fn pow5(n: nat) -> nat
    decreases n,
{
    if n == 0 {
        1
    } else {
        5 * pow5((n - 1) as nat)
    }
}

proof fn lemma_pow5_le(a: nat, b: nat)
    requires
        a <= b,
    ensures
        pow5(a) <= pow5(b),
    decreases b,
{
    if a < b {
        lemma_pow5_le(a, (b - 1) as nat);
    }
}

proof fn lemma_pow5_eight()
    ensures
        pow5(8) == 390625,
{
    assert(pow5(0) == 1);
    assert(pow5(1) == 5);
    assert(pow5(2) == 25);
    assert(pow5(3) == 125);
    assert(pow5(4) == 625);
    assert(pow5(5) == 3125);
    assert(pow5(6) == 15625);
    assert(pow5(7) == 78125);
    assert(pow5(8) == 390625);
}

/// The series only ever adds to its accumulator.
proof fn lemma_series_from_ge_acc(x: nat, term: nat, acc: nat, i: nat)
    requires
        1 <= i,
    ensures
        spec_series_from(x, term, acc, i) >= acc,
    decreases 9 - i,
{
    if i <= 8 {
        let t = (term * x / (SCALE as nat)) / i;
        if t >= 1000 {
            lemma_series_from_ge_acc(x, t, acc + t, i + 1);
        }
    }
}

/// The series sum always starts from 1.0 and never shrinks.
pub proof fn lemma_series_sum_ge_scale(x: nat)
    ensures
        spec_series_sum(x) >= SCALE,
{
    lemma_series_from_ge_acc(spec_series_cap(x), SCALE as nat, SCALE as nat, 1);
}

/// A larger input never shrinks the series: every term, and therefore the
/// accumulated sum, grows with `x`.
proof fn lemma_series_from_monotone(
    x1: nat,
    term1: nat,
    acc1: nat,
    x2: nat,
    term2: nat,
    acc2: nat,
    i: nat,
)
    requires
        x1 <= x2,
        term1 <= term2,
        acc1 <= acc2,
        1 <= i,
    ensures
        spec_series_from(x1, term1, acc1, i) <= spec_series_from(x2, term2, acc2, i),
    decreases 9 - i,
{
    if i <= 8 {
        let s = SCALE as nat;
        let t1 = (term1 * x1 / s) / i;
        let t2 = (term2 * x2 / s) / i;
        lemma_mul_upper_bound(term1 as int, term2 as int, x1 as int, x2 as int);
        lemma_div_is_ordered((term1 * x1) as int, (term2 * x2) as int, s as int);
        lemma_div_is_ordered((term1 * x1 / s) as int, (term2 * x2 / s) as int, i as int);
        if t1 < 1000 && t2 < 1000 {
        } else if t1 < 1000 {
            lemma_series_from_ge_acc(x2, t2, acc2 + t2, i + 1);
        } else {
            lemma_series_from_monotone(x1, t1, acc1 + t1, x2, t2, acc2 + t2, i + 1);
        }
    }
}

/// The series sum is non-decreasing in the input magnitude.
pub proof fn lemma_series_sum_monotone(x1: nat, x2: nat)
    requires
        x1 <= x2,
    ensures
        spec_series_sum(x1) <= spec_series_sum(x2),
{
    lemma_series_from_monotone(
        spec_series_cap(x1),
        SCALE as nat,
        SCALE as nat,
        spec_series_cap(x2),
        SCALE as nat,
        SCALE as nat,
        1,
    );
}

/// Approximates e^x by the Maclaurin series `1 + x + x^2/2! + ...`, over the
/// capped magnitude, with at most eight terms; returns the reciprocal for a
/// negative input.  No input can make the intermediate arithmetic overflow.
pub fn exp_taylor(x: &ruint::aliases::U256, is_negative: bool) -> (r: ruint::aliases::U256)
    ensures
        u256_val(r) == spec_exp_taylor(u256_val(*x), is_negative),
{
    let ghost x0 = u256_val(*x);
    let cap = from_decimal(SERIES_CAP_WHOLE);
    let xc: &ruint::aliases::U256 = if fixed_lt(&cap, x) {
        &cap
    } else {
        x
    };
    let mut result = scale_u256();
    let mut term = scale_u256();
    let mut i: u64 = 1;
    while i <= MAX_ITERATIONS
        invariant_except_break
            1 <= i <= 9,
            u256_val(*xc) == spec_series_cap(x0),
            u256_val(*xc) <= 5 * (SCALE as nat),
            u256_val(term) <= pow5((i - 1) as nat) * (SCALE as nat),
            SCALE <= u256_val(result),
            u256_val(result) <= 2 * pow5((i - 1) as nat) * (SCALE as nat),
            spec_series_from(u256_val(*xc), u256_val(term), u256_val(result), i as nat)
                == spec_series_sum(x0),
        ensures
            u256_val(result) == spec_series_sum(x0),
            SCALE <= u256_val(result),
        decreases 9 - i,
    {
        proof {
            lemma_pow5_le((i - 1) as nat, 8);
            lemma_pow5_eight();
            lemma_mul_upper_bound(
                u256_val(term) as int,
                390625 * (SCALE as int),
                u256_val(*xc) as int,
                5 * (SCALE as int),
            );
        }
        let term_scaled = match mul_fixed(&term, xc) {
            Ok(t) => t,
            Err(_) => unreached(),
        };
        let iv = u256_from(i as u128);
        let new_term = match u256_checked_div(&term_scaled, &iv) {
            Some(t) => t,
            None => unreached(),
        };
        proof {
            // The new term is at most five times the old bound.
            let p = pow5((i - 1) as nat);
            let s = SCALE as nat;
            let tv = u256_val(term);
            let xv = u256_val(*xc);
            assert(tv * xv <= (p * 5 * s) * s) by (nonlinear_arith)
                requires
                    tv <= p * s,
                    xv <= 5 * s,
            ;
            lemma_div_is_ordered((tv * xv) as int, ((p * 5 * s) * s) as int, s as int);
            lemma_div_by_multiple((p * 5 * s) as int, s as int);
            lemma_div_is_ordered_by_denominator((tv * xv / s) as int, 1, i as int);
            assert(u256_val(new_term) <= p * 5 * s);
            assert(pow5(i as nat) == 5 * p);
            assert(p * 5 * s == pow5(i as nat) * s);
            // Keep everything far below the 256-bit limit.
            lemma_mul_inequality(p as int, 390625, s as int);
        }
        let new_result = match u256_checked_add(&result, &new_term) {
            Some(r) => r,
            None => unreached(),
        };
        result = new_result;
        term = new_term;
        let threshold = u256_from(NEGLIGIBLE_THRESHOLD);
        if u256_lt(&term, &threshold) {
            break;
        }
        i = i + 1;
    }
    if is_negative {
        proof {
            lemma_series_sum_ge_scale(x0);
        }
        let s = scale_u256();
        match div_fixed(&s, &result) {
            Ok(r) => r,
            Err(_) => unreached(),
        }
    } else {
        result
    }
}

/// e^(-|x|) from the series never exceeds 1.0: the sum it reciprocates
/// starts at 1.0 and only grows.
pub proof fn lemma_exp_taylor_neg_le_scale(x: nat)
    ensures
        spec_exp_taylor(x, true) <= SCALE,
{
    let s = SCALE as nat;
    lemma_series_sum_ge_scale(x);
    lemma_div_is_ordered_by_denominator((s * s) as int, s as int, spec_series_sum(x) as int);
    lemma_div_by_multiple(s as int, s as int);
}

/// e^(-x) from the series does not grow with x: a larger magnitude means a
/// larger sum to reciprocate.
pub proof fn lemma_exp_taylor_neg_antitone(x1: nat, x2: nat)
    requires
        x1 <= x2,
    ensures
        spec_exp_taylor(x2, true) <= spec_exp_taylor(x1, true),
{
    let s = SCALE as nat;
    lemma_series_sum_ge_scale(x1);
    lemma_series_sum_monotone(x1, x2);
    lemma_div_is_ordered_by_denominator(
        (s * s) as int,
        spec_series_sum(x1) as int,
        spec_series_sum(x2) as int,
    );
}

/// A pluggable strategy for evaluating e^x on fixed-point magnitudes.
///
/// The evaluator's contract ties the executable result to `exp_spec`, the
/// estimator's mathematical specification.  By default an estimator is
/// specified as the Maclaurin series; an estimator implemented outside the
/// library inherits that specification without a verified link to its
/// runtime behaviour.
pub trait ExpEstimator {
    /// The value this estimator returns on magnitude `x` with sign flag
    /// `is_negative`.
    open spec fn exp_spec(&self, x: nat, is_negative: bool) -> nat {
        spec_exp_taylor(x, is_negative)
    }

    /// Evaluates the estimator.
    fn exp(&self, x: &ruint::aliases::U256, is_negative: bool) -> (r: ruint::aliases::U256)
        ensures
            u256_val(r) == self.exp_spec(u256_val(*x), is_negative),
    ;
}

/// The pure-integer Maclaurin-series estimator: its specification is the
/// trait's own, and its evaluation is proved to meet it.
pub struct SeriesEstimator;

impl ExpEstimator for SeriesEstimator {
    fn exp(&self, x: &ruint::aliases::U256, is_negative: bool) -> (r: ruint::aliases::U256) {
        exp_taylor(x, is_negative)
    }
}

/// What the sigmoid returns once the estimator's value `e` for e^(-|x|) is
/// known: `e / (1 + e)` when the true input was negative, `1 / (1 + e)`
/// otherwise, both over fixed-point division.
pub open spec fn spec_sigmoid_from_exp(e: nat, is_negative: bool) -> Result<nat, FixedPointError> {
    if (SCALE as nat) + e >= u256_limit() {
        Err(FixedPointError::Overflow)
    } else if is_negative {
        spec_div_fixed(e, (SCALE as nat) + e)
    } else {
        spec_div_fixed(SCALE as nat, (SCALE as nat) + e)
    }
}

/// Combines an already-computed value for e^(-|x|) into the logistic
/// function, using the numerically stable identity for each sign.
pub fn sigmoid_from_exp(exp_neg_x: &ruint::aliases::U256, is_negative: bool) -> (r: Result<
    ruint::aliases::U256,
    FixedPointError,
>)
    ensures
        result_matches(r, spec_sigmoid_from_exp(u256_val(*exp_neg_x), is_negative)),
{
    let s = scale_u256();
    match u256_checked_add(&s, exp_neg_x) {
        Some(denom) => {
            if is_negative {
                div_fixed(exp_neg_x, &denom)
            } else {
                div_fixed(&s, &denom)
            }
        },
        None => Err(FixedPointError::Overflow),
    }
}

/// The logistic function `1 / (1 + e^(-x))` over a magnitude and an
/// out-of-band sign, built on the injected estimator.  Only e^(-|x|) is ever
/// evaluated, so no estimate of e^x for large x can overflow.
pub fn sigmoid_fixed<E: ExpEstimator>(
    x: &ruint::aliases::U256,
    is_negative: bool,
    estimator: &E,
) -> (r: Result<ruint::aliases::U256, FixedPointError>)
    ensures
        result_matches(
            r,
            spec_sigmoid_from_exp(estimator.exp_spec(u256_val(*x), true), is_negative),
        ),
{
    let exp_neg_x = estimator.exp(x, true);
    sigmoid_from_exp(&exp_neg_x, is_negative)
}

/// Splits a magnitude into what the round-trip estimator feeds to the
/// native floating exponential: the low 64 bits of the whole part, and the
/// fractional raw part (which always fits 64 bits, being below SCALE).
pub fn exp_input_parts(x: &ruint::aliases::U256) -> (r: (u64, u64))
    ensures
        r.0 == (u256_val(*x) / (SCALE as nat)) % 0x10000000000000000nat,
        r.1 == u256_val(*x) % (SCALE as nat),
{
    let s = scale_u256();
    let int_part = match u256_checked_div(x, &s) {
        Some(q) => q,
        None => unreached(),
    };
    let frac_part = match u256_checked_rem(x, &s) {
        Some(m) => m,
        None => unreached(),
    };
    proof {
        lemma_mod_division_less_than_divisor(u256_val(*x) as int, SCALE as int);
        lemma_small_mod(u256_val(frac_part), 0x10000000000000000nat);
    }
    let lo = u256_limb0(&int_part);
    let fr = u256_limb0(&frac_part);
    (lo, fr)
}

/// The saturation value the round-trip estimator returns when the floating
/// exponential overflows: the largest 128-bit value, scaled, then reduced a
/// thousandfold.  Callers must treat results near it as "very large".
pub fn exp_overflow_sentinel() -> (r: ruint::aliases::U256)
    ensures
        u256_val(r) == (0xffffffffffffffffffffffffffffffffnat * (SCALE as nat)) / 1000,
{
    let m = u256_from(u128::MAX);
    let s = scale_u256();
    let product = match u256_checked_mul(&m, &s) {
        Some(p) => p,
        None => unreached(),
    };
    let thousand = u256_from(1000);
    match u256_checked_div(&product, &thousand) {
        Some(q) => q,
        None => unreached(),
    }
}

/// Recomposes the separated whole and fractional parts of a floating
/// exponential's result into a fixed-point value: `whole * SCALE + frac`.
pub fn exp_recompose(whole: u128, frac: u128) -> (r: ruint::aliases::U256)
    ensures
        u256_val(r) == whole * SCALE + frac,
{
    let w = u256_from(whole);
    let s = scale_u256();
    proof {
        lemma_mul_inequality(whole as int, u128::MAX as int, SCALE as int);
    }
    let scaled = match u256_checked_mul(&w, &s) {
        Some(p) => p,
        None => unreached(),
    };
    let f = u256_from(frac);
    match u256_checked_add(&scaled, &f) {
        Some(r) => r,
        None => unreached(),
    }
}

} // verus!
