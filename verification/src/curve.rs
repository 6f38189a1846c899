//! The bonding-curve price function and its numerical integrator.
//!
//! The price of a supply level `s` is `A / (1 + e^(-k*(s - B)))`: the
//! asymptotic maximum `a` scaled by the sigmoid of the steepness-weighted
//! distance from the inflection supply `b`.  The integrator sums the price
//! over a fixed 100-step left-rectangle rule to size trades.

use vstd::arithmetic::div_mod::{
    lemma_div_by_multiple, lemma_div_denominator, lemma_div_is_ordered,
    lemma_div_is_ordered_by_denominator, lemma_fundamental_div_mod,
};
use vstd::arithmetic::mul::{lemma_mul_inequality, lemma_mul_left_inequality};
use vstd::pervasive::unreached;
use vstd::prelude::*;

use crate::fixed_point::{
    lemma_div_frac_le, mul_fixed, result_matches, spec_mul_fixed, FixedPointError, SCALE,
};
use crate::sigmoid_math::{
    lemma_exp_taylor_neg_antitone, lemma_exp_taylor_neg_le_scale, sigmoid_fixed, spec_exp_taylor,
    spec_series_sum, spec_sigmoid_from_exp, ExpEstimator, SeriesEstimator,
};
use crate::u256::{
    u256_checked_add, u256_checked_div, u256_checked_sub, u256_dup, u256_from, u256_in_range,
    u256_limit, u256_lt, u256_val,
};

verus! {

/// The integrator always takes this many left-rectangle steps.
pub const INTEGRATION_STEPS: u64 = 100;

/// What `calculate_sigmoid_price` returns: the distance of the supply from
/// the inflection point is weighted by the steepness, pushed through the
/// sigmoid, and scaled by the maximum price; the first failing primitive
/// aborts the computation.
pub open spec fn spec_price<E: ExpEstimator>(
    estimator: E,
    supply: nat,
    a: nat,
    k: nat,
    b: nat,
) -> Result<nat, FixedPointError> {
    let diff = if supply >= b {
        (supply - b) as nat
    } else {
        (b - supply) as nat
    };
    let neg = supply < b;
    match spec_mul_fixed(k, diff) {
        Err(e) => Err(e),
        Ok(kd) => match spec_sigmoid_from_exp(estimator.exp_spec(kd, true), neg) {
            Err(e) => Err(e),
            Ok(sig) => spec_mul_fixed(a, sig),
        },
    }
}

/// Prices one supply level on the bonding curve.
pub fn calculate_sigmoid_price<E: ExpEstimator>(
    supply: &ruint::aliases::U256,
    a: &ruint::aliases::U256,
    k: &ruint::aliases::U256,
    b: &ruint::aliases::U256,
    estimator: &E,
) -> (r: Result<ruint::aliases::U256, FixedPointError>)
    ensures
        result_matches(
            r,
            spec_price(*estimator, u256_val(*supply), u256_val(*a), u256_val(*k), u256_val(*b)),
        ),
{
    let (diff, is_negative) = match u256_checked_sub(supply, b) {
        Some(d) => (d, false),
        None => match u256_checked_sub(b, supply) {
            Some(d) => (d, true),
            None => unreached(),
        },
    };
    let k_diff = match mul_fixed(k, &diff) {
        Ok(v) => v,
        Err(e) => {
            return Err(e);
        },
    };
    let sig = match sigmoid_fixed(&k_diff, is_negative, estimator) {
        Ok(v) => v,
        Err(e) => {
            return Err(e);
        },
    };
    mul_fixed(a, &sig)
}

/// The width of one integration step: a hundredth of the supply range,
/// truncated; zero for an empty or reversed range.
pub open spec fn spec_step_size(from: nat, to: nat) -> nat {
    if to > from {
        ((to - from) as nat) / 100
    } else {
        0
    }
}

/// The integral accumulation with `n` steps left: each step prices the
/// current supply, scales by the step width, and adds to the accumulator;
/// the first failing step aborts with its error.
pub open spec fn spec_integral_from<E: ExpEstimator>(
    estimator: E,
    current: nat,
    step: nat,
    a: nat,
    k: nat,
    b: nat,
    acc: nat,
    n: nat,
) -> Result<nat, FixedPointError>
    decreases n,
{
    if n == 0 {
        Ok(acc)
    } else {
        match spec_price(estimator, current, a, k, b) {
            Err(e) => Err(e),
            Ok(p) => match spec_mul_fixed(p, step) {
                Err(e) => Err(e),
                Ok(chunk) => {
                    if acc + chunk >= u256_limit() {
                        Err(FixedPointError::Overflow)
                    } else {
                        spec_integral_from(
                            estimator,
                            current + step,
                            step,
                            a,
                            k,
                            b,
                            acc + chunk,
                            (n - 1) as nat,
                        )
                    }
                },
            },
        }
    }
}

/// What `sigmoid_integral` returns: the 100-step left-rectangle sum over
/// `[from, to)`.
pub open spec fn spec_integral<E: ExpEstimator>(
    estimator: E,
    from: nat,
    to: nat,
    a: nat,
    k: nat,
    b: nat,
) -> Result<nat, FixedPointError> {
    spec_integral_from(estimator, from, spec_step_size(from, to), a, k, b, 0, 100)
}

/// Integrates the price function between two supply points, for exact trade
/// sizing.  A reversed or empty range integrates to zero width.
#[verifier::loop_isolation(false)]
pub fn sigmoid_integral<E: ExpEstimator>(
    from_supply: &ruint::aliases::U256,
    to_supply: &ruint::aliases::U256,
    a: &ruint::aliases::U256,
    k: &ruint::aliases::U256,
    b: &ruint::aliases::U256,
    estimator: &E,
) -> (r: Result<ruint::aliases::U256, FixedPointError>)
    ensures
        result_matches(
            r,
            spec_integral(
                *estimator,
                u256_val(*from_supply),
                u256_val(*to_supply),
                u256_val(*a),
                u256_val(*k),
                u256_val(*b),
            ),
        ),
{
    let ghost f0 = u256_val(*from_supply);
    let ghost t0 = u256_val(*to_supply);
    let ghost a0 = u256_val(*a);
    let ghost k0 = u256_val(*k);
    let ghost b0 = u256_val(*b);
    let ghost total = spec_integral(*estimator, f0, t0, a0, k0, b0);
    let _from_in_range = u256_in_range(from_supply);
    let _to_in_range = u256_in_range(to_supply);
    let ghost maxv = if t0 > f0 {
        t0
    } else {
        f0
    };
    let step_size = if u256_lt(from_supply, to_supply) {
        let d = match u256_checked_sub(to_supply, from_supply) {
            Some(d) => d,
            None => unreached(),
        };
        let hundred = u256_from(100);
        match u256_checked_div(&d, &hundred) {
            Some(q) => q,
            None => unreached(),
        }
    } else {
        u256_from(0)
    };
    let ghost step = u256_val(step_size);
    proof {
        if t0 > f0 {
            lemma_fundamental_div_mod((t0 - f0) as int, 100);
        }
        assert(f0 + 100 * step <= maxv);
    }
    let mut integral = u256_from(0);
    let mut current_supply = u256_dup(from_supply);
    let mut j: u64 = 0;
    while j < INTEGRATION_STEPS
        invariant
            j <= 100,
            u256_val(step_size) == step,
            u256_val(current_supply) == f0 + j * step,
            f0 + 100 * step <= maxv,
            maxv < u256_limit(),
            spec_integral_from(
                *estimator,
                u256_val(current_supply),
                step,
                a0,
                k0,
                b0,
                u256_val(integral),
                (100 - j) as nat,
            ) == total,
        decreases 100 - j,
    {
        let price = match calculate_sigmoid_price(&current_supply, a, k, b, estimator) {
            Ok(p) => p,
            Err(e) => {
                return Err(e);
            },
        };
        let chunk = match mul_fixed(&price, &step_size) {
            Ok(c) => c,
            Err(e) => {
                return Err(e);
            },
        };
        let new_integral = match u256_checked_add(&integral, &chunk) {
            Some(v) => v,
            None => {
                return Err(FixedPointError::Overflow);
            },
        };
        proof {
            lemma_mul_inequality((j + 1) as int, 100, step as int);
            assert(((j + 1) as nat) * step == j * step + step) by (nonlinear_arith);
        }
        let new_current = match u256_checked_add(&current_supply, &step_size) {
            Some(v) => v,
            None => unreached(),
        };
        integral = new_integral;
        current_supply = new_current;
        j = j + 1;
    }
    Ok(integral)
}

/// One integration step of width zero adds nothing: the priced rectangle is
/// empty, so the accumulator passes through unchanged.
proof fn lemma_integral_zero_step<E: ExpEstimator>(
    estimator: E,
    s: nat,
    a: nat,
    k: nat,
    b: nat,
    acc: nat,
    n: nat,
)
    requires
        spec_price(estimator, s, a, k, b) is Ok,
        acc < u256_limit(),
    ensures
        spec_integral_from(estimator, s, 0, a, k, b, acc, n) == Ok::<nat, FixedPointError>(acc),
    decreases n,
{
    if n > 0 {
        lemma_integral_zero_step(estimator, s, a, k, b, acc, (n - 1) as nat);
    }
}

/// A zero-width range integrates to exactly zero: with no distance between
/// the bounds every rectangle is empty, whatever the supply.
pub proof fn lemma_integral_degenerate<E: ExpEstimator>(
    estimator: E,
    s: nat,
    a: nat,
    k: nat,
    b: nat,
)
    requires
        spec_price(estimator, s, a, k, b) is Ok,
    ensures
        spec_integral(estimator, s, s, a, k, b) == Ok::<nat, FixedPointError>(0),
{
    lemma_integral_zero_step(estimator, s, a, k, b, 0, 100);
}

/// At the inflection supply the curve sits exactly halfway up: pricing
/// `supply == b` with the series estimator yields `a/2`, truncated once by
/// the final division.
pub proof fn lemma_price_at_inflection(a: nat, k: nat, b: nat)
    requires
        a * ((SCALE as nat) / 2) < u256_limit(),
    ensures
        spec_price(SeriesEstimator, b, a, k, b) == Ok::<nat, FixedPointError>(a / 2),
{
    let s = SCALE as nat;
    let h = s / 2;
    // The series at zero stops at its first, negligible term: the sum is 1.0
    // and so is e^(-0).
    assert(spec_exp_taylor(0, true) == s) by {
        assert(spec_series_sum(0) == s);
        lemma_div_by_multiple(s as int, s as int);
    };
    // The sigmoid halves the scale: (s*s) / (2*s) == s/2.
    assert(spec_sigmoid_from_exp(s, false) == Ok::<nat, FixedPointError>(h)) by {
        lemma_div_denominator((s * s) as int, s as int, 2);
        lemma_div_by_multiple(s as int, s as int);
    };
    // The final scaling halves `a`: (a*h) / s == a/2 because s == 2*h.
    assert((a * h) / s == a / 2) by {
        lemma_div_denominator((a * h) as int, h as int, 2);
        lemma_div_by_multiple(a as int, h as int);
    };
}

/// The negative branch of the sigmoid grows with the exponential value:
/// `e/(1+e)` is non-decreasing in `e`, even under truncating division.
proof fn lemma_sig_neg_monotone(e1: nat, e2: nat)
    requires
        e1 <= e2,
    ensures
        (e1 * (SCALE as nat)) / ((SCALE as nat) + e1) <= (e2 * (SCALE as nat)) / ((SCALE as nat)
            + e2),
{
    let s = SCALE as nat;
    assert((e1 * s) * (s + e2) <= (e2 * s) * (s + e1)) by (nonlinear_arith)
        requires
            e1 <= e2,
    ;
    lemma_div_frac_le(e1 * s, s + e1, e2 * s, s + e2);
}

/// With a positive steepness the price never falls as the supply grows:
/// whenever two supplies both price successfully, the lower supply prices at
/// most as high as the larger one.  This holds for any estimator whose
/// specification is bounded by 1.0 and non-increasing on the negative side,
/// as the logistic identity requires.
pub proof fn lemma_price_monotone<E: ExpEstimator>(
    estimator: E,
    s1: nat,
    s2: nat,
    a: nat,
    k: nat,
    b: nat,
)
    requires
        s1 < s2,
        k > 0,
        spec_price(estimator, s1, a, k, b) is Ok,
        spec_price(estimator, s2, a, k, b) is Ok,
        forall|x: nat| #[trigger] estimator.exp_spec(x, true) <= SCALE,
        forall|x1: nat, x2: nat|
            #![trigger estimator.exp_spec(x1, true), estimator.exp_spec(x2, true)]
            x1 <= x2 ==> estimator.exp_spec(x2, true) <= estimator.exp_spec(x1, true),
    ensures
        spec_price(estimator, s1, a, k, b) matches Ok(p1) && spec_price(estimator, s2, a, k, b)
            matches Ok(p2) && p1 <= p2,
{
    let s = SCALE as nat;
    let d1 = if s1 >= b {
        (s1 - b) as nat
    } else {
        (b - s1) as nat
    };
    let d2 = if s2 >= b {
        (s2 - b) as nat
    } else {
        (b - s2) as nat
    };
    let neg1 = s1 < b;
    let neg2 = s2 < b;
    let kd1 = k * d1 / s;
    let kd2 = k * d2 / s;
    let e1 = estimator.exp_spec(kd1, true);
    let e2 = estimator.exp_spec(kd2, true);
    let sg1 = if neg1 {
        e1 * s / (s + e1)
    } else {
        s * s / (s + e1)
    };
    let sg2 = if neg2 {
        e2 * s / (s + e2)
    } else {
        s * s / (s + e2)
    };
    assert(spec_sigmoid_from_exp(e1, neg1) == Ok::<nat, FixedPointError>(sg1));
    assert(spec_sigmoid_from_exp(e2, neg2) == Ok::<nat, FixedPointError>(sg2));
    if !neg1 && !neg2 {
        // Both at or above the inflection: the distance, hence the weighted
        // distance, grows, the exponential shrinks, the sigmoid grows.
        lemma_mul_left_inequality(k as int, d1 as int, d2 as int);
        lemma_div_is_ordered((k * d1) as int, (k * d2) as int, s as int);
        assert(e2 <= e1);
        lemma_div_is_ordered_by_denominator((s * s) as int, (s + e2) as int, (s + e1) as int);
    } else if neg1 && neg2 {
        // Both below the inflection: the distance shrinks as the supply
        // grows, so the exponential grows and the negative branch with it.
        lemma_mul_left_inequality(k as int, d2 as int, d1 as int);
        lemma_div_is_ordered((k * d2) as int, (k * d1) as int, s as int);
        assert(e1 <= e2);
        lemma_sig_neg_monotone(e1, e2);
    } else {
        // The supplies straddle the inflection; chain both sides through the
        // midpoint value e^(-0).
        assert(neg1 && !neg2);
        let e0 = estimator.exp_spec(0, true);
        assert(e0 <= SCALE);
        assert(e1 <= e0);
        assert(e2 <= e0);
        lemma_sig_neg_monotone(e1, e0);
        lemma_mul_inequality(e0 as int, s as int, s as int);
        lemma_div_is_ordered((e0 * s) as int, (s * s) as int, (s + e0) as int);
        lemma_div_is_ordered_by_denominator((s * s) as int, (s + e2) as int, (s + e0) as int);
    }
    // Scaling by the maximum price keeps the order.
    assert(a * sg1 <= a * sg2) by (nonlinear_arith)
        requires
            sg1 <= sg2,
    ;
    lemma_div_is_ordered((a * sg1) as int, (a * sg2) as int, s as int);
}

/// The monotonicity law, instantiated for the series estimator: its
/// specification is bounded and non-increasing, so prices never fall.
pub proof fn lemma_price_monotone_series(s1: nat, s2: nat, a: nat, k: nat, b: nat)
    requires
        s1 < s2,
        k > 0,
        spec_price(SeriesEstimator, s1, a, k, b) is Ok,
        spec_price(SeriesEstimator, s2, a, k, b) is Ok,
    ensures
        spec_price(SeriesEstimator, s1, a, k, b) matches Ok(p1) && spec_price(
            SeriesEstimator,
            s2,
            a,
            k,
            b,
        ) matches Ok(p2) && p1 <= p2,
{
    assert forall|x: nat| #[trigger] (SeriesEstimator).exp_spec(x, true) <= SCALE by {
        lemma_exp_taylor_neg_le_scale(x);
    };
    assert forall|x1: nat, x2: nat|
        #![trigger (SeriesEstimator).exp_spec(x1, true), (SeriesEstimator).exp_spec(x2, true)]
        x1 <= x2 implies (SeriesEstimator).exp_spec(x2, true) <= (SeriesEstimator).exp_spec(
        x1,
        true,
    ) by {
        lemma_exp_taylor_neg_antitone(x1, x2);
    };
    lemma_price_monotone(SeriesEstimator, s1, s2, a, k, b);
}

} // verus!
