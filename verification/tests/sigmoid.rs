use ruint::aliases::U256;
use sigmoid_calculator::fixed_point::{from_raw, scale_u256};
use sigmoid_calculator::sigmoid_math::{
    exp_input_parts, exp_overflow_sentinel, exp_recompose, exp_taylor, sigmoid_fixed,
    sigmoid_from_exp, ExpEstimator, SeriesEstimator,
};

/// The round-trip estimator: fixed-point to double, native exponential,
/// back to fixed-point, with the documented saturation policy.
fn exp_precise(x: &U256, is_negative: bool) -> U256 {
    let (int_part, frac_part) = exp_input_parts(x);
    let x_f64 = int_part as f64 + (frac_part as f64 / 1e18);
    let x_signed = if is_negative { -x_f64 } else { x_f64 };
    let exp_result = libm::exp(x_signed);
    if exp_result.is_infinite() || exp_result > 1e30 {
        exp_overflow_sentinel()
    } else if exp_result < 1e-18 {
        from_raw(1)
    } else {
        let whole = libm::trunc(exp_result) as u128;
        let frac = ((exp_result - libm::trunc(exp_result)) * 1e18) as u128;
        exp_recompose(whole, frac)
    }
}

struct PreciseEstimator;

impl ExpEstimator for PreciseEstimator {
    fn exp(&self, x: &U256, is_negative: bool) -> U256 {
        exp_precise(x, is_negative)
    }
}

#[test]
fn test_exp_taylor_positive() {
    // Test e^1 ≈ 2.71828
    let one = scale_u256();
    let result = exp_taylor(&one, false);
    // Should be approximately 2.71828 * SCALE
    let expected_min = U256::from(27u64) * scale_u256() / U256::from(10u64); // 2.7
    let expected_max = U256::from(28u64) * scale_u256() / U256::from(10u64); // 2.8
    assert!(result > expected_min && result < expected_max);
}

#[test]
fn test_exp_taylor_zero() {
    // Test e^0 = 1
    let zero = U256::ZERO;
    let result = exp_taylor(&zero, false);
    assert_eq!(result, scale_u256()); // Should be exactly 1.0
}

#[test]
fn test_exp_taylor_negative() {
    // Test e^(-1) ≈ 0.36788
    let one = scale_u256();
    let result = exp_taylor(&one, true);
    // Should be approximately 0.36788 * SCALE
    let expected_min = U256::from(36u64) * scale_u256() / U256::from(100u64); // 0.36
    let expected_max = U256::from(37u64) * scale_u256() / U256::from(100u64); // 0.37
    assert!(result > expected_min && result < expected_max);
}

#[test]
fn test_sigmoid_zero() {
    // Test sigmoid(0) = 0.5
    let zero = U256::ZERO;
    let result = sigmoid_fixed(&zero, false, &PreciseEstimator).unwrap();
    let expected = scale_u256() / U256::from(2u64); // 0.5
                                                    // Allow small error due to approximation
    let diff = if result > expected {
        result - expected
    } else {
        expected - result
    };
    assert!(diff < scale_u256() / U256::from(1000u64)); // Less than 0.001 error
}

#[test]
fn test_sigmoid_zero_series() {
    // The series estimator lands on 0.5 exactly at the origin.
    let zero = U256::ZERO;
    let result = sigmoid_fixed(&zero, false, &SeriesEstimator).unwrap();
    assert_eq!(result, scale_u256() / U256::from(2u64));
}

#[test]
fn test_sigmoid_positive() {
    // Test sigmoid(2) ≈ 0.88
    let two = U256::from(2u64) * scale_u256();
    let result = sigmoid_fixed(&two, false, &PreciseEstimator).unwrap();
    // Should be approximately 0.88
    let expected_min = U256::from(87u64) * scale_u256() / U256::from(100u64); // 0.87
    let expected_max = U256::from(89u64) * scale_u256() / U256::from(100u64); // 0.89
    assert!(result > expected_min && result < expected_max);
}

#[test]
fn test_sigmoid_positive_series() {
    // The series estimator stays inside the same window at +2.
    let two = U256::from(2u64) * scale_u256();
    let result = sigmoid_fixed(&two, false, &SeriesEstimator).unwrap();
    let expected_min = U256::from(87u64) * scale_u256() / U256::from(100u64);
    let expected_max = U256::from(89u64) * scale_u256() / U256::from(100u64);
    assert!(result > expected_min && result < expected_max);
}

#[test]
fn test_sigmoid_negative() {
    // sigmoid(-2) ≈ 0.119, for either estimator.
    let two = U256::from(2u64) * scale_u256();
    let expected_min = U256::from(10u64) * scale_u256() / U256::from(100u64); // 0.10
    let expected_max = U256::from(13u64) * scale_u256() / U256::from(100u64); // 0.13
    let precise = sigmoid_fixed(&two, true, &PreciseEstimator).unwrap();
    assert!(precise > expected_min && precise < expected_max);
    let series = sigmoid_fixed(&two, true, &SeriesEstimator).unwrap();
    assert!(series > expected_min && series < expected_max);
}

#[test]
fn test_exp_precise_vs_taylor() {
    // Compare libm exp with Taylor series
    let test_values = vec![
        U256::from(0u64),                // 0
        scale_u256() / U256::from(2u64), // 0.5
        scale_u256(),                    // 1.0
        scale_u256() * U256::from(2u64), // 2.0
    ];

    for x in test_values {
        let taylor_result = exp_taylor(&x, false);
        let precise_result = exp_precise(&x, false);

        // Convert to readable format
        let taylor_decimal = taylor_result / (scale_u256() / U256::from(1000u64));
        let precise_decimal = precise_result / (scale_u256() / U256::from(1000u64));

        println!(
            "exp({}) - Taylor: {}, Precise: {}",
            x / scale_u256(),
            taylor_decimal,
            precise_decimal
        );

        // They should be reasonably close
        let diff = if taylor_result > precise_result {
            taylor_result - precise_result
        } else {
            precise_result - taylor_result
        };

        // Allow up to 1% difference
        let tolerance = precise_result / U256::from(100u64);
        assert!(
            diff < tolerance,
            "exp({}) difference too large",
            x / scale_u256()
        );
    }
}

#[test]
fn test_libm_edge_cases() {
    // Test very small values
    let very_small = U256::from(1u64); // 0.000000000000000001
    let result_small = exp_precise(&very_small, false);
    // Should be very close to 1
    assert!(
        result_small > scale_u256() - U256::from(1000u64)
            && result_small < scale_u256() + U256::from(1000u64)
    );

    // Test large positive values
    let large = scale_u256() * U256::from(10u64); // 10.0
    let result_large = exp_precise(&large, false);
    // e^10 ≈ 22026, so result should be around 22026 * SCALE
    let expected_min = scale_u256() * U256::from(20000u64);
    let expected_max = scale_u256() * U256::from(25000u64);
    assert!(result_large > expected_min && result_large < expected_max);

    // Test large negative values
    let result_neg_large = exp_precise(&large, true);
    // e^(-10) is very small, should be close to 0 but not exactly 0
    assert!(
        result_neg_large > U256::from(0u64)
            && result_neg_large < scale_u256() / U256::from(1000u64)
    );
}

#[test]
fn test_exp_taylor_caps_large_inputs() {
    // Magnitudes above 5.0 are capped before the series runs.
    let five = sigmoid_calculator::fixed_point::from_decimal(5);
    let ten = sigmoid_calculator::fixed_point::from_decimal(10);
    assert_eq!(exp_taylor(&ten, false), exp_taylor(&five, false));
}

#[test]
fn test_sigmoid_from_exp_branches() {
    // With e^(-|x|) = 1.0 (x = 0) both branches sit at one half.
    let e = scale_u256();
    let half = scale_u256() / U256::from(2u64);
    assert_eq!(sigmoid_from_exp(&e, true).unwrap(), half);
    assert_eq!(sigmoid_from_exp(&e, false).unwrap(), half);
    // With e^(-|x|) = 0 the sigmoid saturates: 1.0 for positive x, 0 for
    // negative.
    let zero = U256::ZERO;
    assert_eq!(sigmoid_from_exp(&zero, false).unwrap(), scale_u256());
    assert_eq!(sigmoid_from_exp(&zero, true).unwrap(), U256::ZERO);
}

#[test]
fn test_exp_input_parts_splits_value() {
    // 2.5 in fixed point splits into whole 2 and fractional 0.5.
    let x = from_raw(2_500_000_000_000_000_000u128);
    let (whole, frac) = exp_input_parts(&x);
    assert_eq!(whole, 2u64);
    assert_eq!(frac, 500_000_000_000_000_000u64);
}

#[test]
fn test_exp_recompose_rebuilds_value() {
    let r = exp_recompose(2, 500_000_000_000_000_000u128);
    assert_eq!(r, from_raw(2_500_000_000_000_000_000u128));
}

#[test]
fn test_exp_overflow_sentinel_value() {
    let expected = U256::from(u128::MAX) * scale_u256() / U256::from(1000u64);
    assert_eq!(exp_overflow_sentinel(), expected);
}
