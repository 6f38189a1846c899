use ruint::aliases::U256;
use sigmoid_calculator::fixed_point::{
    div_fixed, from_decimal, from_raw, mul_fixed, scale_u256, square_fixed, to_basis_points,
    FixedPointError, SCALE,
};

#[test]
fn test_basic_arithmetic() {
    // Test that U256 arithmetic works as expected
    let a = U256::from(100);
    let b = U256::from(200);
    assert_eq!(a + b, U256::from(300));
}

#[test]
fn test_u256_conversions() {
    // Test various U256 conversions
    assert_eq!(U256::from(42), U256::from(42u64));
    assert_eq!(U256::from(1), U256::from(1u32));
}

#[test]
fn test_fixed_point_multiplication() {
    // Test: 1.5 * 2.0 = 3.0
    let one_point_five = U256::from(15u64) * scale_u256() / U256::from(10u64); // 1.5
    let two = U256::from(2u64) * scale_u256(); // 2.0
    let result = mul_fixed(&one_point_five, &two).unwrap();
    let expected = U256::from(3u64) * scale_u256(); // 3.0
    assert_eq!(result, expected);
}

#[test]
fn test_fixed_point_division() {
    // Test: 6.0 / 2.0 = 3.0
    let six = U256::from(6u64) * scale_u256();
    let two = U256::from(2u64) * scale_u256();
    let result = div_fixed(&six, &two).unwrap();
    let expected = U256::from(3u64) * scale_u256();
    assert_eq!(result, expected);
}

#[test]
fn test_square_fixed() {
    // Test: 3^2 = 9
    let three = U256::from(3u64) * scale_u256();
    let result = square_fixed(&three).unwrap();
    let expected = U256::from(9u64) * scale_u256();
    assert_eq!(result, expected);
}

#[test]
fn test_square_of_from_decimal() {
    // square(from_decimal(3)) == from_decimal(9), exactly.
    let three = from_decimal(3);
    let nine = from_decimal(9);
    assert_eq!(square_fixed(&three).unwrap(), nine);
}

#[test]
fn test_from_decimal_scales() {
    assert_eq!(from_decimal(1), U256::from(SCALE));
    assert_eq!(from_decimal(7), U256::from(7u64) * U256::from(SCALE));
    assert_eq!(from_decimal(0), U256::ZERO);
}

#[test]
fn test_scale_is_multiplicative_identity() {
    // multiply(x, SCALE) == x and divide(x, SCALE) == x.
    let x = from_raw(123_456_789_000_000_000_123_456_789u128);
    let s = scale_u256();
    assert_eq!(mul_fixed(&x, &s).unwrap(), x);
    assert_eq!(div_fixed(&x, &s).unwrap(), x);
}

#[test]
fn test_divide_multiply_round_trip() {
    // divide(a, b) then multiply by b recovers a within one raw unit.
    let a = from_raw(1_000_000_000_000_000_007u128);
    let b = from_raw(3_000_000_000_000u128);
    let q = div_fixed(&a, &b).unwrap();
    let m = mul_fixed(&q, &b).unwrap();
    assert!(m <= a);
    assert!(a - m <= U256::from(1u64));
}

#[test]
fn test_divide_by_zero_reports_error() {
    // divide(a, 0) signals DivisionByZero for all a, even zero.
    let a = from_decimal(5);
    assert_eq!(div_fixed(&a, &U256::ZERO), Err(FixedPointError::DivisionByZero));
    assert_eq!(div_fixed(&U256::ZERO, &U256::ZERO), Err(FixedPointError::DivisionByZero));
}

#[test]
fn test_multiplication_overflow_reports_error() {
    // The double-width product of two huge magnitudes cannot be represented.
    let huge = U256::MAX / U256::from(2u64);
    assert_eq!(mul_fixed(&huge, &huge), Err(FixedPointError::Overflow));
}

#[test]
fn test_division_overflow_reports_error() {
    // Scaling the numerator by 10^18 pushes it past 256 bits.
    let huge = U256::MAX / U256::from(2u64);
    let two = from_decimal(2);
    assert_eq!(div_fixed(&huge, &two), Err(FixedPointError::Overflow));
}

#[test]
fn test_deploy_is_stateless() {
    let calc = sigmoid_calculator::calculator::SigmoidCalculator { sdk: 0u64 };
    calc.deploy();
}

#[test]
fn test_to_basis_points() {
    // 0.15 -> 1500 basis points.
    let fifteen_percent = from_raw(150_000_000_000_000_000u128);
    assert_eq!(to_basis_points(&fifteen_percent).unwrap(), U256::from(1500u64));
}
