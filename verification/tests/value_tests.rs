use chain_tx::error::CoreError;
use chain_tx::primitives::TimeOffsetSeconds;
use chain_tx::value::U128;
use chain_tx::value::Value;

#[test]
fn value_decimal_round_trip() {
    let v = Value::from_str("184467440737095516").unwrap();
    assert_eq!(v.as_u64(), 184467440737095516u64);
    assert_eq!(v.to_str(), "184467440737095516");
}

#[test]
fn value_zero_and_max() {
    assert_eq!(Value::from_str("0").unwrap().as_u64(), 0);
    let max = Value::from_str("18446744073709551615").unwrap();
    assert_eq!(max.as_u64(), u64::MAX);
    assert_eq!(max.to_str(), "18446744073709551615");
}

#[test]
fn value_rejects_bad_decimal() {
    assert!(matches!(Value::from_str(""), Err(CoreError::InvalidEncoding)));
    assert!(matches!(Value::from_str("12x"), Err(CoreError::InvalidEncoding)));
    assert!(matches!(Value::from_str("-5"), Err(CoreError::InvalidEncoding)));
    // one past the largest 64-bit number
    assert!(matches!(
        Value::from_str("18446744073709551616"),
        Err(CoreError::ArithmeticError)
    ));
}

#[test]
fn value_checked_add_sub_round_trip() {
    let a = Value::new(41);
    let b = Value::new(29);
    let sum = a.checked_add(&b).unwrap();
    assert_eq!(sum.as_u64(), 70);
    let back = sum.checked_sub(&b).unwrap();
    assert_eq!(back.as_u64(), a.as_u64());
}

#[test]
fn value_add_overflow_fails() {
    let max = Value::new(u64::MAX);
    let one = Value::new(1);
    assert!(matches!(max.checked_add(&one), Err(CoreError::ArithmeticError)));
}

#[test]
fn value_sub_underflow_fails() {
    let zero = Value::new(0);
    let one = Value::new(1);
    assert!(matches!(zero.checked_sub(&one), Err(CoreError::ArithmeticError)));
}

#[test]
fn u128_decimal_round_trip() {
    let v = U128::from_str("340282366920938463463374607431768211455").unwrap();
    assert_eq!(v.number, u128::MAX);
    assert_eq!(v.to_str(), "340282366920938463463374607431768211455");
    assert_eq!(U128::new(0).to_str(), "0");
}

#[test]
fn u128_from_be_bytes() {
    let mut bytes = [0u8; 16];
    bytes[14] = 1;
    bytes[15] = 2;
    let v = U128::from_be_bytes(&bytes).unwrap();
    assert_eq!(v.number, 258);
    assert!(matches!(U128::from_be_bytes(&[0u8; 15]), Err(CoreError::MalformedInput)));
}

#[test]
fn u128_from_le_bytes() {
    let mut bytes = [0u8; 16];
    bytes[0] = 2;
    bytes[1] = 1;
    let v = U128::from_le_bytes(&bytes).unwrap();
    assert_eq!(v.number, 258);
}

#[test]
fn error_kinds_have_names() {
    assert_eq!(CoreError::ArithmeticError.as_text(), "arithmetic error");
    assert_eq!(CoreError::TruncatedBlock.as_text(), "truncated block");
    assert_eq!(CoreError::InvalidRatioSpec.as_text(), "invalid ratio specification");
}

#[test]
fn time_offset_decimal_round_trip() {
    let t = TimeOffsetSeconds::from_string("86400").unwrap();
    assert_eq!(t.seconds, 86400);
    assert_eq!(t.to_string(), "86400");
    assert!(TimeOffsetSeconds::from_string("1.5").is_err());
}
