//! Tests for the argument inferencer: literal priority, integer ranges,
//! and fall-through to the verbatim string.

use xapi_cli::infer::{infer, parse_i64};
use xapi_cli::value::Value;

/// The float reading of a token, as the caller of `infer` supplies it.
fn float_reading(token: &str) -> Option<u64> {
    token.parse::<f64>().ok().map(|f| f.to_bits())
}

fn infer_token(token: &str) -> Value {
    infer(token, float_reading(token))
}

#[test]
fn bool_literals_infer_to_bool() {
    assert!(matches!(infer_token("true"), Value::Bool(true)));
    assert!(matches!(infer_token("false"), Value::Bool(false)));
}

#[test]
fn bool_literals_are_case_sensitive() {
    match infer_token("True") {
        Value::Str(s) => assert_eq!(s, "True"),
        other => panic!("expected a string, got {:?}", variant_name(&other)),
    }
    match infer_token("TRUE") {
        Value::Str(s) => assert_eq!(s, "TRUE"),
        _ => panic!("expected a string"),
    }
    match infer_token("FALSE") {
        Value::Str(s) => assert_eq!(s, "FALSE"),
        _ => panic!("expected a string"),
    }
}

#[test]
fn integer_tokens_infer_to_int64() {
    assert!(matches!(infer_token("42"), Value::Int64(42)));
    assert!(matches!(infer_token("-7"), Value::Int64(-7)));
    assert!(matches!(infer_token("+10"), Value::Int64(10)));
    assert!(matches!(infer_token("0"), Value::Int64(0)));
    assert!(matches!(infer_token("007"), Value::Int64(7)));
}

#[test]
fn integer_extremes_stay_integers() {
    assert!(matches!(
        infer_token("9223372036854775807"),
        Value::Int64(9223372036854775807)
    ));
    assert!(matches!(
        infer_token("-9223372036854775808"),
        Value::Int64(-9223372036854775808)
    ));
}

#[test]
fn overflowing_integers_fall_through_to_float() {
    // One past i64::MAX no longer reads as an integer; the float reading wins.
    match infer_token("9223372036854775808") {
        Value::Float64(bits) => assert_eq!(bits, 9223372036854775808.0f64.to_bits()),
        _ => panic!("expected a float"),
    }
}

#[test]
fn float_tokens_infer_to_float64() {
    match infer_token("3.14") {
        Value::Float64(bits) => assert_eq!(bits, 3.14f64.to_bits()),
        _ => panic!("expected a float"),
    }
    match infer_token("1e10") {
        Value::Float64(bits) => assert_eq!(bits, 1e10f64.to_bits()),
        _ => panic!("expected a float"),
    }
}

#[test]
fn other_tokens_stay_verbatim_strings() {
    match infer_token("abc") {
        Value::Str(s) => assert_eq!(s, "abc"),
        _ => panic!("expected a string"),
    }
    match infer_token("") {
        Value::Str(s) => assert_eq!(s, ""),
        _ => panic!("expected a string"),
    }
    match infer_token("  42") {
        Value::Str(s) => assert_eq!(s, "  42"),
        _ => panic!("expected a string"),
    }
}

#[test]
fn parse_i64_accepts_exactly_the_in_range_literals() {
    assert_eq!(parse_i64("9223372036854775807"), Some(i64::MAX));
    assert_eq!(parse_i64("-9223372036854775808"), Some(i64::MIN));
    assert_eq!(parse_i64("9223372036854775808"), None);
    assert_eq!(parse_i64("-9223372036854775809"), None);
    assert_eq!(parse_i64(""), None);
    assert_eq!(parse_i64("+"), None);
    assert_eq!(parse_i64("-"), None);
    assert_eq!(parse_i64("12a"), None);
    assert_eq!(parse_i64("1.5"), None);
    assert_eq!(parse_i64("+0"), Some(0));
}

fn variant_name(v: &Value) -> &'static str {
    match v {
        Value::Bool(_) => "Bool",
        Value::Int32(_) => "Int32",
        Value::Int64(_) => "Int64",
        Value::Float64(_) => "Float64",
        Value::Str(_) => "Str",
        Value::DateTime(_) => "DateTime",
        Value::Binary(_) => "Binary",
        Value::Array(_) => "Array",
        Value::Struct(_) => "Struct",
        Value::Null => "Null",
    }
}
