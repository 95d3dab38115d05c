//! Values, value types and limiters.

use ced::error::CedError;
use ced::value::{Value, ValueLimiter, ValueType};

fn limiter(ty: &str, default: &str, variants: &str, pattern: &str) -> ValueLimiter {
    ValueLimiter::from_line(&vec![
        ty.to_string(),
        default.to_string(),
        variants.to_string(),
        pattern.to_string(),
    ])
    .unwrap()
}

#[test]
fn value_type_from_str_recognises_number() {
    assert!(matches!(ValueType::from_str("number"), ValueType::Number));
    assert!(matches!(ValueType::from_str("NUMBER"), ValueType::Number));
    assert!(matches!(ValueType::from_str("Number"), ValueType::Number));
    assert!(matches!(ValueType::from_str("text"), ValueType::Text));
    assert!(matches!(ValueType::from_str("anything"), ValueType::Text));
}

#[test]
fn value_from_str_parses_numbers() {
    let v = Value::from_str("-42", ValueType::Number).unwrap();
    assert_eq!(v.to_string(), "-42");
    let v = Value::from_str("+7", ValueType::Number).unwrap();
    assert_eq!(v.to_string(), "7");
    let v = Value::from_str("0", ValueType::Number).unwrap();
    assert_eq!(v.to_string(), "0");
}

#[test]
fn value_from_str_rejects_bad_numbers() {
    assert!(matches!(
        Value::from_str("12a", ValueType::Number),
        Err(CedError::TypeMismatch)
    ));
    assert!(matches!(
        Value::from_str("", ValueType::Number),
        Err(CedError::TypeMismatch)
    ));
    assert!(matches!(
        Value::from_str("99999999999999999999999", ValueType::Number),
        Err(CedError::TypeMismatch)
    ));
}

#[test]
fn value_from_str_text_always_succeeds() {
    let v = Value::from_str("12a", ValueType::Text).unwrap();
    assert_eq!(v.to_string(), "12a");
    assert!(matches!(v.get_type(), ValueType::Text));
}

#[test]
fn number_stringifies_to_numeral() {
    assert_eq!(Value::Number(0).to_string(), "0");
    assert_eq!(Value::Number(105).to_string(), "105");
    assert_eq!(Value::Number(-9).to_string(), "-9");
    assert_eq!(
        Value::Number(isize::MIN).to_string(),
        isize::MIN.to_string()
    );
    assert_eq!(
        Value::Number(isize::MAX).to_string(),
        isize::MAX.to_string()
    );
}

#[test]
fn number_limiter_rejects_any_text_value() {
    let lim = limiter("number", "", "", "");
    assert!(!lim.qualify(&Value::Text("5".to_string())));
    assert!(!lim.qualify(&Value::Text("".to_string())));
    assert!(lim.qualify(&Value::Number(5)));
}

#[test]
fn variant_limiter_qualifies_exactly_its_variants() {
    let lim = limiter("text", "a", "a b", "");
    assert!(lim.qualify(&Value::Text("a".to_string())));
    assert!(lim.qualify(&Value::Text("b".to_string())));
    assert!(!lim.qualify(&Value::Text("c".to_string())));
    assert!(!lim.qualify(&Value::Number(1)));
}

#[test]
fn pattern_limiter_matches_digits() {
    let lim = limiter("text", "1", "", "^[0-9]+$");
    assert!(lim.qualify(&Value::Text("123".to_string())));
    assert!(!lim.qualify(&Value::Text("12a".to_string())));
    assert!(!lim.qualify(&Value::Text("".to_string())));
}

#[test]
fn unrestricted_limiter_type_checks_only() {
    let lim = limiter("text", "", "", "");
    assert!(lim.qualify(&Value::Text("anything at all".to_string())));
    assert!(!lim.qualify(&Value::Number(3)));
}

#[test]
fn from_line_requires_four_fields() {
    let r = ValueLimiter::from_line(&vec!["text".to_string()]);
    assert!(matches!(r, Err(CedError::LimiterConstructionError)));
}

#[test]
fn from_line_variants_need_a_default() {
    let r = ValueLimiter::from_line(&vec![
        "text".to_string(),
        "".to_string(),
        "a b".to_string(),
        "".to_string(),
    ]);
    assert!(matches!(r, Err(CedError::LimiterConstructionError)));
}

#[test]
fn from_line_default_must_be_a_variant() {
    let r = ValueLimiter::from_line(&vec![
        "text".to_string(),
        "z".to_string(),
        "a b".to_string(),
        "".to_string(),
    ]);
    assert!(matches!(r, Err(CedError::LimiterConstructionError)));
}

#[test]
fn from_line_default_must_match_pattern() {
    let r = ValueLimiter::from_line(&vec![
        "text".to_string(),
        "xyz".to_string(),
        "".to_string(),
        "^[0-9]+$".to_string(),
    ]);
    assert!(matches!(r, Err(CedError::LimiterConstructionError)));
}

#[test]
fn from_line_rejects_uncompilable_pattern() {
    let r = ValueLimiter::from_line(&vec![
        "text".to_string(),
        "x".to_string(),
        "".to_string(),
        "[unclosed".to_string(),
    ]);
    assert!(matches!(r, Err(CedError::LimiterConstructionError)));
}

#[test]
fn from_line_number_default_must_parse() {
    let r = ValueLimiter::from_line(&vec![
        "number".to_string(),
        "abc".to_string(),
        "".to_string(),
        "".to_string(),
    ]);
    assert!(matches!(r, Err(CedError::TypeMismatch)));
}

#[test]
fn from_line_number_variants() {
    let lim = limiter("number", "1", "1 2 3", "");
    assert!(lim.qualify(&Value::Number(2)));
    assert!(!lim.qualify(&Value::Number(4)));
    assert_eq!(lim.get_default().unwrap().to_string(), "1");
}

#[test]
fn set_variant_and_set_pattern_guard_their_defaults() {
    let mut lim = ValueLimiter::default();
    let vs = vec![Value::Text("a".to_string()), Value::Text("b".to_string())];
    assert!(lim
        .set_variant(Value::Text("c".to_string()), &vs)
        .is_err());
    assert!(lim.set_variant(Value::Text("b".to_string()), &vs).is_ok());

    let mut lim2 = ValueLimiter::default();
    assert!(lim2
        .set_pattern(Value::Text("abc".to_string()), "^[0-9]+$")
        .is_err());
    assert!(lim2
        .set_pattern(Value::Text("42".to_string()), "^[0-9]+$")
        .is_ok());
    assert_eq!(lim2.get_pattern().unwrap().as_str(), "^[0-9]+$");
}

#[test]
fn values_compare_structurally() {
    assert!(Value::Number(3).eq_value(&Value::Number(3)));
    assert!(!Value::Number(3).eq_value(&Value::Number(4)));
    assert!(Value::Text("a".to_string()).eq_value(&Value::Text("a".to_string())));
    assert!(!Value::Text("3".to_string()).eq_value(&Value::Number(3)));
}
