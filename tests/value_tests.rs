use natsuzora::value::{INTEGER_MAX, INTEGER_MIN};
use natsuzora::{NatsuzoraError, Value};

#[test]
fn value_test_truthy() {
    assert!(!Value::Null.is_truthy());
    assert!(!Value::Bool(false).is_truthy());
    assert!(Value::Bool(true).is_truthy());
    assert!(!Value::Integer(0).is_truthy());
    assert!(Value::Integer(1).is_truthy());
    assert!(Value::Integer(-1).is_truthy());
    assert!(!Value::String("".to_string()).is_truthy());
    assert!(Value::String("hello".to_string()).is_truthy());
    assert!(!Value::Array(vec![]).is_truthy());
    assert!(Value::Array(vec![Value::Integer(1)]).is_truthy());
    assert!(!Value::Object(vec![]).is_truthy());
}

#[test]
fn value_test_stringify() {
    assert_eq!(Value::String("hello".to_string()).stringify().unwrap(), "hello");
    assert_eq!(Value::Integer(42).stringify().unwrap(), "42");
    assert_eq!(Value::Integer(-42).stringify().unwrap(), "-42");
    assert_eq!(Value::Integer(0).stringify().unwrap(), "0");

    assert!(Value::Null.stringify().is_err());
    assert!(Value::Bool(true).stringify().is_err());
    assert!(Value::Array(vec![]).stringify().is_err());
    assert!(Value::Object(vec![]).stringify().is_err());
}

#[test]
fn test_stringify_nullable() {
    assert_eq!(Value::Null.stringify_nullable().unwrap(), "");
    assert_eq!(Value::String("hello".to_string()).stringify_nullable().unwrap(), "hello");
}

#[test]
fn value_stringify_required() {
    assert!(matches!(Value::Null.stringify_required(), Err(NatsuzoraError::TypeError { .. })));
    assert!(matches!(Value::String(String::new()).stringify_required(), Err(NatsuzoraError::TypeError { .. })));
    assert_eq!(Value::String("x".to_string()).stringify_required().unwrap(), "x");
    assert_eq!(Value::Integer(0).stringify_required().unwrap(), "0");
}

#[test]
fn value_integer_range_limits() {
    assert_eq!(Value::Integer(INTEGER_MAX).stringify().unwrap(), "9007199254740991");
    assert_eq!(Value::Integer(INTEGER_MIN).stringify().unwrap(), "-9007199254740991");
    assert!(matches!(Value::Integer(INTEGER_MAX + 1).stringify(), Err(NatsuzoraError::TypeError { .. })));
    assert!(matches!(Value::integer(INTEGER_MIN - 1), Err(NatsuzoraError::TypeError { .. })));
    assert_eq!(Value::integer(1234567).unwrap(), Value::Integer(1234567));
    assert_eq!(Value::Integer(1000000007).stringify().unwrap(), "1000000007");
}

#[test]
fn value_kind_names_and_helpers() {
    assert_eq!(Value::Null.kind_name(), "NilClass");
    assert_eq!(Value::Bool(true).kind_name(), "TrueClass");
    assert_eq!(Value::Bool(false).kind_name(), "FalseClass");
    assert_eq!(Value::Object(vec![]).kind_name(), "Hash");
    assert!(Value::Null.is_null());
    assert!(Value::String(String::new()).is_empty_string());
    assert!(!Value::String("a".to_string()).is_empty_string());
    assert_eq!(Value::Array(vec![Value::Null]).as_array().unwrap().len(), 1);
    assert!(matches!(Value::Integer(3).as_array(), Err(NatsuzoraError::TypeError { .. })));
}

#[test]
fn value_duplicate_is_equal() {
    let v = Value::Object(vec![
        ("a".to_string(), Value::Array(vec![Value::Integer(1), Value::Null])),
        ("b".to_string(), Value::Bool(true)),
    ]);
    assert_eq!(v.duplicate(), v);
}
