use comix::value::Value;

#[test]
fn test_is_truthy() {
    assert!(!Value::Int(0).is_truthy());
    assert!(Value::Int(42).is_truthy());
    assert!(Value::Bool(true).is_truthy());
    assert!(!Value::Bool(false).is_truthy());
    assert!(!Value::Null.is_truthy());
}

#[test]
fn test_as_int() {
    assert_eq!(Value::Int(123).as_int(), Some(123));
    assert_eq!(Value::Bool(true).as_int(), None);
    assert_eq!(Value::Null.as_int(), None);
}

#[test]
fn strings_and_arrays_are_true_when_not_empty() {
    assert!(Value::String("a".to_string()).is_truthy());
    assert!(!Value::String(String::new()).is_truthy());
    assert!(Value::Array(vec![Value::Null]).is_truthy());
    assert!(!Value::Array(vec![]).is_truthy());
}

#[test]
fn as_bool_and_is_null() {
    assert_eq!(Value::Bool(false).as_bool(), Some(false));
    assert_eq!(Value::Int(1).as_bool(), None);
    assert!(Value::Null.is_null());
    assert!(!Value::Int(0).is_null());
}

#[test]
fn display_forms() {
    assert_eq!(Value::Int(-9223372036854775808).to_display_string(), "-9223372036854775808");
    assert_eq!(Value::Int(0).to_display_string(), "0");
    assert_eq!(Value::Int(1207).to_display_string(), "1207");
    assert_eq!(Value::Bool(true).to_display_string(), "true");
    assert_eq!(Value::Bool(false).to_display_string(), "false");
    assert_eq!(Value::Null.to_display_string(), "null");
    assert_eq!(Value::String("Hello World".to_string()).to_display_string(), "Hello World");
    let nested = Value::Array(vec![Value::Int(1), Value::Array(vec![Value::Bool(true), Value::Null]), Value::String("x".to_string())]);
    assert_eq!(nested.to_display_string(), "[1, [true, null], x]");
    assert_eq!(Value::Array(vec![]).to_display_string(), "[]");
}

#[test]
fn deep_copy_is_equal() {
    let v = Value::Array(vec![Value::Int(1), Value::String("s".to_string())]);
    assert_eq!(v.deep_copy(), v);
}
