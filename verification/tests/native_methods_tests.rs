use pyhyeon::vm::bytecode::{NativeMethod, Value};
use pyhyeon::vm::machine::str_native;
use pyhyeon::vm::native::{byte_offset_of, count, ends_with, find, replace, starts_with, str_lower, str_strip, str_upper, NativeError};

fn text(s: &str) -> Value {
    Value::Str(s.to_string())
}

#[test]
fn native_methods_test_str_upper() {
    let obj = text("hello");
    let result = str_native(NativeMethod::StrUpper, &obj, &vec![]);
    assert!(result.is_ok());
    if let Ok(Value::Str(s)) = result {
        assert_eq!(s, "HELLO");
    } else {
        panic!("expected a string");
    }
}

#[test]
fn native_methods_test_str_lower() {
    let obj = text("WORLD");
    let result = str_native(NativeMethod::StrLower, &obj, &vec![]);
    assert!(result.is_ok());
    if let Ok(Value::Str(s)) = result {
        assert_eq!(s, "world");
    } else {
        panic!("expected a string");
    }
}

#[test]
fn native_methods_test_str_replace() {
    let obj = text("hello world");
    let result = str_native(NativeMethod::StrReplace, &obj, &vec![text("world"), text("rust")]);
    assert!(result.is_ok());
    if let Ok(Value::Str(s)) = result {
        assert_eq!(s, "hello rust");
    } else {
        panic!("expected a string");
    }
}

#[test]
fn test_str_find() {
    let obj = text("hello world");
    let result = str_native(NativeMethod::StrFind, &obj, &vec![text("world")]);
    assert!(result.is_ok());
    assert!(matches!(result.unwrap(), Value::Int(6)));
}

#[test]
fn test_arity_error() {
    let obj = text("test");
    let result = str_native(NativeMethod::StrUpper, &obj, &vec![Value::Int(1)]);
    assert!(result.is_err());
}

#[test]
fn upper_and_lower_handle_non_ascii() {
    assert_eq!(str_upper("straße"), "STRASSE");
    assert_eq!(str_lower("ÀB"), "àb");
}

#[test]
fn strip_removes_surrounding_whitespace() {
    assert_eq!(str_strip("  hi there \t\n"), "hi there");
    assert_eq!(str_strip("   "), "");
}

#[test]
fn replace_count_find_edges() {
    assert_eq!(replace("aaa", "a", "bb"), "bbbbbb");
    assert_eq!(replace("abc", "", "-"), "-a-b-c-");
    assert_eq!(count("aaaa", "aa"), Some(2));
    assert_eq!(count("abc", ""), Some(4));
    assert_eq!(find("héllo", "llo"), Some(2));
    assert_eq!(byte_offset_of("héllo", 2), Some(3));
    assert_eq!(find("abc", "z"), None);
    assert!(starts_with("hello", "he"));
    assert!(!starts_with("he", "hello"));
    assert!(ends_with("hello", "lo"));
    assert!(!ends_with("hello", "he"));
}

#[test]
fn native_error_constructors() {
    let e = NativeError::arity_error("str.upper()", 0, 1);
    assert!(e.message.contains("str.upper()"));
    let t = NativeError::type_error("String", "Int");
    assert!(t.message.contains("String"));
    let n = NativeError::new("boom".to_string());
    assert_eq!(n.message, "boom");
}

#[test]
fn non_string_receiver_is_rejected() {
    let r = str_native(NativeMethod::StrUpper, &Value::Int(3), &vec![]);
    assert!(r.is_err());
}

#[test]
fn find_reports_byte_offsets_of_non_ascii_text() {
    let r = str_native(NativeMethod::StrFind, &text("héllo"), &vec![text("llo")]);
    assert!(matches!(r, Ok(Value::Int(3))));
    let r = str_native(NativeMethod::StrFind, &text("abc"), &vec![text("")]);
    assert!(matches!(r, Ok(Value::Int(0))));
    let r = str_native(NativeMethod::StrCount, &text("abc"), &vec![text("")]);
    assert!(matches!(r, Ok(Value::Int(4))));
}
