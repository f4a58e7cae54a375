use pyhyeon::runtime_io::{BufferIo, ReadResult, RuntimeIo};
use pyhyeon::vm::bytecode::{NativeMethod, Value};
use pyhyeon::vm::calls::{assert_call, bool_call};
use pyhyeon::vm::machine::{str_native, Object, Vm, VmErrorKind};

fn make_string(s: &str) -> Value {
    Value::Str(s.to_string())
}

fn text_of(v: Value) -> String {
    if let Value::Str(s) = v {
        s
    } else {
        panic!("Expected String object");
    }
}

// ========== int() ==========

#[test]
fn test_int_from_int() {
    let vm = Vm::new();
    let result = vm.int_call(&vec![Value::Int(42)]).unwrap();
    assert_eq!(result, Value::Int(42));
}

#[test]
fn test_int_from_bool_true() {
    let vm = Vm::new();
    let result = vm.int_call(&vec![Value::Bool(true)]).unwrap();
    assert_eq!(result, Value::Int(1));
}

#[test]
fn test_int_from_bool_false() {
    let vm = Vm::new();
    let result = vm.int_call(&vec![Value::Bool(false)]).unwrap();
    assert_eq!(result, Value::Int(0));
}

#[test]
fn test_int_from_string_valid() {
    let vm = Vm::new();
    let args = vec![make_string("42")];
    let result = vm.int_call(&args).unwrap();
    assert_eq!(result, Value::Int(42));
}

#[test]
fn test_int_from_string_negative() {
    let vm = Vm::new();
    let args = vec![make_string("-100")];
    let result = vm.int_call(&args).unwrap();
    assert_eq!(result, Value::Int(-100));
}

#[test]
fn test_int_from_string_with_whitespace() {
    let vm = Vm::new();
    let args = vec![make_string("  123  ")];
    let result = vm.int_call(&args).unwrap();
    assert_eq!(result, Value::Int(123));
}

#[test]
fn test_int_from_string_invalid() {
    let vm = Vm::new();
    let args = vec![make_string("abc")];
    let err = vm.int_call(&args).unwrap_err();
    assert!(err.message.contains("invalid literal"));
    assert!(err.message.contains("abc"));
}

#[test]
fn test_int_from_string_empty() {
    let vm = Vm::new();
    let args = vec![make_string("")];
    let err = vm.int_call(&args).unwrap_err();
    assert!(err.message.contains("invalid literal"));
}

#[test]
fn test_int_from_none() {
    let vm = Vm::new();
    let err = vm.int_call(&vec![Value::NoneVal]).unwrap_err();
    assert!(err.message.contains("int() argument must be"));
    assert!(err.message.contains("NoneType"));
}

#[test]
fn test_int_arity_zero() {
    let vm = Vm::new();
    let err = vm.int_call(&vec![]).unwrap_err();
    assert!(matches!(err.kind, VmErrorKind::ArityError { expected: 1, got: 0 }));
}

#[test]
fn test_int_arity_two() {
    let vm = Vm::new();
    let err = vm.int_call(&vec![Value::Int(1), Value::Int(2)]).unwrap_err();
    assert!(matches!(err.kind, VmErrorKind::ArityError { expected: 1, got: 2 }));
}

#[test]
fn int_messages_and_floats() {
    let vm = Vm::new();
    let err = vm.int_call(&vec![]).unwrap_err();
    assert_eq!(err.message, "int() takes exactly 1 argument (0 given)");
    let err = vm.int_call(&vec![make_string("1.5")]).unwrap_err();
    assert_eq!(err.message, "invalid literal for int() with base 10: '1.5'");
    assert!(matches!(err.kind, VmErrorKind::TypeError("int")));
    assert_eq!(vm.int_call(&vec![make_string("+7")]).unwrap(), Value::Int(7));
    assert_eq!(vm.int_call(&vec![Value::Float("3.99".to_string())]).unwrap(), Value::Int(3));
    assert_eq!(vm.int_call(&vec![Value::Float("2.5e2".to_string())]).unwrap(), Value::Int(250));
    assert_eq!(vm.int_call(&vec![Value::Float("0.5".to_string())]).unwrap(), Value::Int(0));
}

#[test]
fn int_of_an_object_names_its_type() {
    let mut vm = Vm::new();
    let r = vm.create_range(vec![Value::Int(3)]).unwrap();
    let err = vm.int_call(&vec![r]).unwrap_err();
    assert_eq!(err.message, "int() argument must be a string or a number, not 'range'");
}

// ========== bool() ==========

#[test]
fn test_bool_from_bool() {
    assert_eq!(bool_call(&vec![Value::Bool(true)]).unwrap(), Value::Bool(true));
    assert_eq!(bool_call(&vec![Value::Bool(false)]).unwrap(), Value::Bool(false));
}

#[test]
fn test_bool_from_int_zero() {
    assert_eq!(bool_call(&vec![Value::Int(0)]).unwrap(), Value::Bool(false));
}

#[test]
fn test_bool_from_int_nonzero() {
    assert_eq!(bool_call(&vec![Value::Int(1)]).unwrap(), Value::Bool(true));
    assert_eq!(bool_call(&vec![Value::Int(-5)]).unwrap(), Value::Bool(true));
    assert_eq!(bool_call(&vec![Value::Int(100)]).unwrap(), Value::Bool(true));
}

#[test]
fn test_bool_from_none() {
    assert_eq!(bool_call(&vec![Value::NoneVal]).unwrap(), Value::Bool(false));
}

#[test]
fn test_bool_from_string_empty() {
    let args = vec![make_string("")];
    assert_eq!(bool_call(&args).unwrap(), Value::Bool(false));
}

#[test]
fn test_bool_from_string_nonempty() {
    let args = vec![make_string("hello")];
    assert_eq!(bool_call(&args).unwrap(), Value::Bool(true));
}

#[test]
fn test_bool_arity_zero() {
    let err = bool_call(&vec![]).unwrap_err();
    assert!(matches!(err.kind, VmErrorKind::ArityError { expected: 1, got: 0 }));
}

#[test]
fn test_bool_arity_two() {
    let err = bool_call(&vec![Value::Bool(true), Value::Bool(false)]).unwrap_err();
    assert!(matches!(err.kind, VmErrorKind::ArityError { expected: 1, got: 2 }));
    assert_eq!(err.message, "bool() takes exactly 1 argument (2 given)");
}

#[test]
fn bool_of_floats() {
    assert_eq!(bool_call(&vec![Value::Float("0.0".to_string())]).unwrap(), Value::Bool(false));
    assert_eq!(bool_call(&vec![Value::Float("0.0e5".to_string())]).unwrap(), Value::Bool(false));
    assert_eq!(bool_call(&vec![Value::Float("0.25".to_string())]).unwrap(), Value::Bool(true));
}

// ========== str() ==========

#[test]
fn test_str_from_int() {
    let vm = Vm::new();
    let result = vm.str_call(&vec![Value::Int(42)]).unwrap();
    assert_eq!(text_of(result), "42");
}

#[test]
fn test_str_from_bool() {
    let vm = Vm::new();
    let result = vm.str_call(&vec![Value::Bool(true)]).unwrap();
    assert_eq!(text_of(result), "True");
}

#[test]
fn test_str_from_none() {
    let vm = Vm::new();
    let result = vm.str_call(&vec![Value::NoneVal]).unwrap();
    assert_eq!(text_of(result), "None");
}

#[test]
fn test_str_arity_zero() {
    let vm = Vm::new();
    let err = vm.str_call(&vec![]).unwrap_err();
    assert!(matches!(err.kind, VmErrorKind::ArityError { expected: 1, got: 0 }));
}

#[test]
fn str_of_a_list_shows_its_items() {
    let mut vm = Vm::new();
    vm.heap.push(Object::List(vec![Value::Int(1), Value::Bool(false), make_string("x")]));
    let result = vm.str_call(&vec![Value::Ref(0)]).unwrap();
    assert_eq!(text_of(result), "[1, False, x]");
}

// ========== len() ==========

#[test]
fn test_len_string_empty() {
    let vm = Vm::new();
    let args = vec![make_string("")];
    let result = vm.len_call(&args).unwrap();
    assert_eq!(result, Value::Int(0));
}

#[test]
fn test_len_string_ascii() {
    let vm = Vm::new();
    let args = vec![make_string("hello")];
    let result = vm.len_call(&args).unwrap();
    assert_eq!(result, Value::Int(5));
}

#[test]
fn test_len_string_unicode() {
    let vm = Vm::new();
    let args = vec![make_string("안녕")];
    let result = vm.len_call(&args).unwrap();
    assert_eq!(result, Value::Int(2));
}

#[test]
fn test_len_int_error() {
    let vm = Vm::new();
    let err = vm.len_call(&vec![Value::Int(42)]).unwrap_err();
    assert!(err.message.contains("has no len()"));
    assert_eq!(err.message, "object of type 'int' has no len()");
}

#[test]
fn test_len_none_error() {
    let vm = Vm::new();
    let err = vm.len_call(&vec![Value::NoneVal]).unwrap_err();
    assert!(err.message.contains("has no len()"));
}

#[test]
fn test_len_arity_zero() {
    let vm = Vm::new();
    let err = vm.len_call(&vec![]).unwrap_err();
    assert!(matches!(err.kind, VmErrorKind::ArityError { expected: 1, got: 0 }));
}

#[test]
fn test_len_arity_two() {
    let vm = Vm::new();
    let args = vec![make_string("a"), make_string("b")];
    let err = vm.len_call(&args).unwrap_err();
    assert!(matches!(err.kind, VmErrorKind::ArityError { expected: 1, got: 2 }));
}

// ========== range() ==========

#[test]
fn test_range_one_arg() {
    let mut vm = Vm::new();
    let result = vm.create_range(vec![Value::Int(5)]).unwrap();
    if let Value::Ref(i) = result {
        assert!(matches!(vm.heap[i], Object::Range { current: 0, stop: 5, step: 1 }));
    } else {
        panic!("Expected range object");
    }
}

#[test]
fn test_range_two_args() {
    let mut vm = Vm::new();
    let result = vm.create_range(vec![Value::Int(2), Value::Int(5)]).unwrap();
    if let Value::Ref(i) = result {
        assert!(matches!(vm.heap[i], Object::Range { current: 2, stop: 5, step: 1 }));
    } else {
        panic!("Expected range object");
    }
}

#[test]
fn test_range_three_args() {
    let mut vm = Vm::new();
    let result = vm.create_range(vec![Value::Int(0), Value::Int(10), Value::Int(2)]).unwrap();
    if let Value::Ref(i) = result {
        assert!(matches!(vm.heap[i], Object::Range { current: 0, stop: 10, step: 2 }));
    } else {
        panic!("Expected range object");
    }
}

#[test]
fn test_range_zero_step() {
    let mut vm = Vm::new();
    let err = vm.create_range(vec![Value::Int(0), Value::Int(10), Value::Int(0)]).unwrap_err();
    assert!(err.message.contains("must not be zero"));
}

#[test]
fn test_range_non_int_arg() {
    let mut vm = Vm::new();
    let err = vm.create_range(vec![Value::Bool(true)]).unwrap_err();
    assert!(err.message.contains("must be int"));
    assert_eq!(err.message, "range() argument must be int, not 'bool'");
}

#[test]
fn test_range_arity_zero() {
    let mut vm = Vm::new();
    let err = vm.create_range(vec![]).unwrap_err();
    assert!(err.message.contains("1 to 3 arguments"));
}

#[test]
fn test_range_arity_four() {
    let mut vm = Vm::new();
    let err = vm
        .create_range(vec![Value::Int(0), Value::Int(10), Value::Int(2), Value::Int(5)])
        .unwrap_err();
    assert!(err.message.contains("1 to 3 arguments"));
    assert_eq!(err.message, "range() takes 1 to 3 arguments (4 given)");
}

// ========== print() ==========

struct MockIo {
    output: Vec<String>,
}

impl MockIo {
    fn new() -> Self {
        Self { output: Vec::new() }
    }

    fn get_output(&self) -> Vec<String> {
        self.output.clone()
    }
}

impl RuntimeIo for MockIo {
    fn write_line(&mut self, s: &str) {
        self.output.push(s.to_string());
    }

    fn write(&mut self, s: &str) {
        let _ = s;
    }

    fn read_line(&mut self) -> ReadResult {
        ReadResult::Error("not implemented".to_string())
    }

    fn read_line_with_prompt(&mut self, _prompt: Option<&str>) -> ReadResult {
        ReadResult::Error("not implemented".to_string())
    }
}

#[test]
fn test_print_no_args() {
    let vm = Vm::new();
    let mut io = MockIo::new();
    let result = vm.print_call(&vec![], &mut io).unwrap();
    assert_eq!(result, Value::NoneVal);
    assert_eq!(io.get_output(), vec![""]);
}

#[test]
fn test_print_int() {
    let vm = Vm::new();
    let mut io = MockIo::new();
    let result = vm.print_call(&vec![Value::Int(42)], &mut io).unwrap();
    assert_eq!(result, Value::NoneVal);
    assert_eq!(io.get_output(), vec!["42"]);
}

#[test]
fn test_print_bool() {
    let vm = Vm::new();
    let mut io = MockIo::new();
    let result = vm.print_call(&vec![Value::Bool(true)], &mut io).unwrap();
    assert_eq!(result, Value::NoneVal);
    assert_eq!(io.get_output(), vec!["True"]);
}

#[test]
fn test_print_multiple_args() {
    let vm = Vm::new();
    let mut io = MockIo::new();
    let result = vm
        .print_call(&vec![Value::Int(1), Value::Bool(true), Value::NoneVal], &mut io)
        .unwrap();
    assert_eq!(result, Value::NoneVal);
    assert_eq!(io.get_output(), vec!["1 True None"]);
}

#[test]
fn print_writes_to_a_buffer() {
    let vm = Vm::new();
    let mut io = BufferIo::new();
    vm.print_call(&vec![make_string("a"), Value::Int(-3)], &mut io).unwrap();
    vm.print_call(&vec![], &mut io).unwrap();
    assert_eq!(io.get_output(), "a -3\n\n");
}

// ========== assert() ==========

#[test]
fn assert_passes_and_fails() {
    assert_eq!(assert_call(&vec![Value::Int(1)]).unwrap(), Value::NoneVal);
    let err = assert_call(&vec![Value::Bool(false)]).unwrap_err();
    assert!(matches!(err.kind, VmErrorKind::AssertionError));
    assert_eq!(err.message, "AssertionError: assert failed");
    let err = assert_call(&vec![]).unwrap_err();
    assert_eq!(err.message, "assert() takes exactly 1 argument (0 given)");
}

// ========== string methods ==========

#[test]
fn tests_test_str_upper() {
    let receiver = make_string("hello");
    let result = str_native(NativeMethod::StrUpper, &receiver, &vec![]).unwrap();
    assert_eq!(text_of(result), "HELLO");
}

#[test]
fn tests_test_str_lower() {
    let receiver = make_string("WORLD");
    let result = str_native(NativeMethod::StrLower, &receiver, &vec![]).unwrap();
    assert_eq!(text_of(result), "world");
}

#[test]
fn test_str_strip() {
    let receiver = make_string("  trim me  ");
    let result = str_native(NativeMethod::StrStrip, &receiver, &vec![]).unwrap();
    assert_eq!(text_of(result), "trim me");
}

#[test]
fn tests_test_str_replace() {
    let receiver = make_string("hello world");
    let old = make_string("world");
    let new = make_string("rust");
    let result = str_native(NativeMethod::StrReplace, &receiver, &vec![old, new]).unwrap();
    assert_eq!(text_of(result), "hello rust");
}

#[test]
fn test_str_startswith_true() {
    let receiver = make_string("hello");
    let prefix = make_string("hel");
    let result = str_native(NativeMethod::StrStartsWith, &receiver, &vec![prefix]).unwrap();
    assert_eq!(result, Value::Bool(true));
}

#[test]
fn test_str_startswith_false() {
    let receiver = make_string("hello");
    let prefix = make_string("world");
    let result = str_native(NativeMethod::StrStartsWith, &receiver, &vec![prefix]).unwrap();
    assert_eq!(result, Value::Bool(false));
}

#[test]
fn test_str_endswith_true() {
    let receiver = make_string("hello");
    let suffix = make_string("lo");
    let result = str_native(NativeMethod::StrEndsWith, &receiver, &vec![suffix]).unwrap();
    assert_eq!(result, Value::Bool(true));
}

#[test]
fn test_str_find_found() {
    let receiver = make_string("hello world");
    let substr = make_string("world");
    let result = str_native(NativeMethod::StrFind, &receiver, &vec![substr]).unwrap();
    assert_eq!(result, Value::Int(6));
}

#[test]
fn test_str_find_not_found() {
    let receiver = make_string("hello");
    let substr = make_string("xyz");
    let result = str_native(NativeMethod::StrFind, &receiver, &vec![substr]).unwrap();
    assert_eq!(result, Value::Int(-1));
}

#[test]
fn test_str_count() {
    let receiver = make_string("hello hello hello");
    let substr = make_string("hello");
    let result = str_native(NativeMethod::StrCount, &receiver, &vec![substr]).unwrap();
    assert_eq!(result, Value::Int(3));
}
