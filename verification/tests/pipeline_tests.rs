use pyhyeon::runtime_io::BufferIo;
use pyhyeon::vm::bytecode::Value;
use pyhyeon::vm::machine::{VmErrorKind, VmState};
use pyhyeon::{analyze, compile_to_module, parse_source, Vm};

fn run_source(src: &str) -> (Result<Option<Value>, VmErrorKind>, String) {
    let program = parse_source(src).ok().expect("parse");
    assert!(analyze(&program).is_ok(), "analysis failed for {:?}", src);
    let mut module = compile_to_module(&program);
    let mut vm = Vm::new();
    let r = vm.run(&mut module);
    (r.map_err(|e| e.kind), vm.output.clone())
}

#[test]
fn arithmetic_precedence_prints() {
    let (r, out) = run_source("print(1 + 2 * 3)\n");
    assert!(r.is_ok());
    assert_eq!(out, "7\n");
}

#[test]
fn recursive_factorial() {
    let src = "def fact(n):\n  if n == 0:\n    return 1\n  return n * fact(n - 1)\nprint(fact(5))\n";
    let (r, out) = run_source(src);
    assert!(r.is_ok());
    assert_eq!(out, "120\n");
}

#[test]
fn while_loop_sums() {
    let src = "i = 0\ns = 0\nwhile i < 5:\n  s = s + i\n  i = i + 1\nprint(s)\n";
    let (r, out) = run_source(src);
    assert!(r.is_ok());
    assert_eq!(out, "10\n");
}

#[test]
fn for_loop_over_range() {
    let src = "t = 0\nfor i in range(4):\n  t = t + i\nprint(t)\n";
    let (r, out) = run_source(src);
    assert!(r.is_ok());
    assert_eq!(out, "6\n");
}

#[test]
fn string_concatenation_and_methods() {
    let (r, out) = run_source("print('ab' + 'cd')\nprint('hello'.upper())\n");
    assert!(r.is_ok());
    assert_eq!(out, "abcd\nHELLO\n");
}

#[test]
fn int_of_str_round_trip() {
    let (r, out) = run_source("print(int(str(-45)))\n");
    assert!(r.is_ok());
    assert_eq!(out, "-45\n");
}

#[test]
fn division_truncates_toward_zero() {
    let (r, out) = run_source("print(-7 // 2)\nprint(-7 % 2)\n");
    assert!(r.is_ok());
    assert_eq!(out, "-3\n-1\n");
}

#[test]
fn booleans_print_capitalized() {
    let (r, out) = run_source("print(3 < 5)\nprint(not True)\n");
    assert!(r.is_ok());
    assert_eq!(out, "True\nFalse\n");
}

#[test]
fn zero_division_is_a_runtime_error() {
    let (r, _) = run_source("x = 1 // 0\n");
    assert!(matches!(r, Err(VmErrorKind::ZeroDivision)));
}

#[test]
fn main_returns_none_and_finishes() {
    let program = parse_source("x = 1\n").ok().unwrap();
    let mut module = compile_to_module(&program);
    let mut vm = Vm::new();
    let r = vm.run(&mut module);
    assert!(matches!(r, Ok(None)));
    assert_eq!(vm.get_state(), VmState::Finished);
}

#[test]
fn input_pauses_for_a_line_and_resumes() {

    let program = parse_source("name = input()\nprint(name)\n").ok().unwrap();
    let mut module = compile_to_module(&program);
    let mut vm = Vm::new();
    let mut io = BufferIo::new();
    let r = vm.run_with_io(&mut module, &mut io);
    assert!(r.is_ok());
    assert!(vm.is_waiting_for_input());
    io.push_input_line("kim".to_string());
    vm.resume();
    let r = vm.run_with_io(&mut module, &mut io);
    assert!(r.is_ok());
    assert!(vm.is_finished());
    assert_eq!(io.take_output(), "kim\n");
}

#[test]
fn string_repetition_and_its_size_limit() {
    let (r, out) = run_source("print(\"ab\" * 3)\nprint(\"x\" * 0)\n");
    assert!(r.is_ok());
    assert_eq!(out, "ababab\n\n");
    let (r, _) = run_source("y = \"ab\" * 4611686018427387904\n");
    assert!(matches!(r, Err(VmErrorKind::TypeError("multiply"))));
}
