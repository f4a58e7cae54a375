use pyhyeon::semantic::typecheck::{unify_return, Ty, TypeEnv};
use pyhyeon::text::i64_to_string;
use pyhyeon::vm::bytecode::{FunctionCode, Instruction, Module, TypeFlags, Value};
use pyhyeon::vm::machine::{jump_rel, Vm};
use pyhyeon::vm::values::{eq_vals, parse_int};

fn run_code(code: Vec<Instruction>) -> Option<Value> {
    let mut m = Module::new();
    m.functions.push(FunctionCode { name_sym: 0, arity: 0, num_locals: 0, code });
    let mut vm = Vm::new();
    vm.run(&mut m).ok().flatten()
}

#[test]
fn division_and_remainder_fit_together() {
    for (a, b) in [(-7i64, 2i64), (7, -2), (-7, -2), (7, 2), (0, 5)] {
        let q = match run_code(vec![Instruction::ConstI64(a), Instruction::ConstI64(b), Instruction::Div]) {
            Some(Value::Int(q)) => q,
            other => panic!("unexpected {:?}", other),
        };
        let r = match run_code(vec![Instruction::ConstI64(a), Instruction::ConstI64(b), Instruction::Mod]) {
            Some(Value::Int(r)) => r,
            other => panic!("unexpected {:?}", other),
        };
        assert_eq!(q * b + r, a);
        assert!(r.abs() < b.abs());
        assert!(r == 0 || (r < 0) == (a < 0));
    }
}

#[test]
fn decimal_text_reads_back() {
    for n in [0i64, 7, -1, 1234567890, i64::MAX, i64::MIN] {
        assert_eq!(parse_int(&i64_to_string(n)), Some(n));
    }
}

#[test]
fn push_then_pop_gives_the_value_back() {
    let mut vm = Vm::new();
    vm.push(Value::Int(1)).ok().unwrap();
    vm.push(Value::Str("x".to_string())).ok().unwrap();
    assert_eq!(vm.pop().ok(), Some(Value::Str("x".to_string())));
    assert_eq!(vm.stack, vec![Value::Int(1)]);
}

#[test]
fn jump_and_jump_back() {
    let mut ip: usize = 10;
    jump_rel(&mut ip, 5);
    assert_eq!(ip, 15);
    jump_rel(&mut ip, -5);
    assert_eq!(ip, 10);
}

#[test]
fn equality_is_symmetric_and_reflexive() {
    let vals = [Value::Int(1), Value::Bool(true), Value::NoneVal, Value::Str("a".to_string())];
    for a in vals.iter() {
        assert!(eq_vals(a, a));
        for b in vals.iter() {
            assert_eq!(eq_vals(a, b), eq_vals(b, a));
        }
    }
}

#[test]
fn orderings_are_converse() {
    let lt = run_code(vec![Instruction::ConstI64(3), Instruction::ConstI64(5), Instruction::Lt]);
    let gt = run_code(vec![Instruction::ConstI64(5), Instruction::ConstI64(3), Instruction::Gt]);
    assert_eq!(lt, gt);
    assert_eq!(lt, Some(Value::Bool(true)));
}

#[test]
fn type_env_reads_what_was_set() {
    let mut env = TypeEnv::new();
    env.set("x".to_string(), Ty::Int);
    env.set("y".to_string(), Ty::Bool);
    assert!(matches!(env.get("x"), Some(Ty::Int)));
    assert!(matches!(env.get("y"), Some(Ty::Bool)));
    env.push();
    assert!(matches!(env.get("x"), Some(Ty::Int)));
    env.pop();
    assert!(matches!(env.get("z"), None));
}

#[test]
fn unify_ignores_order() {
    assert!(matches!(unify_return(Ty::Int, Ty::Unknown), Some(Ty::Int)));
    assert!(matches!(unify_return(Ty::Unknown, Ty::Int), Some(Ty::Int)));
    assert!(unify_return(Ty::Int, Ty::Bool).is_none());
    assert!(unify_return(Ty::Bool, Ty::Int).is_none());
}

#[test]
fn flag_union_contains_both() {
    let u = TypeFlags::immutable().union(TypeFlags::iterable());
    assert!(u.contains(TypeFlags::immutable()));
    assert!(u.contains(TypeFlags::iterable()));
}

#[test]
fn straight_line_failure_is_an_error() {
    let mut m = Module::new();
    m.functions.push(FunctionCode { name_sym: 0, arity: 0, num_locals: 0, code: vec![Instruction::Pop] });
    let mut vm = Vm::new();
    assert!(vm.run(&mut m).is_err());
}

#[test]
fn compiled_pure_program_runs_or_fails() {
    let ok = pyhyeon::parse_source("1 + 2 * 3\nnot 0\n").ok().unwrap();
    let mut m = pyhyeon::compile_to_module(&ok);
    let mut vm = Vm::new();
    assert!(matches!(vm.run(&mut m), Ok(None)));

    let bad = pyhyeon::parse_source("1 + 2\n7 // 0\n3\n").ok().unwrap();
    let mut m = pyhyeon::compile_to_module(&bad);
    let mut vm = Vm::new();
    assert!(vm.run(&mut m).is_err());

    let mixed = pyhyeon::parse_source("True + 1\n").ok().unwrap();
    let mut m = pyhyeon::compile_to_module(&mixed);
    let mut vm = Vm::new();
    assert!(vm.run(&mut m).is_err());
}

#[test]
fn main_code_returns_the_computed_value() {
    let mut m = Module::new();
    m.functions.push(FunctionCode {
        name_sym: 0,
        arity: 0,
        num_locals: 0,
        code: vec![Instruction::ConstI64(5), Instruction::ConstI64(37), Instruction::Add, Instruction::Return],
    });
    let mut vm = Vm::new();
    assert_eq!(vm.run(&mut m).ok().flatten(), Some(Value::Int(42)));
}

#[test]
fn call_then_return_resumes_the_caller() {
    // main: 7; add(2, 3); +  ==> 7 + 5 with the caller's 7 kept under the call
    let mut m = Module::new();
    m.functions.push(FunctionCode {
        name_sym: 0,
        arity: 0,
        num_locals: 0,
        code: vec![
            Instruction::ConstI64(7),
            Instruction::ConstI64(2),
            Instruction::ConstI64(3),
            Instruction::Call(1, 2),
            Instruction::Add,
            Instruction::Return,
        ],
    });
    m.functions.push(FunctionCode {
        name_sym: 0,
        arity: 2,
        num_locals: 3,
        code: vec![
            Instruction::LoadLocal(2),
            Instruction::Pop,
            Instruction::LoadLocal(0),
            Instruction::LoadLocal(1),
            Instruction::Add,
            Instruction::Return,
        ],
    });
    let mut vm = Vm::new();
    assert_eq!(vm.run(&mut m).ok().flatten(), Some(Value::Int(12)));
}

#[test]
fn global_store_then_load() {
    let mut m = Module::new();
    m.globals.push(None);
    m.functions.push(FunctionCode {
        name_sym: 0,
        arity: 0,
        num_locals: 0,
        code: vec![
            Instruction::ConstI64(9),
            Instruction::StoreGlobal(0),
            Instruction::LoadGlobal(0),
            Instruction::LoadGlobal(0),
            Instruction::Mul,
            Instruction::Return,
        ],
    });
    let mut vm = Vm::new();
    assert_eq!(vm.run(&mut m).ok().flatten(), Some(Value::Int(81)));
    assert_eq!(m.globals[0], Some(Value::Int(9)));
}

#[test]
fn unset_global_is_an_error() {
    let mut m = Module::new();
    m.globals.push(None);
    m.functions.push(FunctionCode {
        name_sym: 0,
        arity: 0,
        num_locals: 0,
        code: vec![Instruction::LoadGlobal(0), Instruction::Return],
    });
    let mut vm = Vm::new();
    assert!(vm.run(&mut m).is_err());
}

#[test]
fn running_past_the_end_of_a_callee_returns_none() {
    let mut m = Module::new();
    m.functions.push(FunctionCode {
        name_sym: 0,
        arity: 0,
        num_locals: 0,
        code: vec![Instruction::Call(1, 0), Instruction::Return],
    });
    m.functions.push(FunctionCode { name_sym: 0, arity: 0, num_locals: 0, code: vec![] });
    let mut vm = Vm::new();
    assert!(matches!(vm.run(&mut m), Ok(None)));
}

#[test]
fn indentation_opens_and_closes_in_pairs() {
    let src = "def f(x):\n  if x:\n    return 1\n  else:\n    while x:\n      x = x - 1\n  return 0\nf(3)\n";
    let toks = pyhyeon::driver::tokenize(src);
    let indents = toks.iter().filter(|(t, _)| matches!(t, pyhyeon::lexer::Token::Indent)).count();
    let dedents = toks.iter().filter(|(t, _)| matches!(t, pyhyeon::lexer::Token::Dedent)).count();
    assert_eq!(indents, 4);
    assert_eq!(indents, dedents);
}

#[test]
fn token_spans_cover_their_text() {
    let src = "x = 'a\\tb' + 12 // 3";
    let toks = pyhyeon::driver::tokenize(src);
    let texts: Vec<&str> = toks.iter().map(|(_, s)| &src[s.start..s.end]).collect();
    assert_eq!(texts, vec!["x", "=", "'a\\tb'", "+", "12", "//", "3"]);
    assert!(matches!(&toks[2].0, pyhyeon::lexer::Token::String(s) if s == "a\tb"));
}

fn global_of(m: &Module, name: &str) -> Option<Value> {
    let i = m.symbols.iter().position(|s| s == name)?;
    m.globals[i].clone()
}

#[test]
fn assigned_variables_read_back() {
    let p = pyhyeon::parse_source("x = 2\ny = x * 21\nx = y - x\n").ok().unwrap();
    let mut m = pyhyeon::compile_to_module(&p);
    let mut vm = Vm::new();
    assert!(matches!(vm.run(&mut m), Ok(None)));
    assert_eq!(global_of(&m, "x"), Some(Value::Int(40)));
    assert_eq!(global_of(&m, "y"), Some(Value::Int(42)));
}

#[test]
fn reading_an_unassigned_variable_fails() {
    let p = pyhyeon::parse_source("y = x + 1\n").ok().unwrap();
    let mut m = pyhyeon::compile_to_module(&p);
    let mut vm = Vm::new();
    assert!(vm.run(&mut m).is_err());
}

#[test]
fn and_or_compile_to_short_circuit_jumps() {
    let program = pyhyeon::parse_source("True and False\nFalse or True\n").ok().unwrap();
    let m = pyhyeon::compile_to_module(&program);
    assert_eq!(m.symbols[0], "__main__");
    assert_eq!(m.functions[0].name_sym, 0);
    assert_eq!(m.globals.len(), m.symbols.len());
    let code = &m.functions[0].code;
    assert_eq!(
        code[0..5].to_vec(),
        vec![Instruction::True, Instruction::JumpIfFalse(2), Instruction::False, Instruction::Jump(1), Instruction::False]
    );
    assert_eq!(code[5], Instruction::Pop);
    assert_eq!(
        code[6..11].to_vec(),
        vec![Instruction::False, Instruction::JumpIfTrue(2), Instruction::True, Instruction::Jump(1), Instruction::True]
    );
    let mut m = m;
    let mut vm = Vm::new();
    assert!(vm.run(&mut m).is_ok());
}

#[test]
fn compiled_symbols_are_distinct_with_one_global_each() {
    let program = pyhyeon::parse_source("x = 1\ny = x\nx = y + 1\ndef f(a):\n  return a\nf(x)\n").ok().unwrap();
    let m = pyhyeon::compile_to_module(&program);
    assert_eq!(m.symbols[0], "__main__");
    assert_eq!(m.globals.len(), m.symbols.len());
    for i in 0..m.symbols.len() {
        for j in (i + 1)..m.symbols.len() {
            assert_ne!(m.symbols[i], m.symbols[j]);
        }
    }
}

#[test]
fn jumps_of_compiled_code_land_inside_it() {
    let src = "x = 0\nwhile x < 5:\n  if x == 2:\n    x = x + 2\n    continue\n  elif x == 9:\n    break\n  else:\n    x = x + 1\nfor i in range(3):\n  x = x + i\ny = x > 1 and x < 100 or False\n";
    let src = format!("{}def g(n):\n  while n > 0:\n    if n == 3:\n      break\n    n = n - 1\n  return n\ng(5)\n", src);
    let program = pyhyeon::parse_source(&src).ok().unwrap();
    let m = pyhyeon::compile_to_module(&program);
    assert!(m.functions.len() >= 2);
    let mut jumps = 0;
    for f in &m.functions {
        let code = &f.code;
        let n = code.len() as i64;
        for (k, ins) in code.iter().enumerate() {
            let off = match ins {
                Instruction::Jump(o) | Instruction::JumpIfFalse(o) | Instruction::JumpIfTrue(o) => *o as i64,
                _ => continue,
            };
            jumps += 1;
            let target = k as i64 + 1 + off;
            assert!(0 <= target && target <= n, "jump at {} lands at {}", k, target);
        }
    }
    assert!(jumps >= 9);
    let mut m = m;
    let mut vm = Vm::new();
    assert!(vm.run(&mut m).is_ok());
}
