use pyhyeon::ast::{BinaryOp, Expr, ExprS, Literal, Span, Stmt, StmtS};
use pyhyeon::semantic::analyze;
use pyhyeon::parse_source;

fn make_expr(expr: Expr) -> ExprS {
    (expr, Span { start: 0, end: 1 })
}

fn make_stmt(stmt: Stmt) -> StmtS {
    (stmt, Span { start: 0, end: 1 })
}

fn var(name: &str) -> ExprS {
    make_expr(Expr::Variable(name.to_string()))
}

fn int_lit(v: i64) -> ExprS {
    make_expr(Expr::Literal(Literal::Int(v)))
}

#[test]
fn test_analyze_global_variable() {
    let program = vec![
        make_stmt(Stmt::Assign { target: var("x"), value: int_lit(42) }),
        make_stmt(Stmt::Expr(var("x"))),
    ];
    let result = analyze(&program);
    assert!(result.is_ok());
}

#[test]
fn test_analyze_undefined_variable() {
    let program = vec![make_stmt(Stmt::Expr(var("undefined")))];
    let result = analyze(&program);
    assert!(result.is_err());
    if let Err(err) = result {
        assert!(err.message.contains("Undefined variable"));
    }
}

#[test]
fn test_analyze_function_definition() {
    let program = vec![
        make_stmt(Stmt::Def {
            name: "foo".to_string(),
            params: vec![],
            body: vec![make_stmt(Stmt::Return(int_lit(42)))],
        }),
        make_stmt(Stmt::Expr(make_expr(Expr::Call { func_name: Box::new(var("foo")), args: vec![] }))),
    ];
    let result = analyze(&program);
    assert!(result.is_ok());
}

#[test]
fn test_analyze_undefined_function() {
    let program = vec![make_stmt(Stmt::Expr(make_expr(Expr::Call {
        func_name: Box::new(var("undefined")),
        args: vec![],
    })))];
    let result = analyze(&program);
    assert!(result.is_err());
    if let Err(err) = result {
        assert!(err.message.contains("Undefined function"));
    }
}

#[test]
fn test_analyze_function_parameters() {
    let program = vec![make_stmt(Stmt::Def {
        name: "add".to_string(),
        params: vec!["a".to_string(), "b".to_string()],
        body: vec![make_stmt(Stmt::Return(make_expr(Expr::Binary {
            op: BinaryOp::Add,
            left: Box::new(var("a")),
            right: Box::new(var("b")),
        })))],
    })];
    let result = analyze(&program);
    assert!(result.is_ok());
}

#[test]
fn test_analyze_unbound_local_variable() {
    let program = vec![make_stmt(Stmt::Def {
        name: "foo".to_string(),
        params: vec![],
        body: vec![
            make_stmt(Stmt::Expr(var("x"))),
            make_stmt(Stmt::Assign { target: var("x"), value: int_lit(42) }),
        ],
    })];
    let result = analyze(&program);
    assert!(result.is_err());
    if let Err(err) = result {
        assert!(err.message.contains("Unbound local variable"));
    }
}

#[test]
fn test_analyze_builtin_function() {
    let program = vec![make_stmt(Stmt::Expr(make_expr(Expr::Call {
        func_name: Box::new(var("print")),
        args: vec![int_lit(42)],
    })))];
    let result = analyze(&program);
    assert!(result.is_ok());
}

#[test]
fn test_analyze_nested_scopes() {
    let program = vec![
        make_stmt(Stmt::Assign { target: var("x"), value: int_lit(1) }),
        make_stmt(Stmt::Def {
            name: "outer".to_string(),
            params: vec![],
            body: vec![make_stmt(Stmt::Def {
                name: "inner".to_string(),
                params: vec![],
                body: vec![make_stmt(Stmt::Return(var("x")))],
            })],
        }),
    ];
    let result = analyze(&program);
    assert!(result.is_ok());
}

#[test]
fn test_analyze_type_error_add_bool() {
    let program = vec![make_stmt(Stmt::Expr(make_expr(Expr::Binary {
        op: BinaryOp::Add,
        left: Box::new(make_expr(Expr::Literal(Literal::Bool(true)))),
        right: Box::new(int_lit(42)),
    })))];
    let result = analyze(&program);
    assert!(result.is_err());
}

#[test]
fn test_analyze_logical_on_int_allowed() {
    let program = vec![make_stmt(Stmt::Expr(make_expr(Expr::Binary {
        op: BinaryOp::And,
        left: Box::new(int_lit(1)),
        right: Box::new(int_lit(2)),
    })))];
    let result = analyze(&program);
    assert!(result.is_ok(), "Logical operations on int should be allowed");
}

#[test]
fn test_analyze_if_condition_type() {
    let program = vec![make_stmt(Stmt::If {
        condition: make_expr(Expr::Literal(Literal::Bool(true))),
        then_block: vec![make_stmt(Stmt::Expr(int_lit(1)))],
        elif_blocks: vec![],
        else_block: None,
    })];
    let result = analyze(&program);
    assert!(result.is_ok());
}

#[test]
fn test_analyze_while_condition_type() {
    let program = vec![make_stmt(Stmt::While {
        condition: make_expr(Expr::Literal(Literal::Bool(true))),
        body: vec![make_stmt(Stmt::Expr(int_lit(1)))],
    })];
    let result = analyze(&program);
    assert!(result.is_ok());
}

#[test]
fn test_analyze_return_type_consistency() {
    let program = vec![make_stmt(Stmt::Def {
        name: "foo".to_string(),
        params: vec!["x".to_string()],
        body: vec![make_stmt(Stmt::If {
            condition: var("x"),
            then_block: vec![make_stmt(Stmt::Return(int_lit(1)))],
            elif_blocks: vec![],
            else_block: Some(vec![make_stmt(Stmt::Return(make_expr(Expr::Literal(Literal::Bool(true)))))]),
        })],
    })];
    let result = analyze(&program);
    assert!(result.is_err());
}

#[test]
fn test_analyze_multiple_errors() {
    let program = vec![
        make_stmt(Stmt::Expr(var("undefined1"))),
        make_stmt(Stmt::Expr(var("undefined2"))),
    ];
    let result = analyze(&program);
    assert!(result.is_err());
}

#[test]
fn test_analyze_complex_expression() {
    let program = vec![make_stmt(Stmt::Assign {
        target: var("result"),
        value: make_expr(Expr::Binary {
            op: BinaryOp::Add,
            left: Box::new(make_expr(Expr::Binary {
                op: BinaryOp::Multiply,
                left: Box::new(int_lit(2)),
                right: Box::new(int_lit(3)),
            })),
            right: Box::new(int_lit(4)),
        }),
    })];
    let result = analyze(&program);
    assert!(result.is_ok());
}

#[test]
fn analyze_empty_program_is_ok() {
    let program: Vec<StmtS> = vec![];
    assert!(analyze(&program).is_ok());
}

#[test]
fn analyze_from_source_with_globals() {
    let program = pyhyeon::parse_source("y = x + 1\n").ok().unwrap();
    assert!(pyhyeon::analyze(&program).is_err());
    let globals = vec!["x".to_string()];
    assert!(pyhyeon::analyze_with_globals(&program, &globals).is_ok());
}

#[test]
fn analyze_reports_arity_mismatch() {
    let program = pyhyeon::parse_source("def f(a):\n  return a\nf(1, 2)\n").ok().unwrap();
    assert!(pyhyeon::analyze(&program).is_err());
}

#[test]
fn local_read_inside_a_branch_before_assignment_is_unbound() {
    let src = "def f(c):\n  if c == 1:\n    print(t)\n  t = 1\n  return t\n";
    let program = pyhyeon::parse_source(src).ok().unwrap();
    assert!(pyhyeon::analyze(&program).is_err());
}

#[test]
fn local_assigned_in_a_branch_reads_later() {
    let src = "def f(c):\n  t = 0\n  if c == 1:\n    t = 1\n  else:\n    t = 2\n  return t\n";
    let program = pyhyeon::parse_source(src).ok().unwrap();
    assert!(pyhyeon::analyze(&program).is_ok());
}

#[test]
fn loop_variable_of_a_function_is_assigned_in_its_body() {
    let src = "def f(n):\n  s = 0\n  for i in range(n):\n    s = s + i\n  return s\n";
    let program = pyhyeon::parse_source(src).ok().unwrap();
    assert!(pyhyeon::analyze(&program).is_ok());
}

#[test]
fn undefined_name_inside_a_module_loop_body_is_an_error() {
    let src = "while True:\n  x = y\n";
    let program = pyhyeon::parse_source(src).ok().unwrap();
    assert!(pyhyeon::analyze(&program).is_err());
}

#[test]
fn method_without_self_is_an_error() {
    let src = "class A:\n  def m(x):\n    return x\n";
    let program = pyhyeon::parse_source(src).ok().unwrap();
    assert!(pyhyeon::analyze(&program).is_err());
}

#[test]
fn break_inside_an_if_outside_any_loop_is_rejected() {
    let program = parse_source("if True:\n  break\n").ok().unwrap();
    let e = analyze(&program).unwrap_err();
    assert_eq!(e.message, "SyntaxError: 'break' outside loop");
    assert_eq!((e.span.start, e.span.end), (11, 16));
    let program = parse_source("while True:\n  if True:\n    break\n").ok().unwrap();
    assert!(analyze(&program).is_ok());
    let program = parse_source("if True:\n  pass\nelse:\n  continue\n").ok().unwrap();
    let e = analyze(&program).unwrap_err();
    assert_eq!(e.message, "SyntaxError: 'continue' outside loop");
}

#[test]
fn operand_and_assignment_errors_name_the_types() {
    let program = parse_source("x = 1 + True\n").ok().unwrap();
    let e = analyze(&program).unwrap_err();
    assert!(e.message.starts_with("TypeError: unsupported operand types for +"));
    assert_eq!((e.span.start, e.span.end), (4, 12));
    let program = parse_source("x = \"a\" / 2\n").ok().unwrap();
    let e = analyze(&program).unwrap_err();
    assert!(e.message.starts_with("TypeError: expected numeric types"));
    let program = parse_source("x = 1\nx = True\n").ok().unwrap();
    let e = analyze(&program).unwrap_err();
    assert!(e.message.starts_with("TypeError: cannot assign value of type"));
    assert_eq!((e.span.start, e.span.end), (10, 14));
    let program = parse_source("x = 1\nx = 2\n").ok().unwrap();
    assert!(analyze(&program).is_ok());
}

#[test]
fn stray_jumps_in_function_bodies_are_rejected() {
    let program = parse_source("def f():\n  break\n").ok().unwrap();
    let e = analyze(&program).unwrap_err();
    assert_eq!(e.message, "SyntaxError: 'break' outside loop");
    let program = parse_source("def f(x):\n  if x == 1:\n    continue\n  return 1\n").ok().unwrap();
    let e = analyze(&program).unwrap_err();
    assert_eq!(e.message, "SyntaxError: 'continue' outside loop");
    let program = parse_source("def f(x):\n  while x > 0:\n    if x == 1:\n      break\n  return 1\n").ok().unwrap();
    assert!(analyze(&program).is_ok());
}
