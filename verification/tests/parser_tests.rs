use pyhyeon::ast::{BinaryOp, Expr, ExprS, Literal, Span, Stmt, StmtS, UnaryOp};
use pyhyeon::driver::{expr_parser, program_parser, tokenize, Diagnostic};

fn parse_expr(source: &str) -> Result<ExprS, Vec<Diagnostic>> {
    let tokens = tokenize(source);
    let eoi = Span { start: source.len(), end: source.len() };
    expr_parser(tokens, eoi)
}

fn parse_program(source: &str) -> Result<Vec<StmtS>, Vec<Diagnostic>> {
    let tokens = tokenize(source);
    let eoi = Span { start: source.len(), end: source.len() };
    program_parser(tokens, eoi)
}

#[test]
fn test_parse_literal_int() {
    let result = parse_expr("42");
    assert!(result.is_ok(), "Failed to parse: {:?}", result.err());
    let expr = result.unwrap();
    assert!(matches!(expr.0, Expr::Literal(Literal::Int(42))));
}

#[test]
fn test_parse_literal_bool() {
    let result = parse_expr("True");
    assert!(result.is_ok());
    assert!(matches!(result.unwrap().0, Expr::Literal(Literal::Bool(true))));

    let result = parse_expr("False");
    assert!(result.is_ok());
    assert!(matches!(result.unwrap().0, Expr::Literal(Literal::Bool(false))));
}

#[test]
fn test_parse_literal_none() {
    let result = parse_expr("None");
    assert!(result.is_ok());
    assert!(matches!(result.unwrap().0, Expr::Literal(Literal::NoneLit)));
}

#[test]
fn test_parse_variable() {
    let result = parse_expr("x");
    assert!(result.is_ok());
    if let Expr::Variable(name) = result.unwrap().0 {
        assert_eq!(name, "x");
    } else {
        panic!("Expected variable");
    }
}

#[test]
fn test_parse_binary_add() {
    let result = parse_expr("1 + 2");
    assert!(result.is_ok());
    let expr = result.unwrap();
    if let Expr::Binary { op, left, right } = expr.0 {
        assert!(matches!(op, BinaryOp::Add));
        assert!(matches!(left.0, Expr::Literal(Literal::Int(1))));
        assert!(matches!(right.0, Expr::Literal(Literal::Int(2))));
    } else {
        panic!("Expected binary expression");
    }
}

#[test]
fn test_parse_binary_precedence() {
    let result = parse_expr("1 + 2 * 3");
    assert!(result.is_ok());
    let expr = result.unwrap();
    if let Expr::Binary { op: BinaryOp::Add, left, right } = expr.0 {
        assert!(matches!(left.0, Expr::Literal(Literal::Int(1))));
        if let Expr::Binary { op: BinaryOp::Multiply, .. } = right.0 {
        } else {
            panic!("Expected multiplication on right");
        }
    } else {
        panic!("Expected addition at top level");
    }
}

#[test]
fn test_parse_unary_negate() {
    let result = parse_expr("-42");
    assert!(result.is_ok());
    if let Expr::Literal(Literal::Int(-42)) = result.unwrap().0 {
        assert!(true);
    } else {
        panic!("Expected literal int -42");
    }
}

#[test]
fn test_parse_unary_not() {
    let result = parse_expr("not True");
    assert!(result.is_ok());
    if let Expr::Unary { op, expr } = result.unwrap().0 {
        assert!(matches!(op, UnaryOp::Not));
        assert!(matches!(expr.0, Expr::Literal(Literal::Bool(true))));
    } else {
        panic!("Expected unary not");
    }
}

#[test]
fn test_parse_call_no_args() {
    let result = parse_expr("foo()");
    assert!(result.is_ok());
    if let Expr::Call { func_name, args } = result.unwrap().0 {
        assert!(matches!(func_name.0, Expr::Variable(_)));
        assert_eq!(args.len(), 0);
    } else {
        panic!("Expected call");
    }
}

#[test]
fn test_parse_call_with_args() {
    let result = parse_expr("add(1, 2)");
    assert!(result.is_ok());
    if let Expr::Call { func_name, args } = result.unwrap().0 {
        if let Expr::Variable(name) = &func_name.0 {
            assert_eq!(name, "add");
        } else {
            panic!("Expected variable");
        }
        assert_eq!(args.len(), 2);
        assert!(matches!(args[0].0, Expr::Literal(Literal::Int(1))));
        assert!(matches!(args[1].0, Expr::Literal(Literal::Int(2))));
    } else {
        panic!("Expected call");
    }
}

#[test]
fn test_parse_comparison() {
    let result = parse_expr("x < 10");
    assert!(result.is_ok());
    if let Expr::Binary { op, .. } = result.unwrap().0 {
        assert!(matches!(op, BinaryOp::Less));
    } else {
        panic!("Expected comparison");
    }
}

#[test]
fn test_parse_logical_and() {
    let result = parse_expr("True and False");
    assert!(result.is_ok());
    if let Expr::Binary { op, .. } = result.unwrap().0 {
        assert!(matches!(op, BinaryOp::And));
    } else {
        panic!("Expected logical and");
    }
}

#[test]
fn test_parse_logical_or() {
    let result = parse_expr("True or False");
    assert!(result.is_ok());
    if let Expr::Binary { op, .. } = result.unwrap().0 {
        assert!(matches!(op, BinaryOp::Or));
    } else {
        panic!("Expected logical or");
    }
}

#[test]
fn test_parse_parenthesized() {
    let result = parse_expr("(1 + 2) * 3");
    assert!(result.is_ok());
    if let Expr::Binary { op: BinaryOp::Multiply, left, right } = result.unwrap().0 {
        assert!(matches!(left.0, Expr::Binary { op: BinaryOp::Add, .. }));
        assert!(matches!(right.0, Expr::Literal(Literal::Int(3))));
    } else {
        panic!("Expected multiplication at top level");
    }
}

#[test]
fn test_parse_comparison_chain() {
    let result = parse_expr("1 < x < 10");
    assert!(result.is_ok());
    let expr = result.unwrap();
    if let Expr::Binary { op: BinaryOp::And, left, right } = expr.0 {
        if let Expr::Binary { op: BinaryOp::Less, left: l1, right: r1 } = left.0 {
            assert!(matches!(l1.0, Expr::Literal(Literal::Int(1))));
            assert!(matches!(r1.0, Expr::Variable(_)));
        } else {
            panic!("Expected less expression on left");
        }
        if let Expr::Binary { op: BinaryOp::Less, left: l2, right: r2 } = right.0 {
            assert!(matches!(l2.0, Expr::Variable(_)));
            assert!(matches!(r2.0, Expr::Literal(Literal::Int(10))));
        } else {
            panic!("Expected less expression on right");
        }
    } else {
        panic!("Expected and expression at top level");
    }
}

#[test]
fn test_parse_assign() {
    let source = "x = 42\n";
    let result = parse_program(source);
    assert!(result.is_ok(), "Failed to parse: {:?}", result.err());
    let stmts = result.unwrap();
    assert_eq!(stmts.len(), 1);
    if let Stmt::Assign { target, value } = &stmts[0].0 {
        assert!(matches!(target.0, Expr::Variable(_)));
        if let Expr::Variable(name) = &target.0 {
            assert_eq!(name, "x");
        }
        assert!(matches!(value.0, Expr::Literal(Literal::Int(42))));
    } else {
        panic!("Expected assignment");
    }
}

#[test]
fn test_parse_expr_stmt() {
    let result = parse_program("print(42)\n");
    assert!(result.is_ok());
    let stmts = result.unwrap();
    assert_eq!(stmts.len(), 1);
    assert!(matches!(stmts[0].0, Stmt::Expr(_)));
}

#[test]
fn test_parse_return() {
    let result = parse_program("def foo():\n  return 42\n");
    assert!(result.is_ok());
    let stmts = result.unwrap();
    assert_eq!(stmts.len(), 1);
    if let Stmt::Def { body, .. } = &stmts[0].0 {
        assert_eq!(body.len(), 1);
        assert!(matches!(body[0].0, Stmt::Return(_)));
    } else {
        panic!("Expected def");
    }
}

#[test]
fn test_parse_if() {
    let result = parse_program("if x > 0:\n  y = 1\n");
    assert!(result.is_ok());
    let stmts = result.unwrap();
    assert_eq!(stmts.len(), 1);
    if let Stmt::If { condition, then_block, elif_blocks, else_block } = &stmts[0].0 {
        assert!(matches!(condition.0, Expr::Binary { op: BinaryOp::Greater, .. }));
        assert_eq!(then_block.len(), 1);
        assert_eq!(elif_blocks.len(), 0);
        assert!(else_block.is_none());
    } else {
        panic!("Expected if statement");
    }
}

#[test]
fn test_parse_if_elif_else() {
    let source = "\
if x > 0:
  y = 1
elif x == 0:
  y = 0
else:
  y = -1
";
    let result = parse_program(source);
    assert!(result.is_ok());
    let stmts = result.unwrap();
    assert_eq!(stmts.len(), 1);
    if let Stmt::If { elif_blocks, else_block, .. } = &stmts[0].0 {
        assert_eq!(elif_blocks.len(), 1);
        assert!(else_block.is_some());
    } else {
        panic!("Expected if statement");
    }
}

#[test]
fn test_parse_while() {
    let result = parse_program("while x > 0:\n  x = x - 1\n");
    assert!(result.is_ok());
    let stmts = result.unwrap();
    assert_eq!(stmts.len(), 1);
    if let Stmt::While { condition, body } = &stmts[0].0 {
        assert!(matches!(condition.0, Expr::Binary { op: BinaryOp::Greater, .. }));
        assert_eq!(body.len(), 1);
    } else {
        panic!("Expected while statement");
    }
}

#[test]
fn test_parse_def_no_params() {
    let result = parse_program("def foo():\n  return 42\n");
    assert!(result.is_ok());
    let stmts = result.unwrap();
    assert_eq!(stmts.len(), 1);
    if let Stmt::Def { name, params, body } = &stmts[0].0 {
        assert_eq!(name, "foo");
        assert_eq!(params.len(), 0);
        assert_eq!(body.len(), 1);
    } else {
        panic!("Expected def");
    }
}

#[test]
fn test_parse_def_with_params() {
    let result = parse_program("def add(a, b):\n  return a + b\n");
    assert!(result.is_ok());
    let stmts = result.unwrap();
    assert_eq!(stmts.len(), 1);
    if let Stmt::Def { name, params, body } = &stmts[0].0 {
        assert_eq!(name, "add");
        assert_eq!(params.len(), 2);
        assert_eq!(params[0], "a");
        assert_eq!(params[1], "b");
        assert_eq!(body.len(), 1);
    } else {
        panic!("Expected def");
    }
}

#[test]
fn test_parse_multiple_stmts() {
    let source = "\
x = 1
y = 2
z = x + y
";
    let result = parse_program(source);
    assert!(result.is_ok());
    let stmts = result.unwrap();
    assert_eq!(stmts.len(), 3);
    assert!(matches!(stmts[0].0, Stmt::Assign { .. }));
    assert!(matches!(stmts[1].0, Stmt::Assign { .. }));
    assert!(matches!(stmts[2].0, Stmt::Assign { .. }));
}

#[test]
fn test_parse_nested_blocks() {
    let source = "\
if x > 0:
  if y > 0:
    z = 1
  else:
    z = 2
";
    let result = parse_program(source);
    assert!(result.is_ok());
    let stmts = result.unwrap();
    assert_eq!(stmts.len(), 1);
    if let Stmt::If { then_block, .. } = &stmts[0].0 {
        assert_eq!(then_block.len(), 1);
        assert!(matches!(then_block[0].0, Stmt::If { .. }));
    } else {
        panic!("Expected if statement");
    }
}

#[test]
fn test_parse_error_unclosed_paren() {
    let result = parse_expr("(1 + 2");
    assert!(result.is_err());
}

#[test]
fn test_parse_error_invalid_syntax() {
    let result = parse_program("x = = 42\n");
    assert!(result.is_err());
}

#[test]
fn test_parse_tuple_without_parens() {
    let result = parse_program("a = 1, 2, 3\n");
    assert!(result.is_ok());
    let stmts = result.unwrap();
    assert_eq!(stmts.len(), 1);
    if let Stmt::Assign { target, value } = &stmts[0].0 {
        assert!(matches!(target.0, Expr::Variable(_)));
        if let Expr::Tuple(elements) = &value.0 {
            assert_eq!(elements.len(), 3);
        } else {
            panic!("Expected tuple in RHS");
        }
    } else {
        panic!("Expected assignment");
    }
}

#[test]
fn test_parse_single_element_tuple() {
    let result = parse_program("a = (1,)\n");
    assert!(result.is_ok());
    let stmts = result.unwrap();
    if let Stmt::Assign { value, .. } = &stmts[0].0 {
        if let Expr::Tuple(elements) = &value.0 {
            assert_eq!(elements.len(), 1);
        } else {
            panic!("Expected tuple");
        }
    }
}

#[test]
fn test_parse_unpack_assignment() {
    let result = parse_program("a, b, c = 1, 2, 3\n");
    assert!(result.is_ok());
    let stmts = result.unwrap();
    if let Stmt::Assign { target, value } = &stmts[0].0 {
        if let Expr::Tuple(targets) = &target.0 {
            assert_eq!(targets.len(), 3);
        } else {
            panic!("Expected tuple pattern in LHS");
        }
        if let Expr::Tuple(values) = &value.0 {
            assert_eq!(values.len(), 3);
        } else {
            panic!("Expected tuple in RHS");
        }
    }
}

#[test]
fn test_parse_unpack_from_list() {
    let result = parse_program("x, y, z = [1, 2, 3]\n");
    assert!(result.is_ok());
    let stmts = result.unwrap();
    if let Stmt::Assign { target, value } = &stmts[0].0 {
        if let Expr::Tuple(targets) = &target.0 {
            assert_eq!(targets.len(), 3);
        }
        if let Expr::List(_) = &value.0 {
        } else {
            panic!("Expected list in RHS");
        }
    }
}

#[test]
fn test_parse_nested_unpack() {
    let result = parse_program("a, (b, c) = 1, (2, 3)\n");
    assert!(result.is_ok());
    let stmts = result.unwrap();
    if let Stmt::Assign { target, .. } = &stmts[0].0 {
        if let Expr::Tuple(targets) = &target.0 {
            assert_eq!(targets.len(), 2);
            if let Expr::Tuple(nested) = &targets[1].0 {
                assert_eq!(nested.len(), 2);
            } else {
                panic!("Expected nested tuple");
            }
        }
    }
}

#[test]
fn test_parse_return_tuple() {
    let result = parse_program("def foo():\n  return 1, 2, 3\n");
    assert!(result.is_ok());
    let stmts = result.unwrap();
    if let Stmt::Def { body, .. } = &stmts[0].0 {
        if let Stmt::Return(expr) = &body[0].0 {
            if let Expr::Tuple(elements) = &expr.0 {
                assert_eq!(elements.len(), 3);
            } else {
                panic!("Expected tuple in return");
            }
        }
    }
}

#[test]
fn parse_source_reports_error_with_span() {
    let r = pyhyeon::parse_source("x = = 42\n");
    assert!(r.is_err());
    let errs = r.err().unwrap();
    assert!(!errs.is_empty());
}

#[test]
fn parse_source_accepts_empty_program() {
    let r = pyhyeon::parse_source("");
    assert!(matches!(r, Ok(ref v) if v.is_empty()));
}

#[test]
fn comparison_chain_joins_neighbours_with_and() {
    let e = parse_expr("1 < 2 <= 3").ok().unwrap();
    match e.0 {
        Expr::Binary { op: BinaryOp::And, left, right } => {
            assert!(matches!(left.0, Expr::Binary { op: BinaryOp::Less, .. }));
            match right.0 {
                Expr::Binary { op: BinaryOp::LessEqual, left: l2, right: r2 } => {
                    assert!(matches!(l2.0, Expr::Literal(Literal::Int(2))));
                    assert!(matches!(r2.0, Expr::Literal(Literal::Int(3))));
                },
                _ => panic!("expected <="),
            }
        },
        _ => panic!("expected and"),
    }
}

#[test]
fn minus_folds_into_an_integer_literal() {
    let e = parse_expr("-5").ok().unwrap();
    assert!(matches!(e.0, Expr::Literal(Literal::Int(-5))));
    assert_eq!(e.1, Span { start: 0, end: 2 });
    let n = parse_expr("-x").ok().unwrap();
    assert!(matches!(n.0, Expr::Unary { op: UnaryOp::Negate, .. }));
}

#[test]
fn parenthesized_group_takes_the_span_of_its_parentheses() {
    let e = parse_expr("(1 + 2) * 3").ok().unwrap();
    match e.0 {
        Expr::Binary { op: BinaryOp::Multiply, left, .. } => {
            assert_eq!(left.1, Span { start: 0, end: 7 });
            assert!(matches!(left.0, Expr::Binary { op: BinaryOp::Add, .. }));
        },
        _ => panic!("expected *"),
    }
}

#[test]
fn assignment_target_takes_the_span_of_the_statement() {
    let p = parse_program("x = 1\n").ok().unwrap();
    match &p[0].0 {
        Stmt::Assign { target, .. } => assert_eq!(target.1, p[0].1),
        _ => panic!("expected an assignment"),
    }
}
