use pyhyeon::repl::commands::{handle_command, split_words, HELP};
use pyhyeon::repl::session::ReplState;
use pyhyeon::vm::bytecode::Value;

#[test]
fn test_repl_state_creation() {
    let state = ReplState::new();
    assert!(state.symbols.is_empty());
    assert!(state.module.functions.is_empty());
}

#[test]
fn test_simple_expression() {
    let mut state = ReplState::new();
    let result = state.eval_line("x = 10\n");
    if let Err(e) = &result {
        println!("Error in first eval: {}", e);
    }
    assert!(result.is_ok());
    let result = state.eval_line("y = x + 5\n");
    if let Err(e) = &result {
        println!("Error in second eval: {}", e);
    }
    assert!(result.is_ok());
}

#[test]
fn test_function_definition_and_call() {
    let mut state = ReplState::new();
    let code = "def add(a, b):\n  return a + b\n";
    let result = state.eval_line(code);
    if let Err(e) = &result {
        println!("Error in function definition: {}", e);
    }
    assert!(result.is_ok());
    let result = state.eval_line("result = add(10, 20)\n");
    if let Err(e) = &result {
        println!("Error in function call: {}", e);
    }
    assert!(result.is_ok());
}

#[test]
fn test_error_recovery() {
    let mut state = ReplState::new();
    let result = state.eval_line("x = = 10\n");
    assert!(result.is_err());
    let result = state.eval_line("x = 10\n");
    assert!(result.is_ok());
}

#[test]
fn test_module_merge() {
    let mut state = ReplState::new();
    let _ = state.eval_line("a = 1\n");
    assert!(state.has_symbol("a"));
    let _ = state.eval_line("b = 2\n");
    assert!(state.has_symbol("a"));
    assert!(state.has_symbol("b"));
    let _ = state.eval_line("a = 100\n");
    assert!(state.has_symbol("a"));
}

#[test]
fn blank_input_is_ignored() {
    let mut state = ReplState::new();
    assert!(matches!(state.eval_line("   \n"), Ok(None)));
    assert!(state.symbols.is_empty());
}

#[test]
fn session_keeps_values_between_lines() {
    let mut state = ReplState::new();
    assert!(state.eval_line("x = 41\n").is_ok());
    assert!(state.eval_line("print(x + 1)\n").is_ok());
    assert!(state.vm.output.contains("42"));
}

#[test]
fn undefined_name_is_a_semantic_error() {
    let mut state = ReplState::new();
    let r = state.eval_line("print(nope)\n");
    assert!(r.is_err());
    assert!(r.err().unwrap().contains("Undefined"));
}

#[test]
fn runtime_error_is_reported() {
    let mut state = ReplState::new();
    let r = state.eval_line("x = 1 // 0\n");
    assert!(r.is_err());
    let msg = r.err().unwrap();
    assert!(msg.starts_with("Runtime Error: "));
    assert!(msg.contains("ZeroDivision"));
}

#[test]
fn function_result_is_returned_value_none_for_statements() {
    let mut state = ReplState::new();
    let r = state.eval_line("y = 3\n");
    assert!(matches!(r, Ok(None) | Ok(Some(Value::NoneVal))));
}

#[test]
fn commands_answer_with_lines() {
    let mut state = ReplState::new();
    assert_eq!(split_words("  :type  1 +   2 "), vec![":type", "1", "+", "2"]);
    let (quit, lines) = handle_command(":q", &mut state).unwrap();
    assert!(quit);
    assert_eq!(lines, vec!["Goodbye!"]);
    let (quit, lines) = handle_command("   ", &mut state).unwrap();
    assert!(!quit);
    assert!(lines.is_empty());
    let (_, lines) = handle_command(":help", &mut state).unwrap();
    assert_eq!(lines, vec![HELP]);
    let (_, lines) = handle_command(":s", &mut state).unwrap();
    assert_eq!(lines, vec!["No symbols defined."]);
    let (_, lines) = handle_command(":f", &mut state).unwrap();
    assert_eq!(lines, vec!["No functions defined."]);
    assert!(state.eval_line("x = 1").is_ok());
    let r = state.eval_line("def f(a, b):\n  return a + b\n");
    assert!(r.is_ok(), "{:?}", r);
    let (_, lines) = handle_command(":symbols", &mut state).unwrap();
    assert_eq!(lines, vec!["  __main__", "  x", "  f"]);
    let (_, lines) = handle_command(":functions", &mut state).unwrap();
    assert_eq!(lines, vec!["  f(arity: 2)"]);
    let (_, lines) = handle_command(":type x + 1", &mut state).unwrap();
    assert_eq!(lines, vec!["Expression returned no value"]);
    let (_, lines) = handle_command(":t", &mut state).unwrap();
    assert_eq!(lines, vec!["Usage: :type <expression>"]);
    let e = handle_command(":bogus 1", &mut state).unwrap_err();
    assert_eq!(e, "Unknown command: :bogus");
    let (_, lines) = handle_command(":clear", &mut state).unwrap();
    assert_eq!(lines, vec!["Session cleared."]);
    assert!(state.symbols.is_empty());
}

#[test]
fn a_line_that_fails_to_parse_or_analyze_leaves_the_session_unchanged() {
    let mut state = ReplState::new();
    assert!(state.eval_line("x = 1").is_ok());
    let symbols = state.symbols.clone();
    let nfun = state.module.functions.len();
    let nsym = state.module.symbols.len();
    assert!(state.eval_line("y = (").is_err());
    assert!(state.eval_line("z = undefined_name").is_err());
    assert_eq!(state.symbols, symbols);
    assert_eq!(state.module.functions.len(), nfun);
    assert_eq!(state.module.symbols.len(), nsym);
}
