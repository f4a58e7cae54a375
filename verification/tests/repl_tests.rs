use pyhyeon::repl::{calculate_indent, is_in_block, needs_more_lines};

#[test]
fn test_multiline_detection() {
    assert!(needs_more_lines("def foo():"));
    assert!(needs_more_lines("if x > 0:"));
    assert!(needs_more_lines("while True:"));
    assert!(!needs_more_lines("x = 10"));
    assert!(!needs_more_lines("print('hello')"));
}

#[test]
fn needs_more_lines_ignores_trailing_space() {
    assert!(needs_more_lines("for i in range(3):   "));
    assert!(!needs_more_lines(""));
}

#[test]
fn block_detection_uses_last_nonblank_line() {
    assert!(!is_in_block(""));
    assert!(is_in_block("def f():\n  return 1\n"));
    assert!(is_in_block("if x:\n\tpass\n\n  \n"));
    assert!(!is_in_block("x = 1\n"));
    assert!(!is_in_block("def f():\n  y = 1\nz = 2\n"));
}

#[test]
fn indent_after_colon_adds_two_spaces() {
    assert_eq!(calculate_indent(""), "");
    assert_eq!(calculate_indent("def f():"), "  ");
    assert_eq!(calculate_indent("def f():\n  if x:"), "    ");
    assert_eq!(calculate_indent("def f():\n  y = 1"), "  ");
    assert_eq!(calculate_indent("x = 1"), "");
    assert_eq!(calculate_indent("  y = 1\n"), "  ");
}
