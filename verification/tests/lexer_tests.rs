use pyhyeon::lexer::{Lexer, Token};

fn ident(s: &str) -> Token {
    Token::Identifier(s.to_string())
}

#[test]
fn test_factorial() {
    let source = "\
def factorial(n):
  if n == 0:
    return 1
  else:
    return n * factorial(n - 1)
";
    let mut lexer = Lexer::new(source);
    let expected_tokens = vec![
        Token::Def,
        ident("factorial"),
        Token::LParen,
        ident("n"),
        Token::RParen,
        Token::Colon,
        Token::Newline,
        Token::Indent,
        Token::If,
        ident("n"),
        Token::EqualEqual,
        Token::Int(0),
        Token::Colon,
        Token::Newline,
        Token::Indent,
        Token::Return,
        Token::Int(1),
        Token::Newline,
        Token::Dedent,
        Token::Else,
        Token::Colon,
        Token::Newline,
        Token::Indent,
        Token::Return,
        ident("n"),
        Token::Star,
        ident("factorial"),
        Token::LParen,
        ident("n"),
        Token::Minus,
        Token::Int(1),
        Token::RParen,
        Token::Newline,
        Token::Dedent,
        Token::Dedent,
        Token::Eof,
    ];
    for expected in expected_tokens {
        let token = lexer.next_token();
        assert_eq!(token, expected);
    }
}

#[test]
fn two_functions() {
    let source = "\
def add(a, b):
  return a + b
def sub(a, b):
  return a - b
";
    let mut lexer = Lexer::new(source);
    let expected_tokens = vec![
        Token::Def,
        ident("add"),
        Token::LParen,
        ident("a"),
        Token::Comma,
        ident("b"),
        Token::RParen,
        Token::Colon,
        Token::Newline,
        Token::Indent,
        Token::Return,
        ident("a"),
        Token::Plus,
        ident("b"),
        Token::Newline,
        Token::Dedent,
        Token::Def,
        ident("sub"),
        Token::LParen,
        ident("a"),
        Token::Comma,
        ident("b"),
        Token::RParen,
        Token::Colon,
        Token::Newline,
        Token::Indent,
        Token::Return,
        ident("a"),
        Token::Minus,
        ident("b"),
        Token::Newline,
        Token::Dedent,
        Token::Eof,
    ];
    for expected in expected_tokens {
        let token = lexer.next_token();
        assert_eq!(token, expected);
    }
}

#[test]
fn keywords_literals_and_operators() {
    let mut lexer = Lexer::new("while x >= 10 and not None: y //= 'a\\n'");
    let expected = vec![
        Token::While,
        ident("x"),
        Token::GreaterEqual,
        Token::Int(10),
        Token::And,
        Token::Not,
        Token::NoneKw,
        Token::Colon,
        ident("y"),
        Token::SlashSlash,
        Token::Equal,
        Token::String("a\n".to_string()),
        Token::Eof,
    ];
    for e in expected {
        assert_eq!(lexer.next_token(), e);
    }
}

#[test]
fn float_literal_keeps_its_text() {
    let mut lexer = Lexer::new("x = 3.25");
    assert_eq!(lexer.next_token(), ident("x"));
    assert_eq!(lexer.next_token(), Token::Equal);
    assert_eq!(lexer.next_token(), Token::Float("3.25".to_string()));
    assert_eq!(lexer.next_token(), Token::Eof);
}

#[test]
fn unicode_identifier_is_accepted() {
    let mut lexer = Lexer::new("변수 = 1");
    assert_eq!(lexer.next_token(), ident("변수"));
    assert_eq!(lexer.next_token(), Token::Equal);
    assert_eq!(lexer.next_token(), Token::Int(1));
}

#[test]
fn spans_are_byte_offsets() {
    let mut lexer = Lexer::new("ab + 1");
    let (t, s) = lexer.next_token_with_span();
    assert_eq!(t, ident("ab"));
    assert_eq!((s.start, s.end), (0, 2));
    let (t, s) = lexer.next_token_with_span();
    assert_eq!(t, Token::Plus);
    assert_eq!((s.start, s.end), (3, 4));
}

#[test]
fn a_lexer_that_gave_eof_keeps_giving_eof() {
    let mut lexer = Lexer::new("if x:\n  y = 1\n");
    let mut n = 0;
    while !matches!(lexer.next_token(), Token::Eof) {
        n += 1;
        assert!(n < 100);
    }
    for _ in 0..3 {
        assert!(matches!(lexer.next_token(), Token::Eof));
        let (t, s) = lexer.next_token_with_span();
        assert!(matches!(t, Token::Eof));
        assert_eq!((s.start, s.end), (14, 14));
    }
}
