//! The front end as a whole: source text to tokens, tokens to a syntax
//! tree, and diagnostics rendered for people.

use vstd::prelude::*;
use crate::ast::{ExprS, Span, StmtS};
use crate::lexer::{Lexer, Token};
use crate::parser::{ParseError, Parser};
use vstd::string::StringSliceAdditionalSpecFns;
use vstd::utf8::is_char_boundary;
use crate::builtins::registry_names;
use crate::semantic::initial_scopes;
use crate::semantic::resolve::module_block_res;
use crate::semantic::typecheck::tc_run;
use crate::grammar::{derives_expr, derives_tuple_or_expr, derives_line, derives_program, expr_view, stmts_view};
use crate::lexer::{is_layout, spans_text, block_balance, lemma_block_balance_push};

verus! {

/// An error found in a program, with the byte range it points at.
#[derive(Debug)]
pub struct Diagnostic {
    pub message: String,
    pub span: Span,
}

/// Renders an error report with `ariadne::Report` (byte-indexed spans, a
/// red label) and returns the written text. The spans must fall on
/// character boundaries, where ariadne slices the source. Nothing is
/// claimed of the text: ariadne colours it by a process-wide switch and by
/// what the terminal supports, so the same arguments may give different
/// text.
#[verifier::external_body]
fn render_report(path: &str, src: &str, kind: &str, code: usize, start: usize, end: usize, message: &str) -> (r: String)
    requires
        start <= end <= src.spec_bytes().len(),
        is_char_boundary(src.spec_bytes(), start as int),
        is_char_boundary(src.spec_bytes(), end as int),
{
    let mut buffer = Vec::new();
    ariadne::Report::build(ariadne::ReportKind::Error, (path, start..end))
        .with_config(ariadne::Config::new().with_index_type(ariadne::IndexType::Byte))
        .with_code(code)
        .with_message(kind)
        .with_label(ariadne::Label::new((path, start..end)).with_message(message).with_color(ariadne::Color::Red))
        .finish()
        .write((path, ariadne::Source::from(src)), &mut buffer)
        .ok();
    String::from_utf8_lossy(&buffer).to_string()
}

impl Diagnostic {
    /// Renders this diagnostic against the source it points into, whose
    /// character boundaries its span must fall on.
    pub fn format(&self, path: &str, src: &str, kind: &str, code: usize) -> (r: String)
        requires
            self.span.start <= self.span.end <= src.spec_bytes().len(),
            is_char_boundary(src.spec_bytes(), self.span.start as int),
            is_char_boundary(src.spec_bytes(), self.span.end as int),
    {
        render_report(path, src, kind, code, self.span.start, self.span.end, self.message.as_str())
    }
}

/// Whether a token sequence could come from lexing `src`: no end token,
/// and every token that stands for text covers text that it stands for.
pub open spec fn lexed_from(src: Seq<char>, toks: Seq<(Token, Span)>) -> bool {
    forall|k: int| 0 <= k < toks.len() ==> !((#[trigger] toks[k]).0 is Eof)
        && (!is_layout(toks[k].0) ==> spans_text(src, toks[k].0, toks[k].1))
}

/// Whether some token sequence lexed from `src` is a program with the
/// statements `svs`.
pub open spec fn parses_from(src: Seq<char>, svs: Seq<crate::grammar::StmtView>) -> bool {
    exists|toks: Seq<(Token, Span)>| lexed_from(src, toks) && #[trigger] derives_program(toks, svs)
}

/// All tokens of a source text, up to but not including `Eof`. Error tokens
/// are included.
pub fn tokenize(src: &str) -> (r: Vec<(Token, Span)>)
    requires
        src@.len() <= usize::MAX / 4,
    ensures
        lexed_from(src@, r@),
        block_balance(r@) == 0,
{
    let mut lexer = Lexer::new(src);
    let mut tokens: Vec<(Token, Span)> = Vec::new();
    loop
        invariant
            lexer.wf(),
            lexer.source() == src@,
            lexed_from(src@, tokens@),
            block_balance(tokens@) == lexer.indents_emitted() - lexer.dedents_emitted(),
        ensures
            lexed_from(src@, tokens@),
            block_balance(tokens@) == 0,
        decreases lexer.measure_chars(), lexer.measure_line(), lexer.measure_queue(),
    {
        let (t, span) = lexer.next_token_with_span();
        if matches!(t, Token::Eof) {
            break;
        }
        proof { lemma_block_balance_push(tokens@, (t, span)); }
        tokens.push((t, span));
    }
    tokens
}

/// The span reported for errors at the end of the input.
fn end_span(src: &str) -> (s: Span)
    ensures
        s.start == src.spec_bytes().len() as usize,
        s.end == src.spec_bytes().len() as usize,
{
    let n = src.len();
    Span { start: n, end: n }
}

fn to_diagnostics(errs: Vec<ParseError>) -> (r: Vec<Diagnostic>)
    ensures
        r.len() == errs.len(),
{
    let mut out: Vec<Diagnostic> = Vec::new();
    let mut errs = errs;
    let n = errs.len();
    let mut i: usize = 0;
    let mut rev: Vec<Diagnostic> = Vec::new();
    while errs.len() > 0
        invariant
            rev.len() + errs.len() == n,
        decreases errs.len(),
    {
        let e = errs.pop().unwrap();
        rev.push(Diagnostic { message: e.message, span: e.span });
    }
    while rev.len() > 0
        invariant
            out.len() + rev.len() == n,
        decreases rev.len(),
    {
        out.push(rev.pop().unwrap());
    }
    out
}

/// Lexes and parses a program. Lexer errors are reported first, alone; then
/// every parse error.
pub fn parse_source(src: &str) -> (r: Result<Vec<StmtS>, Vec<Diagnostic>>)
    requires
        src@.len() <= usize::MAX / 4,
    ensures
        r matches Err(d) ==> d.len() > 0,
        r matches Ok(v) ==> parses_from(src@, stmts_view(v@)),
{
    let mut lexer = Lexer::new(src);
    let mut tokens: Vec<(Token, Span)> = Vec::new();
    let mut lexer_errors: Vec<Diagnostic> = Vec::new();
    loop
        invariant
            lexer.wf(),
            lexer.source() == src@,
            lexed_from(src@, tokens@),
        decreases lexer.measure_chars(), lexer.measure_line(), lexer.measure_queue(),
    {
        let (t, span) = lexer.next_token_with_span();
        match t {
            Token::Error(msg, error_span) => {
                lexer_errors.push(Diagnostic { message: msg, span: error_span });
            },
            Token::Eof => break,
            t => tokens.push((t, span)),
        }
    }
    if lexer_errors.len() > 0 {
        return Err(lexer_errors);
    }
    let parser = Parser { toks: tokens, eoi: end_span(src) };
    match parser.parse_program() {
        Ok(program) => {
            let ghost toks = parser.toks@;
            assert(lexed_from(src@, toks) && derives_program(toks, stmts_view(program@)));
            assert(parses_from(src@, stmts_view(program@)));
            Ok(program)
        },
        Err(errors) => Err(to_diagnostics(errors)),
    }
}

/// Parses one expression that must take up the whole token sequence.
pub fn expr_parser(tokens: Vec<(Token, Span)>, eoi: Span) -> (r: Result<ExprS, Vec<Diagnostic>>)
    ensures
        r matches Err(d) ==> d.len() > 0,
        r matches Ok(e) ==> derives_expr(tokens@, 0, tokens@.len() as int, expr_view(e)),
{
    let parser = Parser { toks: tokens, eoi };
    match parser.parse_expr(0) {
        Ok((e, p)) => {
            if p == parser.toks.len() {
                Ok(e)
            } else {
                let mut v: Vec<Diagnostic> = Vec::new();
                let sp = parser.toks[p].1;
                v.push(Diagnostic { message: "found trailing tokens expected end of input".to_owned(), span: sp });
                Err(v)
            }
        },
        Err(e) => {
            let mut v: Vec<Diagnostic> = Vec::new();
            v.push(Diagnostic { message: e.message, span: e.span });
            Err(v)
        },
    }
}

/// Parses one expression, where a comma-separated list without
/// parentheses is a tuple, that must take up the whole token sequence.
pub fn tuple_or_expr_parser(tokens: Vec<(Token, Span)>, eoi: Span) -> (r: Result<ExprS, Vec<Diagnostic>>)
    ensures
        r matches Err(d) ==> d.len() > 0,
        r matches Ok(e) ==> derives_tuple_or_expr(tokens@, 0, tokens@.len() as int, expr_view(e)),
{
    let parser = Parser { toks: tokens, eoi };
    match parser.parse_tuple_or_expr(0) {
        Ok((e, p)) => {
            if p == parser.toks.len() {
                Ok(e)
            } else {
                let mut v: Vec<Diagnostic> = Vec::new();
                let sp = parser.toks[p].1;
                v.push(Diagnostic { message: "found trailing tokens expected end of input".to_owned(), span: sp });
                Err(v)
            }
        },
        Err(e) => {
            let mut v: Vec<Diagnostic> = Vec::new();
            v.push(Diagnostic { message: e.message, span: e.span });
            Err(v)
        },
    }
}

/// Parses one logical line (a compound statement with its block, or
/// simple statements separated by semicolons) that must take up the whole
/// token sequence.
pub fn stmt_parser(tokens: Vec<(Token, Span)>, eoi: Span) -> (r: Result<Vec<StmtS>, Vec<Diagnostic>>)
    ensures
        r matches Err(d) ==> d.len() > 0,
        r matches Ok(v) ==> derives_line(tokens@, 0, tokens@.len() as int, stmts_view(v@)),
{
    let parser = Parser { toks: tokens, eoi };
    match parser.parse_line(0) {
        Ok((v, p)) => {
            if p == parser.toks.len() {
                Ok(v)
            } else {
                let mut d: Vec<Diagnostic> = Vec::new();
                let sp = parser.toks[p].1;
                d.push(Diagnostic { message: "found trailing tokens expected end of input".to_owned(), span: sp });
                Err(d)
            }
        },
        Err(e) => {
            let mut d: Vec<Diagnostic> = Vec::new();
            d.push(Diagnostic { message: e.message, span: e.span });
            Err(d)
        },
    }
}

/// Parses a whole program from a token sequence.
pub fn program_parser(tokens: Vec<(Token, Span)>, eoi: Span) -> (r: Result<Vec<StmtS>, Vec<Diagnostic>>)
    ensures
        r matches Err(d) ==> d.len() > 0,
        r matches Ok(v) ==> derives_program(tokens@, stmts_view(v@)),
{
    let parser = Parser { toks: tokens, eoi };
    match parser.parse_program() {
        Ok(program) => Ok(program),
        Err(errors) => Err(to_diagnostics(errors)),
    }
}

/// Semantic analysis of a parsed program, its error as a diagnostic.
pub fn analyze(program: &Vec<StmtS>) -> (r: Result<(), Diagnostic>)
    ensures
        program@.len() == 0 ==> r is Ok,
        match module_block_res(program@, initial_scopes(Seq::empty()), registry_names(), Seq::empty()) {
            None => r is Err,
            Some((_, fns)) => match tc_run(program@, program@.len() as int, fns) {
                Some(Some(_)) => r is Ok,
                Some(None) => r is Err,
                None => true,
            },
        },
{
    match crate::semantic::analyze(program) {
        Ok(()) => Ok(()),
        Err(e) => Err(Diagnostic { message: e.message, span: e.span }),
    }
}

/// Semantic analysis with globals already bound (as in an interactive
/// session), its error as a diagnostic.
pub fn analyze_with_globals(program: &Vec<StmtS>, existing_globals: &Vec<String>) -> (r: Result<(), Diagnostic>)
    ensures
        program@.len() == 0 ==> r is Ok,
        match module_block_res(program@, initial_scopes(existing_globals@), registry_names(), Seq::empty()) {
            None => r is Err,
            Some((_, fns)) => match tc_run(program@, program@.len() as int, fns) {
                Some(Some(_)) => r is Ok,
                Some(None) => r is Err,
                None => true,
            },
        },
{
    match crate::semantic::analyze_with_globals(program, existing_globals) {
        Ok(()) => Ok(()),
        Err(e) => Err(Diagnostic { message: e.message, span: e.span }),
    }
}

} // verus!
