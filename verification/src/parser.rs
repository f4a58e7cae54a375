//! The parser: a recursive-descent parser over the lexer's tokens that
//! builds the syntax tree. Every parsing function takes the index of the
//! token it starts at and returns the node together with the index of the
//! first token after it.

use vstd::prelude::*;
use crate::ast::{BinaryOp, Expr, ExprS, Literal, MethodDef, Span, Stmt, StmtS, UnaryOp};
use crate::lexer::Token;
use crate::builtins::str_eq;
use crate::grammar::{
    expr_view, exprs_view, pairs_view, lemma_exprs_view_push, lemma_pairs_view_push, lemma_exprs_view_append,
    lemma_view_span, ExprView, derives_expr, lambda_at, derives_or, or_at, derives_and, and_at,
    derives_comparison, chain_from, chain_at, last_term, derives_sum, sum_at, derives_product,
    product_at, derives_unary, derives_atom, postfix_at, derives_primary, tuple_at, closed_list,
    expr_list, separated, separated_at, closed_pairs, pairs_separated, pair_at, pairs_at,
    derives_tuple_or_expr, names_core, names_list, tag_at, span_of, comparison_of, additive_of,
    multiplicative_of, prefix_of, literal_of, lemma_lambda_from, lemma_or_from, lemma_and_from,
    lemma_chain_from, lemma_sum_from, lemma_product_from, lemma_postfix_from, lemma_tuple_from,
    lemma_separated_from, lemma_pair_from, lemma_pairs_from, StmtView, stmt_view, stmts_view,
    elifs_view, methods_view, method_view, attrs_view, lemma_stmts_view_push, lemma_stmts_view_append,
    lemma_elifs_view_push, lemma_methods_view_push, derives_simple_stmt, derives_semis, semis_at,
    derives_semis_opt, derives_simple_line, starts_compound, derives_lines, lines_at, derives_line,
    line_at, derives_compound, derives_if, else_at, derives_if_elifs, elifs_at, derives_methods,
    methods_at, derives_method, method_at, derives_cond_block, cond_at, derives_block, derives_program,
    lemma_semis_from, lemma_line_from, lemma_method_from, lemma_methods_from, lemma_cond_from,
    lemma_elifs_from, lemma_else_from, lemma_lines_intro, respan, view_span,
};

verus! {

/// A parse error: what went wrong, where, and at which token.
pub struct ParseError {
    pub message: String,
    pub span: Span,
    pub at: usize,
}

pub type PResult<T> = Result<(T, usize), ParseError>;

/// The kinds of tokens the grammar distinguishes.
#[derive(Clone, Copy, PartialEq, Eq, Structural)]
pub enum Tag {
    If, Elif, Else, While, For, In, Def, Return, And, Or, Not, Class, Break, Continue, Pass,
    Lambda, NoneKw, Bool, Int, Str, Ident, Float, Plus, Minus, Star, SlashSlash, Slash, Percent,
    EqualEqual, NotEqual, Less, LessEqual, Greater, GreaterEqual, Equal, LParen, RParen,
    LBracket, RBracket, LBrace, RBrace, Colon, Comma, Semicolon, Dot, Indent, Dedent, Newline,
    Eof, Error,
}

/// The kind of a token.
pub open spec fn tag_spec(t: Token) -> Tag {
    match t {
        Token::If => Tag::If,
        Token::Elif => Tag::Elif,
        Token::Else => Tag::Else,
        Token::While => Tag::While,
        Token::For => Tag::For,
        Token::In => Tag::In,
        Token::Def => Tag::Def,
        Token::Return => Tag::Return,
        Token::And => Tag::And,
        Token::Or => Tag::Or,
        Token::Not => Tag::Not,
        Token::Class => Tag::Class,
        Token::Break => Tag::Break,
        Token::Continue => Tag::Continue,
        Token::Pass => Tag::Pass,
        Token::Lambda => Tag::Lambda,
        Token::NoneKw => Tag::NoneKw,
        Token::Bool(_) => Tag::Bool,
        Token::Int(_) => Tag::Int,
        Token::String(_) => Tag::Str,
        Token::Identifier(_) => Tag::Ident,
        Token::Float(_) => Tag::Float,
        Token::Plus => Tag::Plus,
        Token::Minus => Tag::Minus,
        Token::Star => Tag::Star,
        Token::SlashSlash => Tag::SlashSlash,
        Token::Slash => Tag::Slash,
        Token::Percent => Tag::Percent,
        Token::EqualEqual => Tag::EqualEqual,
        Token::NotEqual => Tag::NotEqual,
        Token::Less => Tag::Less,
        Token::LessEqual => Tag::LessEqual,
        Token::Greater => Tag::Greater,
        Token::GreaterEqual => Tag::GreaterEqual,
        Token::Equal => Tag::Equal,
        Token::LParen => Tag::LParen,
        Token::RParen => Tag::RParen,
        Token::LBracket => Tag::LBracket,
        Token::RBracket => Tag::RBracket,
        Token::LBrace => Tag::LBrace,
        Token::RBrace => Tag::RBrace,
        Token::Colon => Tag::Colon,
        Token::Comma => Tag::Comma,
        Token::Semicolon => Tag::Semicolon,
        Token::Dot => Tag::Dot,
        Token::Indent => Tag::Indent,
        Token::Dedent => Tag::Dedent,
        Token::Newline => Tag::Newline,
        Token::Eof => Tag::Eof,
        Token::Error(_, _) => Tag::Error,
    }
}

fn tag_of(t: &Token) -> (r: Tag)
    ensures
        r == tag_spec(*t),
{
    match t {
        Token::If => Tag::If,
        Token::Elif => Tag::Elif,
        Token::Else => Tag::Else,
        Token::While => Tag::While,
        Token::For => Tag::For,
        Token::In => Tag::In,
        Token::Def => Tag::Def,
        Token::Return => Tag::Return,
        Token::And => Tag::And,
        Token::Or => Tag::Or,
        Token::Not => Tag::Not,
        Token::Class => Tag::Class,
        Token::Break => Tag::Break,
        Token::Continue => Tag::Continue,
        Token::Pass => Tag::Pass,
        Token::Lambda => Tag::Lambda,
        Token::NoneKw => Tag::NoneKw,
        Token::Bool(_) => Tag::Bool,
        Token::Int(_) => Tag::Int,
        Token::String(_) => Tag::Str,
        Token::Identifier(_) => Tag::Ident,
        Token::Float(_) => Tag::Float,
        Token::Plus => Tag::Plus,
        Token::Minus => Tag::Minus,
        Token::Star => Tag::Star,
        Token::SlashSlash => Tag::SlashSlash,
        Token::Slash => Tag::Slash,
        Token::Percent => Tag::Percent,
        Token::EqualEqual => Tag::EqualEqual,
        Token::NotEqual => Tag::NotEqual,
        Token::Less => Tag::Less,
        Token::LessEqual => Tag::LessEqual,
        Token::Greater => Tag::Greater,
        Token::GreaterEqual => Tag::GreaterEqual,
        Token::Equal => Tag::Equal,
        Token::LParen => Tag::LParen,
        Token::RParen => Tag::RParen,
        Token::LBracket => Tag::LBracket,
        Token::RBracket => Tag::RBracket,
        Token::LBrace => Tag::LBrace,
        Token::RBrace => Tag::RBrace,
        Token::Colon => Tag::Colon,
        Token::Comma => Tag::Comma,
        Token::Semicolon => Tag::Semicolon,
        Token::Dot => Tag::Dot,
        Token::Indent => Tag::Indent,
        Token::Dedent => Tag::Dedent,
        Token::Newline => Tag::Newline,
        Token::Eof => Tag::Eof,
        Token::Error(_, _) => Tag::Error,
    }
}

/// A copy of a list of names.
pub fn clone_strings(v: &Vec<String>) -> (r: Vec<String>)
    ensures
        r@ == v@,
{
    let mut r: Vec<String> = Vec::new();
    let mut i: usize = 0;
    while i < v.len()
        invariant
            i <= v.len(),
            r@ == v@.subrange(0, i as int),
        decreases v.len() - i,
    {
        r.push(v[i].clone());
        i = i + 1;
        assert(r@ =~= v@.subrange(0, i as int));
    }
    assert(r@ =~= v@);
    r
}

/// A copy of an expression tree. The copy keeps the span of the expression it copies.
pub fn clone_expr(e: &ExprS) -> (r: ExprS)
    ensures
        r.1 == e.1,
        expr_view(r) == expr_view(*e),
    decreases e,
{
    let span = e.1;
    let node = match &e.0 {
        Expr::Literal(l) => Expr::Literal(clone_literal(l)),
        Expr::Variable(n) => Expr::Variable(n.clone()),
        Expr::Unary { op, expr } => Expr::Unary { op: *op, expr: Box::new(clone_expr(expr)) },
        Expr::Binary { op, left, right } => Expr::Binary {
            op: *op,
            left: Box::new(clone_expr(left)),
            right: Box::new(clone_expr(right)),
        },
        Expr::Call { func_name, args } => Expr::Call {
            func_name: Box::new(clone_expr(func_name)),
            args: clone_exprs(args),
        },
        Expr::Attribute { object, attr } => Expr::Attribute {
            object: Box::new(clone_expr(object)),
            attr: attr.clone(),
        },
        Expr::List(items) => Expr::List(clone_exprs(items)),
        Expr::Dict(pairs) => Expr::Dict(clone_pairs(pairs)),
        Expr::Index { object, index } => Expr::Index {
            object: Box::new(clone_expr(object)),
            index: Box::new(clone_expr(index)),
        },
        Expr::Lambda { params, body } => Expr::Lambda {
            params: clone_strings(params),
            body: Box::new(clone_expr(body)),
        },
        Expr::Tuple(items) => Expr::Tuple(clone_exprs(items)),
        Expr::SetLit(items) => Expr::SetLit(clone_exprs(items)),
        Expr::TreeSet(items) => Expr::TreeSet(clone_exprs(items)),
    };
    (node, span)
}

fn clone_literal(l: &Literal) -> (r: Literal)
    ensures
        r == *l,
{
    match l {
        Literal::Bool(b) => Literal::Bool(*b),
        Literal::Int(i) => Literal::Int(*i),
        Literal::String(s) => Literal::String(s.clone()),
        Literal::Float(s) => Literal::Float(s.clone()),
        Literal::NoneLit => Literal::NoneLit,
    }
}

fn clone_exprs(v: &Vec<ExprS>) -> (r: Vec<ExprS>)
    ensures
        r.len() == v.len(),
        exprs_view(r@) == exprs_view(v@),
    decreases v,
{
    let mut r: Vec<ExprS> = Vec::new();
    let mut i: usize = 0;
    while i < v.len()
        invariant
            i <= v.len(),
            r.len() == i,
            exprs_view(r@) == exprs_view(v@.subrange(0, i as int)),
        decreases v.len() - i,
    {
        let c = clone_expr(&v[i]);
        proof {
            lemma_exprs_view_push(r@, c);
            lemma_exprs_view_push(v@.subrange(0, i as int), v@[i as int]);
            assert(v@.subrange(0, i as int).push(v@[i as int]) =~= v@.subrange(0, i + 1));
        }
        r.push(c);
        i = i + 1;
    }
    assert(v@.subrange(0, v.len() as int) =~= v@);
    r
}

fn clone_pairs(v: &Vec<(ExprS, ExprS)>) -> (r: Vec<(ExprS, ExprS)>)
    ensures
        r.len() == v.len(),
        pairs_view(r@) == pairs_view(v@),
    decreases v,
{
    let mut r: Vec<(ExprS, ExprS)> = Vec::new();
    let mut i: usize = 0;
    while i < v.len()
        invariant
            i <= v.len(),
            r.len() == i,
            pairs_view(r@) == pairs_view(v@.subrange(0, i as int)),
        decreases v.len() - i,
    {
        let a = clone_expr(&v[i].0);
        let b = clone_expr(&v[i].1);
        proof {
            lemma_pairs_view_push(r@, (a, b));
            lemma_pairs_view_push(v@.subrange(0, i as int), v@[i as int]);
            assert(v@.subrange(0, i as int).push(v@[i as int]) =~= v@.subrange(0, i + 1));
        }
        r.push((a, b));
        i = i + 1;
    }
    assert(v@.subrange(0, v.len() as int) =~= v@);
    r
}

fn literal_string(s: &str) -> (r: String)
    ensures
        r@ == s@,
{
    s.to_owned()
}

/// A parser over a token sequence (without the final `Eof`).
pub struct Parser {
    pub toks: Vec<(Token, Span)>,
    /// The span reported for errors at the end of the input.
    pub eoi: Span,
}

impl Parser {
    /// The node's span runs from the start of token `a` to the end of token `b - 1`.
    pub open spec fn covers(&self, sp: Span, a: int, b: int) -> bool {
        &&& 0 <= a < b <= self.toks@.len()
        &&& sp.start == self.toks@[a].1.start
        &&& sp.end == self.toks@[b - 1].1.end
    }

    /// The kind of token `pos`.
    pub open spec fn tag_at(&self, pos: int) -> Tag {
        tag_spec(self.toks@[pos].0)
    }

    fn at(&self, pos: usize, t: Tag) -> (r: bool)
        ensures
            r <==> (pos < self.toks@.len() && self.tag_at(pos as int) == t),
            r ==> pos < self.toks.len(),
    {
        pos < self.toks.len() && tag_of(&self.toks[pos].0) == t
    }

    fn span(&self, a: usize, b: usize) -> (s: Span)
        requires
            a < b <= self.toks@.len(),
        ensures
            self.covers(s, a as int, b as int),
    {
        Span { start: self.toks[a].1.start, end: self.toks[b - 1].1.end }
    }

    fn error(&self, pos: usize, expected: &str) -> (e: ParseError)
        ensures
            e.at == pos,
    {
        let mut m = literal_string("found ");
        if pos < self.toks.len() {
            push_quote(&mut m);
            let t = self.toks[pos].0.text();
            m.append(t.as_str());
            push_quote(&mut m);
        } else {
            m.append("end of input");
        }
        m.append(" expected ");
        m.append(expected);
        let span = if pos < self.toks.len() { self.toks[pos].1 } else { self.eoi };
        ParseError { message: m, span, at: pos }
    }

    fn ident_at(&self, pos: usize) -> (r: Option<String>)
        ensures
            r is Some <==> (pos < self.toks@.len() && self.tag_at(pos as int) == Tag::Ident),
            r matches Some(n) ==> self.toks@[pos as int].0 == Token::Identifier(n),
            r is Some ==> pos < self.toks.len(),
    {
        if pos < self.toks.len() {
            match &self.toks[pos].0 {
                Token::Identifier(n) => Some(n.clone()),
                _ => None,
            }
        } else {
            None
        }
    }

    /// `expr := 'lambda' params ':' expr | or_expr`
    pub fn parse_expr(&self, pos: usize) -> (r: PResult<ExprS>)
        requires
            pos <= self.toks@.len(),
        ensures
            r matches Ok((e, p)) ==> self.covers(e.1, pos as int, p as int),
            r matches Ok((e, p)) ==> derives_expr(self.toks@, pos as int, p as int, expr_view(e)),
            lone_operand(self.toks@, pos as int) ==> (r matches Ok((_, p)) && p == pos + 1),
        decreases self.toks@.len() - pos, 20nat,
    {
        if self.at(pos, Tag::Lambda) {
            let (params, p) = self.parse_names(pos + 1);
            if !self.at(p, Tag::Colon) {
                return Err(self.error(p, "':'"));
            }
            let (body, q) = self.parse_expr(p + 1)?;
            let sp = self.span(pos, q);
            let e = (Expr::Lambda { params, body: Box::new(body) }, sp);
            proof {
                assert(lambda_at(self.toks@, pos as int, p as int, q as int, expr_view(e)));
                lemma_lambda_from(self.toks@, pos as int, pos + 1, p as int, q as int, expr_view(e));
            }
            Ok((e, q))
        } else {
            self.parse_or(pos)
        }
    }

    /// `(ident (',' ident)* ','?)?`: the names from `pos` on and the index
    /// after them.
    fn parse_names(&self, pos: usize) -> (r: (Vec<String>, usize))
        requires
            pos <= self.toks@.len(),
        ensures
            pos <= r.1 <= self.toks@.len(),
            names_list(self.toks@, pos as int, r.1 as int, r.0@),
            r.1 == names_end(self.toks@, pos as int),
    {
        let ghost toks = self.toks@;
        let mut params: Vec<String> = Vec::new();
        let mut p = pos;
        loop
            invariant_except_break
                toks == self.toks@,
                pos <= p <= self.toks@.len(),
                (params@.len() == 0 && p == pos) || (params@.len() > 0 && pos + 2 <= p
                    && tag_at(toks, p - 1) == Tag::Comma && names_core(toks, pos as int, p - 1, params@)),
                names_end(toks, p as int) == names_end(toks, pos as int),
            ensures
                pos <= p <= self.toks@.len(),
                names_list(toks, pos as int, p as int, params@),
                p == names_end(toks, pos as int),
            decreases self.toks@.len() - p,
        {
            match self.ident_at(p) {
                Some(n) => {
                    proof {
                        let ns = params@.push(n);
                        assert(ns.drop_last() =~= params@);
                        assert(names_core(toks, pos as int, p + 1, ns));
                    }
                    params.push(n);
                    p = p + 1;
                    if self.at(p, Tag::Comma) {
                        p = p + 1;
                    } else {
                        break;
                    }
                },
                None => break,
            }
        }
        (params, p)
    }

    fn binary(&self, op: BinaryOp, left: ExprS, right: ExprS) -> (e: ExprS)
        ensures
            e.1 == (Span { start: left.1.start, end: right.1.end }),
            expr_view(e) == ExprView::Binary(op, Box::new(expr_view(left)), Box::new(expr_view(right)), e.1),
            e.1 == crate::grammar::joined(expr_view(left), expr_view(right)),
    {
        proof {
            lemma_view_span(left, left.1);
            lemma_view_span(right, right.1);
        }
        let sp = Span { start: left.1.start, end: right.1.end };
        (Expr::Binary { op, left: Box::new(left), right: Box::new(right) }, sp)
    }

    /// `or_expr := and_expr ('or' and_expr)*`
    fn parse_or(&self, pos: usize) -> (r: PResult<ExprS>)
        requires
            pos <= self.toks@.len(),
        ensures
            r matches Ok((e, p)) ==> self.covers(e.1, pos as int, p as int),
            r matches Ok((e, p)) ==> derives_or(self.toks@, pos as int, p as int, expr_view(e)),
            lone_operand(self.toks@, pos as int) ==> (r matches Ok((_, p)) && p == pos + 1),
        decreases self.toks@.len() - pos, 19nat,
    {
        let (mut left, mut p) = self.parse_and(pos)?;
        assert(derives_or(self.toks@, pos as int, p as int, expr_view(left)));
        loop
            invariant
                pos < p <= self.toks@.len(),
                self.covers(left.1, pos as int, p as int),
                derives_or(self.toks@, pos as int, p as int, expr_view(left)),
                lone_operand(self.toks@, pos as int) ==> p == pos + 1,
            decreases self.toks@.len() - p,
        {
            if !self.at(p, Tag::Or) {
                break;
            }
            match self.parse_and(p + 1) {
                Ok((right, q)) => {
                    left = self.binary(BinaryOp::Or, left, right);
                    proof { lemma_or_from(self.toks@, pos as int, pos + 1, p as int, q as int, expr_view(left)); }
                    p = q;
                },
                Err(_) => break,
            }
        }
        Ok((left, p))
    }

    /// `and_expr := comparison ('and' comparison)*`
    fn parse_and(&self, pos: usize) -> (r: PResult<ExprS>)
        requires
            pos <= self.toks@.len(),
        ensures
            r matches Ok((e, p)) ==> self.covers(e.1, pos as int, p as int),
            r matches Ok((e, p)) ==> derives_and(self.toks@, pos as int, p as int, expr_view(e)),
            lone_operand(self.toks@, pos as int) ==> (r matches Ok((_, p)) && p == pos + 1),
        decreases self.toks@.len() - pos, 18nat,
    {
        let (mut left, mut p) = self.parse_comparison(pos)?;
        assert(derives_and(self.toks@, pos as int, p as int, expr_view(left)));
        loop
            invariant
                pos < p <= self.toks@.len(),
                self.covers(left.1, pos as int, p as int),
                derives_and(self.toks@, pos as int, p as int, expr_view(left)),
                lone_operand(self.toks@, pos as int) ==> p == pos + 1,
            decreases self.toks@.len() - p,
        {
            if !self.at(p, Tag::And) {
                break;
            }
            match self.parse_comparison(p + 1) {
                Ok((right, q)) => {
                    left = self.binary(BinaryOp::And, left, right);
                    proof { lemma_and_from(self.toks@, pos as int, pos + 1, p as int, q as int, expr_view(left)); }
                    p = q;
                },
                Err(_) => break,
            }
        }
        Ok((left, p))
    }

    fn comparison_op(&self, p: usize) -> (r: Option<BinaryOp>)
        ensures
            r is Some ==> p < self.toks.len() && r == comparison_of(tag_at(self.toks@, p as int)),
            r == (if p < self.toks@.len() { comparison_of(tag_at(self.toks@, p as int)) } else { None }),
    {
        if self.at(p, Tag::Less) { Some(BinaryOp::Less) }
        else if self.at(p, Tag::LessEqual) { Some(BinaryOp::LessEqual) }
        else if self.at(p, Tag::Greater) { Some(BinaryOp::Greater) }
        else if self.at(p, Tag::GreaterEqual) { Some(BinaryOp::GreaterEqual) }
        else if self.at(p, Tag::EqualEqual) { Some(BinaryOp::Equal) }
        else if self.at(p, Tag::NotEqual) { Some(BinaryOp::NotEqual) }
        else { None }
    }

    /// `comparison := sum (cmp_op sum)*`; a chain `a < b < c` means
    /// `(a < b) and (b < c)`.
    fn parse_comparison(&self, pos: usize) -> (r: PResult<ExprS>)
        requires
            pos <= self.toks@.len(),
        ensures
            r matches Ok((e, p)) ==> self.covers(e.1, pos as int, p as int),
            r matches Ok((e, p)) ==> derives_comparison(self.toks@, pos as int, p as int, expr_view(e)),
            lone_operand(self.toks@, pos as int) ==> (r matches Ok((_, p)) && p == pos + 1),
        decreases self.toks@.len() - pos, 17nat,
    {
        let ghost toks = self.toks@;
        let (first, p0) = self.parse_sum(pos)?;
        let mut p = p0;
        let mut terms: Vec<ExprS> = Vec::new();
        let mut ops: Vec<BinaryOp> = Vec::new();
        let mut ends: Vec<usize> = Vec::new();
        terms.push(first);
        ends.push(p0);
        loop
            invariant
                toks == self.toks@,
                pos < p <= self.toks@.len(),
                terms.len() == ops.len() + 1,
                ends.len() == terms.len(),
                ends@[ends.len() - 1] == p,
                self.covers(terms@[0].1, pos as int, ends@[0] as int),
                derives_sum(toks, pos as int, ends@[0] as int, expr_view(terms@[0])),
                forall|i: int| 0 <= i < ends.len() ==> pos < #[trigger] ends@[i] <= p,
                forall|i: int| 0 < i < terms.len() ==> self.covers(#[trigger] terms@[i].1, ends@[i - 1] + 1, ends@[i] as int),
                forall|i: int| 0 < i < terms.len() ==> derives_sum(toks, ends@[i - 1] + 1, ends@[i] as int, #[trigger] expr_view(terms@[i])),
                forall|i: int| 0 <= i < ops.len() ==> comparison_of(tag_at(toks, #[trigger] ends@[i] as int)) == Some(ops@[i]),
                lone_operand(toks, pos as int) ==> p == pos + 1 && ops.len() == 0,
            decreases self.toks@.len() - p,
        {
            match self.comparison_op(p) {
                Some(op) => {
                    match self.parse_sum(p + 1) {
                        Ok((right, q)) => {
                            terms.push(right);
                            ops.push(op);
                            ends.push(q);
                            p = q;
                        },
                        Err(_) => break,
                    }
                },
                None => break,
            }
        }
        if ops.len() == 0 {
            let t = terms.pop().unwrap();
            return Ok((t, p));
        }
        // Build the pairwise comparisons, joined by `and`.
        let mut acc: Option<ExprS> = None;
        let mut i: usize = 0;
        while i < ops.len()
            invariant
                toks == self.toks@,
                pos < p <= self.toks@.len(),
                terms.len() == ops.len() + 1,
                ends.len() == terms.len(),
                ends@[ends.len() - 1] == p,
                self.covers(terms@[0].1, pos as int, ends@[0] as int),
                derives_sum(toks, pos as int, ends@[0] as int, expr_view(terms@[0])),
                forall|j: int| 0 <= j < ends.len() ==> pos < #[trigger] ends@[j] <= p,
                forall|j: int| 0 < j < terms.len() ==> self.covers(#[trigger] terms@[j].1, ends@[j - 1] + 1, ends@[j] as int),
                forall|j: int| 0 < j < terms.len() ==> derives_sum(toks, ends@[j - 1] + 1, ends@[j] as int, #[trigger] expr_view(terms@[j])),
                forall|j: int| 0 <= j < ops.len() ==> comparison_of(tag_at(toks, #[trigger] ends@[j] as int)) == Some(ops@[j]),
                i <= ops.len(),
                i == 0 ==> acc is None,
                i > 0 ==> (acc matches Some(a) && a.1.start == terms@[0].1.start && a.1.end == terms@[i as int].1.end
                    && chain_from(toks, pos as int, pos + 1, ends@[i as int] as int, expr_view(a))
                    && last_term(expr_view(a)) == expr_view(terms@[i as int])),
            decreases ops.len() - i,
        {
            let l = clone_expr(&terms[i]);
            let r = clone_expr(&terms[i + 1]);
            let pair = self.binary(ops[i], l, r);
            proof {
                let k = ends@[i as int] as int;
                let b = ends@[i + 1] as int;
                assert(self.covers(terms@[i + 1].1, k + 1, b));
                assert(derives_sum(toks, k + 1, b, expr_view(terms@[i + 1])));
                assert(comparison_of(tag_at(toks, k)) == Some(ops@[i as int]));
            }
            let ghost prev = acc;
            acc = match acc {
                None => Some(pair),
                Some(a) => Some(self.binary(BinaryOp::And, a, pair)),
            };
            proof {
                let k = ends@[i as int] as int;
                let b = ends@[i + 1] as int;
                let v = expr_view(acc.unwrap());
                if i == 0 {
                    assert(chain_at(toks, pos as int, k, b, v));
                } else {
                    let a = prev.unwrap();
                    assert(chain_at(toks, pos as int, k, b, v));
                }
                lemma_chain_from(toks, pos as int, pos + 1, k, b, v);
            }
            i = i + 1;
        }
        match acc {
            Some(a) => Ok((a, p)),
            None => Err(self.error(p, "expression")),
        }
    }

    /// `sum := product (('+' | '-') product)*`
    fn parse_sum(&self, pos: usize) -> (r: PResult<ExprS>)
        requires
            pos <= self.toks@.len(),
        ensures
            r matches Ok((e, p)) ==> self.covers(e.1, pos as int, p as int),
            r matches Ok((e, p)) ==> derives_sum(self.toks@, pos as int, p as int, expr_view(e)),
            lone_operand(self.toks@, pos as int) ==> (r matches Ok((_, p)) && p == pos + 1),
        decreases self.toks@.len() - pos, 16nat,
    {
        let (mut left, mut p) = self.parse_product(pos)?;
        assert(derives_sum(self.toks@, pos as int, p as int, expr_view(left)));
        loop
            invariant
                pos < p <= self.toks@.len(),
                self.covers(left.1, pos as int, p as int),
                derives_sum(self.toks@, pos as int, p as int, expr_view(left)),
                lone_operand(self.toks@, pos as int) ==> p == pos + 1,
            decreases self.toks@.len() - p,
        {
            let op = if self.at(p, Tag::Plus) { BinaryOp::Add }
                else if self.at(p, Tag::Minus) { BinaryOp::Subtract }
                else { break };
            match self.parse_product(p + 1) {
                Ok((right, q)) => {
                    left = self.binary(op, left, right);
                    proof { lemma_sum_from(self.toks@, pos as int, pos + 1, p as int, q as int, expr_view(left)); }
                    p = q;
                },
                Err(_) => break,
            }
        }
        Ok((left, p))
    }

    /// `product := unary (('*' | '//' | '/' | '%') unary)*`
    fn parse_product(&self, pos: usize) -> (r: PResult<ExprS>)
        requires
            pos <= self.toks@.len(),
        ensures
            r matches Ok((e, p)) ==> self.covers(e.1, pos as int, p as int),
            r matches Ok((e, p)) ==> derives_product(self.toks@, pos as int, p as int, expr_view(e)),
            lone_operand(self.toks@, pos as int) ==> (r matches Ok((_, p)) && p == pos + 1),
        decreases self.toks@.len() - pos, 15nat,
    {
        let (mut left, mut p) = self.parse_unary(pos)?;
        assert(derives_product(self.toks@, pos as int, p as int, expr_view(left)));
        loop
            invariant
                pos < p <= self.toks@.len(),
                self.covers(left.1, pos as int, p as int),
                derives_product(self.toks@, pos as int, p as int, expr_view(left)),
                lone_operand(self.toks@, pos as int) ==> p == pos + 1,
            decreases self.toks@.len() - p,
        {
            let op = if self.at(p, Tag::Star) { BinaryOp::Multiply }
                else if self.at(p, Tag::SlashSlash) { BinaryOp::FloorDivide }
                else if self.at(p, Tag::Slash) { BinaryOp::Divide }
                else if self.at(p, Tag::Percent) { BinaryOp::Modulo }
                else { break };
            match self.parse_unary(p + 1) {
                Ok((right, q)) => {
                    left = self.binary(op, left, right);
                    proof { lemma_product_from(self.toks@, pos as int, pos + 1, p as int, q as int, expr_view(left)); }
                    p = q;
                },
                Err(_) => break,
            }
        }
        Ok((left, p))
    }

    /// `unary := ('not' | '-' | '+') unary | atom`. A minus applied to an
    /// integer literal folds into a negative literal.
    fn parse_unary(&self, pos: usize) -> (r: PResult<ExprS>)
        requires
            pos <= self.toks@.len(),
        ensures
            r matches Ok((e, p)) ==> self.covers(e.1, pos as int, p as int),
            r matches Ok((e, p)) ==> derives_unary(self.toks@, pos as int, p as int, expr_view(e)),
            lone_operand(self.toks@, pos as int) ==> (r matches Ok((_, p)) && p == pos + 1),
        decreases self.toks@.len() - pos, 14nat,
    {
        let op = if self.at(pos, Tag::Not) { Some(UnaryOp::Not) }
            else if self.at(pos, Tag::Minus) { Some(UnaryOp::Negate) }
            else if self.at(pos, Tag::Plus) { Some(UnaryOp::Pos) }
            else { None };
        match op {
            None => self.parse_atom(pos),
            Some(op) => {
                let (inner, q) = self.parse_unary(pos + 1)?;
                let sp = self.span(pos, q);
                proof {
                    assert(prefix_of(tag_at(self.toks@, pos as int)) == Some(op));
                    lemma_view_span(inner, inner.1);
                }
                if let UnaryOp::Negate = op {
                    if let Expr::Literal(Literal::Int(n)) = inner.0 {
                        if n != i64::MIN {
                            let folded = (Expr::Literal(Literal::Int(-n)), sp);
                            proof {
                                assert((-(-n) as i64) as i64 == n);
                                assert(expr_view(inner) == ExprView::Literal(Literal::Int(n), span_of(self.toks@, pos + 1, q as int)));
                            }
                            return Ok((folded, q));
                        }
                    }
                }
                Ok(((Expr::Unary { op, expr: Box::new(inner) }, sp), q))
            },
        }
    }

    /// `atom := primary ('.' ident | '(' args ')' | '[' expr ']')*`
    fn parse_atom(&self, pos: usize) -> (r: PResult<ExprS>)
        requires
            pos <= self.toks@.len(),
        ensures
            r matches Ok((e, p)) ==> self.covers(e.1, pos as int, p as int),
            r matches Ok((e, p)) ==> derives_atom(self.toks@, pos as int, p as int, expr_view(e)),
            lone_operand(self.toks@, pos as int) ==> (r matches Ok((_, p)) && p == pos + 1),
        decreases self.toks@.len() - pos, 13nat,
    {
        let (mut base, mut p) = self.parse_primary(pos)?;
        loop
            invariant
                pos < p <= self.toks@.len(),
                self.covers(base.1, pos as int, p as int),
                derives_atom(self.toks@, pos as int, p as int, expr_view(base)),
                lone_operand(self.toks@, pos as int) ==> p == pos + 1,
            decreases self.toks@.len() - p,
        {
            if self.at(p, Tag::Dot) {
                match self.ident_at(p + 1) {
                    Some(attr) => {
                        let sp = self.span(pos, p + 2);
                        base = (Expr::Attribute { object: Box::new(base), attr }, sp);
                        proof { lemma_postfix_from(self.toks@, pos as int, pos + 1, p as int, p + 2, expr_view(base)); }
                        p = p + 2;
                    },
                    None => break,
                }
            } else if self.at(p, Tag::LParen) {
                match self.parse_expr_seq(p + 1, Tag::RParen) {
                    Ok((args, q)) => {
                        let sp = self.span(pos, q);
                        base = (Expr::Call { func_name: Box::new(base), args }, sp);
                        proof { lemma_postfix_from(self.toks@, pos as int, pos + 1, p as int, q as int, expr_view(base)); }
                        p = q;
                    },
                    Err(_) => break,
                }
            } else if self.at(p, Tag::LBracket) {
                match self.parse_expr(p + 1) {
                    Ok((index, q)) => {
                        if self.at(q, Tag::RBracket) {
                            let sp = self.span(pos, q + 1);
                            base = (Expr::Index { object: Box::new(base), index: Box::new(index) }, sp);
                            proof { lemma_postfix_from(self.toks@, pos as int, pos + 1, p as int, q + 1, expr_view(base)); }
                            p = q + 1;
                        } else {
                            break;
                        }
                    },
                    Err(_) => break,
                }
            } else {
                break;
            }
        }
        Ok((base, p))
    }

    /// `expr (',' expr)* ','? close`, with no element at all allowed; the
    /// closing token is consumed.
    fn parse_expr_seq(&self, pos: usize, close: Tag) -> (r: PResult<Vec<ExprS>>)
        requires
            pos <= self.toks@.len(),
        ensures
            r matches Ok((v, p)) ==> pos < p <= self.toks@.len()
                && self.tag_at(p - 1) == close,
            r matches Ok((v, p)) ==> closed_list(self.toks@, pos as int, p as int, exprs_view(v@), close),
            close != Tag::Comma && lone_operand(self.toks@, pos as int) && pos + 1 < self.toks@.len()
                && tag_at(self.toks@, pos + 1) == close ==> (r matches Ok((v, p)) && p == pos + 2 && v@.len() == 1),
        decreases self.toks@.len() - pos, 21nat,
    {
        let ghost toks = self.toks@;
        let ghost base = close != Tag::Comma && lone_operand(toks, pos as int) && pos + 1 < toks.len()
            && tag_at(toks, pos + 1) == close;
        let mut items: Vec<ExprS> = Vec::new();
        let mut p = pos;
        loop
            invariant_except_break
                toks == self.toks@,
                pos <= p <= self.toks@.len(),
                (items@.len() == 0 && p == pos) || (items@.len() > 0 && pos + 1 < p && tag_at(toks, p - 1) == Tag::Comma
                    && separated(toks, pos as int, p - 1, exprs_view(items@))),
                base == (close != Tag::Comma && lone_operand(toks, pos as int) && pos + 1 < toks.len()
                    && tag_at(toks, pos + 1) == close),
                base ==> p == pos && items@.len() == 0,
            ensures
                toks == self.toks@,
                pos <= p <= self.toks@.len(),
                expr_list(toks, pos as int, p as int, exprs_view(items@)),
                base ==> p == pos + 1 && items@.len() == 1,
            decreases self.toks@.len() - p,
        {
            match self.parse_expr(p) {
                Ok((e, q)) => {
                    proof {
                        lemma_exprs_view_push(items@, e);
                        let vs = exprs_view(items@.push(e));
                        assert(vs.drop_last() =~= exprs_view(items@));
                        if items@.len() > 0 {
                            assert(separated_at(toks, pos as int, p - 1, q as int, vs));
                            lemma_separated_from(toks, pos as int, pos + 1, p - 1, q as int, vs);
                        }
                        assert(separated(toks, pos as int, q as int, vs));
                    }
                    items.push(e);
                    p = q;
                    if self.at(p, Tag::Comma) {
                        p = p + 1;
                    } else {
                        break;
                    }
                },
                Err(_) => break,
            }
        }
        if self.at(p, close) {
            Ok((items, p + 1))
        } else {
            Err(self.error(p, "',' or closing bracket"))
        }
    }

    /// `(expr ':' expr) (',' expr ':' expr)* ','? '}'`
    fn parse_dict_items(&self, pos: usize) -> (r: PResult<Vec<(ExprS, ExprS)>>)
        requires
            pos <= self.toks@.len(),
        ensures
            r matches Ok((v, p)) ==> pos < p <= self.toks@.len(),
            r matches Ok((v, p)) ==> closed_pairs(self.toks@, pos as int, p as int, pairs_view(v@)),
            lone_operand(self.toks@, pos as int) && pos + 3 < self.toks@.len() && tag_at(self.toks@, pos + 1) == Tag::Colon
                && lone_operand(self.toks@, pos + 2) && tag_at(self.toks@, pos + 3) == Tag::RBrace
                ==> (r matches Ok((v, p)) && p == pos + 4 && v@.len() == 1),
        decreases self.toks@.len() - pos, 21nat,
    {
        let ghost toks = self.toks@;
        let ghost base = lone_operand(toks, pos as int) && pos + 3 < toks.len() && tag_at(toks, pos + 1) == Tag::Colon
            && lone_operand(toks, pos + 2) && tag_at(toks, pos + 3) == Tag::RBrace;
        let mut items: Vec<(ExprS, ExprS)> = Vec::new();
        let mut p = pos;
        loop
            invariant_except_break
                toks == self.toks@,
                pos <= p <= self.toks@.len(),
                (items@.len() == 0 && p == pos) || (items@.len() > 0 && pos + 1 < p && tag_at(toks, p - 1) == Tag::Comma
                    && pairs_separated(toks, pos as int, p - 1, pairs_view(items@))),
                base == (lone_operand(toks, pos as int) && pos + 3 < toks.len() && tag_at(toks, pos + 1) == Tag::Colon
                    && lone_operand(toks, pos + 2) && tag_at(toks, pos + 3) == Tag::RBrace),
                base ==> p == pos && items@.len() == 0,
            ensures
                toks == self.toks@,
                pos <= p <= self.toks@.len(),
                base ==> p == pos + 3 && items@.len() == 1,
                items@.len() > 0,
                pairs_separated(toks, pos as int, p as int, pairs_view(items@))
                    || (pos + 1 < p && tag_at(toks, p - 1) == Tag::Comma
                        && pairs_separated(toks, pos as int, p - 1, pairs_view(items@))),
            decreases self.toks@.len() - p,
        {
            match self.parse_expr(p) {
                Ok((k, q)) => {
                    if !self.at(q, Tag::Colon) {
                        if items.len() == 0 {
                            return Err(self.error(q, "':'"));
                        }
                        break;
                    }
                    match self.parse_expr(q + 1) {
                        Ok((v, q2)) => {
                            proof {
                                lemma_pairs_view_push(items@, (k, v));
                                let ps = pairs_view(items@.push((k, v)));
                                let pr = (expr_view(k), expr_view(v));
                                assert(ps.drop_last() =~= pairs_view(items@));
                                assert(pair_at(toks, p as int, q as int, q2 as int, pr));
                                lemma_pair_from(toks, p as int, p + 1, q as int, q2 as int, pr);
                                if items@.len() > 0 {
                                    assert(pairs_at(toks, pos as int, p - 1, q2 as int, ps));
                                    lemma_pairs_from(toks, pos as int, pos + 1, p - 1, q2 as int, ps);
                                }
                                assert(pairs_separated(toks, pos as int, q2 as int, ps));
                            }
                            items.push((k, v));
                            p = q2;
                            if self.at(p, Tag::Comma) {
                                p = p + 1;
                            } else {
                                break;
                            }
                        },
                        Err(e) => {
                            if items.len() == 0 {
                                return Err(e);
                            }
                            break;
                        },
                    }
                },
                Err(e) => {
                    if items.len() == 0 {
                        return Err(e);
                    }
                    break;
                },
            }
        }
        if self.at(p, Tag::RBrace) {
            Ok((items, p + 1))
        } else {
            Err(self.error(p, "',' or '}'"))
        }
    }

    /// `primary := literal | list | 't' set | set_or_dict | tuple_or_group | ident`
    fn parse_primary(&self, pos: usize) -> (r: PResult<ExprS>)
        requires
            pos <= self.toks@.len(),
        ensures
            r matches Ok((e, p)) ==> self.covers(e.1, pos as int, p as int),
            r matches Ok((e, p)) ==> derives_primary(self.toks@, pos as int, p as int, expr_view(e)),
            lone_operand(self.toks@, pos as int) ==> (r matches Ok((_, p)) && p == pos + 1),
        decreases self.toks@.len() - pos, 12nat,
    {
        if pos >= self.toks.len() {
            return Err(self.error(pos, "expression"));
        }
        let one = self.span(pos, pos + 1);
        match &self.toks[pos].0 {
            Token::Int(i) => return Ok(((Expr::Literal(Literal::Int(*i)), one), pos + 1)),
            Token::Bool(b) => return Ok(((Expr::Literal(Literal::Bool(*b)), one), pos + 1)),
            Token::String(s) => return Ok(((Expr::Literal(Literal::String(s.clone())), one), pos + 1)),
            Token::Float(f) => return Ok(((Expr::Literal(Literal::Float(f.clone())), one), pos + 1)),
            Token::NoneKw => return Ok(((Expr::Literal(Literal::NoneLit), one), pos + 1)),
            _ => {},
        }
        if self.at(pos, Tag::LBracket) {
            let (items, q) = self.parse_expr_seq(pos + 1, Tag::RBracket)?;
            let sp = self.span(pos, q);
            return Ok(((Expr::List(items), sp), q));
        }
        if let Some(name) = self.ident_at(pos) {
            if str_eq(name.as_str(), "t") && self.at(pos + 1, Tag::LBrace) {
                match self.parse_expr_seq(pos + 2, Tag::RBrace) {
                    Ok((items, q)) => {
                        let sp = self.span(pos, q);
                        return Ok(((Expr::TreeSet(items), sp), q));
                    },
                    Err(_) => {},
                }
            }
            return Ok(((Expr::Variable(name), one), pos + 1));
        }
        if self.at(pos, Tag::LBrace) {
            if self.at(pos + 1, Tag::RBrace) {
                let sp = self.span(pos, pos + 2);
                let ps: Vec<(ExprS, ExprS)> = Vec::new();
                assert(pairs_view(ps@) =~= Seq::<(ExprView, ExprView)>::empty());
                return Ok(((Expr::Dict(ps), sp), pos + 2));
            }
            return match self.parse_dict_items(pos + 1) {
                Ok((pairs, q)) => {
                    let sp = self.span(pos, q);
                    Ok(((Expr::Dict(pairs), sp), q))
                },
                Err(e1) => match self.parse_expr_seq(pos + 1, Tag::RBrace) {
                    Ok((items, q)) => {
                        let sp = self.span(pos, q);
                        Ok(((Expr::SetLit(items), sp), q))
                    },
                    Err(e2) => Err(furthest(e1, e2)),
                },
            };
        }
        if self.at(pos, Tag::LParen) {
            match self.parse_expr(pos + 1) {
                Ok((first, q)) => {
                    if self.at(q, Tag::Comma) {
                        let (rest, q2) = self.parse_expr_seq(q + 1, Tag::RParen)?;
                        let mut elems: Vec<ExprS> = Vec::new();
                        elems.push(first);
                        let ghost rest_seq = rest@;
                        let ghost first_v = first;
                        let mut rest = rest;
                        elems.append(&mut rest);
                        let sp = self.span(pos, q2);
                        proof {
                            let toks = self.toks@;
                            lemma_exprs_view_push(Seq::<ExprS>::empty(), first_v);
                            assert(Seq::<ExprS>::empty().push(first_v) =~= seq![first_v]);
                            assert(elems@ =~= seq![first_v] + rest_seq);
                            lemma_exprs_view_append(seq![first_v], rest_seq);
                            let vs = exprs_view(elems@);
                            assert(exprs_view(seq![first_v]) =~= seq![expr_view(first_v)]);
                            assert(vs.drop_first() =~= exprs_view(rest_seq));
                            assert(tuple_at(toks, pos as int, q as int, q2 as int, vs));
                            lemma_tuple_from(toks, pos as int, pos + 2, q as int, q2 as int, vs);
                        }
                        return Ok(((Expr::Tuple(elems), sp), q2));
                    }
                    if self.at(q, Tag::RParen) {
                        let sp = self.span(pos, q + 1);
                        proof {
                            lemma_view_span((first.0, sp), span_of(self.toks@, pos + 1, q as int));
                            lemma_view_span(first, first.1);
                        }
                        return Ok(((first.0, sp), q + 1));
                    }
                    return Err(self.error(q, "')'"));
                },
                Err(e1) => {
                    // `(` `)` must be followed by another `)`.
                    if self.at(pos + 1, Tag::RParen) {
                        if self.at(pos + 2, Tag::RParen) {
                            let sp = self.span(pos, pos + 3);
                            let es: Vec<ExprS> = Vec::new();
                            assert(exprs_view(es@) =~= Seq::<ExprView>::empty());
                            return Ok(((Expr::Tuple(es), sp), pos + 3));
                        }
                        return Err(self.error(pos + 2, "')'"));
                    }
                    return Err(e1);
                },
            }
        }
        Err(self.error(pos, "expression"))
    }

    /// `tuple_or_expr := expr (',' expr)* ','?`; a single expression
    /// without a comma stands for itself, anything else is a tuple.
    pub fn parse_tuple_or_expr(&self, pos: usize) -> (r: PResult<ExprS>)
        requires
            pos <= self.toks@.len(),
        ensures
            r matches Ok((e, p)) ==> pos < p <= self.toks@.len() && e.1.start == self.toks@[pos as int].1.start,
            r matches Ok((e, p)) ==> derives_tuple_or_expr(self.toks@, pos as int, p as int, expr_view(e)),
            lone_operand(self.toks@, pos as int) && !(pos + 1 < self.toks@.len() && tag_at(self.toks@, pos + 1) == Tag::Comma)
                ==> (r matches Ok((_, p)) && p == pos + 1),
    {
        let ghost toks = self.toks@;
        let (first, p0) = self.parse_expr(pos)?;
        let ghost first_start = first.1.start;
        let mut p = p0;
        let mut items: Vec<ExprS> = Vec::new();
        proof {
            lemma_exprs_view_push(items@, first);
        }
        items.push(first);
        loop
            invariant_except_break
                toks == self.toks@,
                pos < p <= self.toks@.len(),
                items.len() >= 1,
                items@[0].1.start == first_start,
                first_start == self.toks@[pos as int].1.start,
                separated(toks, pos as int, p as int, exprs_view(items@)),
                lone_operand(toks, pos as int) && !(pos + 1 < toks.len() && tag_at(toks, pos + 1) == Tag::Comma)
                    ==> p == pos + 1 && items.len() == 1,
            ensures
                lone_operand(toks, pos as int) && !(pos + 1 < toks.len() && tag_at(toks, pos + 1) == Tag::Comma)
                    ==> p == pos + 1 && items.len() == 1,
                toks == self.toks@,
                pos < p <= self.toks@.len(),
                items.len() >= 1,
                items@[0].1.start == first_start,
                first_start == self.toks@[pos as int].1.start,
                separated(toks, pos as int, p as int, exprs_view(items@))
                    || (pos + 1 < p && tag_at(toks, p - 1) == Tag::Comma
                        && separated(toks, pos as int, p - 1, exprs_view(items@))),
            decreases self.toks@.len() - p,
        {
            if !self.at(p, Tag::Comma) {
                break;
            }
            match self.parse_expr(p + 1) {
                Ok((e, q)) => {
                    proof {
                        lemma_exprs_view_push(items@, e);
                        let vs = exprs_view(items@.push(e));
                        assert(vs.drop_last() =~= exprs_view(items@));
                        assert(separated_at(toks, pos as int, p as int, q as int, vs));
                        lemma_separated_from(toks, pos as int, pos + 1, p as int, q as int, vs);
                    }
                    items.push(e);
                    p = q;
                },
                Err(_) => {
                    p = p + 1;
                    break;
                },
            }
        }
        proof {
            lemma_exprs_view_push(items@.drop_last(), items@.last());
            assert(items@.drop_last().push(items@.last()) =~= items@);
        }
        if items.len() == 1 {
            let e = items.pop().unwrap();
            return Ok((e, p));
        }
        let sp = self.span(pos, p);
        Ok(((Expr::Tuple(items), sp), p))
    }
}

fn push_quote(s: &mut String)
    ensures
        final(s)@ == old(s)@.push('\''),
{
    crate::text::push_char(s, '\'');
}

fn furthest(a: ParseError, b: ParseError) -> (r: ParseError)
    ensures
        r == (if b.at > a.at { b } else { a }),
{
    if b.at > a.at { b } else { a }
}

/// Whether the token at `p` (or the end of the tokens) closes an
/// expression: nothing there continues it.
pub open spec fn closes_expr(toks: Seq<(Token, Span)>, p: int) -> bool {
    p >= toks.len() || {
        let t = tag_at(toks, p);
        t == Tag::Newline || t == Tag::RParen || t == Tag::RBracket || t == Tag::RBrace || t == Tag::Comma
            || t == Tag::Colon || t == Tag::Equal || t == Tag::Semicolon
    }
}

/// Whether a lone literal or name stands at `pos`: an expression of one
/// token that nothing after it continues.
pub open spec fn lone_operand(toks: Seq<(Token, Span)>, pos: int) -> bool {
    &&& 0 <= pos < toks.len()
    &&& {
        let t = tag_at(toks, pos);
        t == Tag::Int || t == Tag::Bool || t == Tag::Str || t == Tag::Float || t == Tag::NoneKw || t == Tag::Ident
    }
    &&& closes_expr(toks, pos + 1)
}

/// Whether the token at `p` has the tag `t`.
pub open spec fn tag_is(toks: Seq<(Token, Span)>, p: int, t: Tag) -> bool {
    0 <= p < toks.len() && tag_at(toks, p) == t
}

/// Where a simple statement of the plainest kinds that starts at `pos`
/// ends: `break`, `continue`, `pass`, `return` of a lone operand, a lone
/// operand, or an assignment of a lone operand to another.
pub open spec fn simple_stmt_end(toks: Seq<(Token, Span)>, pos: int) -> Option<int> {
    if tag_is(toks, pos, Tag::Break) || tag_is(toks, pos, Tag::Continue) || tag_is(toks, pos, Tag::Pass) {
        Some(pos + 1)
    } else if tag_is(toks, pos, Tag::Return) && lone_operand(toks, pos + 1) && !tag_is(toks, pos + 2, Tag::Comma) {
        Some(pos + 2)
    } else if lone_operand(toks, pos) && !tag_is(toks, pos + 1, Tag::Comma) && !tag_is(toks, pos + 1, Tag::Equal) {
        Some(pos + 1)
    } else if lone_operand(toks, pos) && tag_is(toks, pos + 1, Tag::Equal) && lone_operand(toks, pos + 2)
        && !tag_is(toks, pos + 3, Tag::Comma) {
        Some(pos + 3)
    } else {
        None
    }
}

/// Where a line of one such simple statement ends: after its newline, or at
/// the end of the tokens.
pub open spec fn simple_line_end(toks: Seq<(Token, Span)>, pos: int) -> Option<int> {
    match simple_stmt_end(toks, pos) {
        Some(e) => if e >= toks.len() { Some(e) } else if tag_at(toks, e) == Tag::Newline { Some(e + 1) } else { None },
        None => None,
    }
}

/// Where a block of one such simple line on the line of its `:` ends.
pub open spec fn block_end(toks: Seq<(Token, Span)>, pos: int) -> Option<int> {
    if tag_is(toks, pos, Tag::Colon) && !tag_is(toks, pos + 1, Tag::Newline) {
        simple_line_end(toks, pos + 1)
    } else {
        None
    }
}

/// Where a list of names starting at `p` ends: names separated by commas,
/// a trailing comma included.
pub open spec fn names_end(toks: Seq<(Token, Span)>, p: int) -> int
    decreases toks.len() - p,
{
    if 0 <= p < toks.len() && tag_at(toks, p) == Tag::Ident {
        if p + 1 < toks.len() && tag_at(toks, p + 1) == Tag::Comma { names_end(toks, p + 2) } else { p + 1 }
    } else {
        p
    }
}

impl Parser {
    fn skip_newlines(&self, pos: usize) -> (p: usize)
        requires
            pos <= self.toks@.len(),
        ensures
            pos <= p <= self.toks@.len(),
            p == crate::grammar::skip_newlines(self.toks@, pos as int),
    {
        let mut p = pos;
        while self.at(p, Tag::Newline)
            invariant
                pos <= p <= self.toks@.len(),
                crate::grammar::skip_newlines(self.toks@, p as int) == crate::grammar::skip_newlines(self.toks@, pos as int),
            decreases self.toks@.len() - p,
        {
            p = p + 1;
        }
        p
    }

    /// `simple_stmt := 'return' tuple_or_expr | 'break' | 'continue' | 'pass'
    ///               | tuple_or_expr '=' tuple_or_expr | tuple_or_expr`
    fn parse_simple_stmt(&self, pos: usize) -> (r: PResult<StmtS>)
        requires
            pos <= self.toks@.len(),
        ensures
            r matches Ok((st, p)) ==> self.covers(st.1, pos as int, p as int),
            r matches Ok((st, p)) ==> derives_simple_stmt(self.toks@, pos as int, p as int, stmt_view(st)),
            simple_stmt_end(self.toks@, pos as int) matches Some(e) ==> (r matches Ok((_, p)) && p == e),
    {
        if self.at(pos, Tag::Return) {
            let (e, q) = self.parse_tuple_or_expr(pos + 1)?;
            let sp = self.span(pos, q);
            return Ok(((Stmt::Return(e), sp), q));
        }
        if self.at(pos, Tag::Break) {
            return Ok(((Stmt::Break, self.span(pos, pos + 1)), pos + 1));
        }
        if self.at(pos, Tag::Continue) {
            return Ok(((Stmt::Continue, self.span(pos, pos + 1)), pos + 1));
        }
        if self.at(pos, Tag::Pass) {
            return Ok(((Stmt::Pass, self.span(pos, pos + 1)), pos + 1));
        }
        let (target, q) = self.parse_tuple_or_expr(pos)?;
        if self.at(q, Tag::Equal) {
            match self.parse_tuple_or_expr(q + 1) {
                Ok((value, q2)) => {
                    let sp = self.span(pos, q2);
                    let ghost tv = expr_view(target);
                    let ghost s0 = target.1;
                    let st = (Stmt::Assign { target: (target.0, sp), value }, sp);
                    proof {
                        lemma_view_span((target.0, sp), s0);
                        lemma_view_span((target.0, sp), sp);
                        let t = expr_view((target.0, sp));
                        assert(respan(t, s0) == tv);
                        assert(derives_tuple_or_expr(self.toks@, pos as int, q as int, respan(t, s0)));
                    }
                    return Ok((st, q2));
                },
                Err(e) => {
                    // Without a right-hand side the line is an expression
                    // statement, which must end here; it does not.
                    let e2 = self.error(q, "';' or newline");
                    return Err(furthest(e, e2));
                },
            }
        }
        let sp = self.span(pos, q);
        Ok(((Stmt::Expr(target), sp), q))
    }

    /// `simple_line := simple_stmt (';' simple_stmt)* ';'? (newline | end)`
    fn parse_simple_line(&self, pos: usize) -> (r: PResult<Vec<StmtS>>)
        requires
            pos <= self.toks@.len(),
        ensures
            r matches Ok((v, p)) ==> pos < p <= self.toks@.len() && v@.len() > 0,
            r matches Ok((v, p)) ==> derives_simple_line(self.toks@, pos as int, p as int, stmts_view(v@)),
            simple_line_end(self.toks@, pos as int) matches Some(e) ==> (r matches Ok((_, p)) && p == e),
    {
        let ghost toks = self.toks@;
        let ghost base = simple_line_end(toks, pos as int) is Some;
        let (first, p0) = self.parse_simple_stmt(pos)?;
        let mut stmts: Vec<StmtS> = Vec::new();
        proof {
            lemma_stmts_view_push(stmts@, first);
        }
        stmts.push(first);
        let mut p = p0;
        loop
            invariant_except_break
                toks == self.toks@,
                pos < p <= self.toks@.len(),
                stmts@.len() > 0,
                derives_semis(toks, pos as int, p as int, stmts_view(stmts@)),
                base == simple_line_end(toks, pos as int) is Some,
                base ==> simple_stmt_end(toks, pos as int) == Some(p as int),
            ensures
                toks == self.toks@,
                pos < p <= self.toks@.len(),
                stmts@.len() > 0,
                derives_semis_opt(toks, pos as int, p as int, stmts_view(stmts@)),
                base ==> simple_stmt_end(toks, pos as int) == Some(p as int),
            decreases self.toks@.len() - p,
        {
            if !self.at(p, Tag::Semicolon) {
                break;
            }
            match self.parse_simple_stmt(p + 1) {
                Ok((st, q)) => {
                    proof {
                        lemma_stmts_view_push(stmts@, st);
                        let vs = stmts_view(stmts@.push(st));
                        assert(vs.drop_last() =~= stmts_view(stmts@));
                        assert(semis_at(toks, pos as int, p as int, q as int, vs));
                        lemma_semis_from(toks, pos as int, pos + 1, p as int, q as int, vs);
                    }
                    stmts.push(st);
                    p = q;
                },
                Err(_) => {
                    p = p + 1;
                    break;
                },
            }
        }
        if self.at(p, Tag::Newline) {
            Ok((stmts, p + 1))
        } else if p == self.toks.len() {
            Ok((stmts, p))
        } else {
            Err(self.error(p, "';' or newline"))
        }
    }

    /// `'(' names ')'`
    fn parse_params(&self, pos: usize) -> (r: PResult<Vec<String>>)
        requires
            pos <= self.toks@.len(),
        ensures
            r matches Ok((v, p)) ==> pos + 2 <= p <= self.toks@.len() && tag_at(self.toks@, pos as int) == Tag::LParen
                && tag_at(self.toks@, p - 1) == Tag::RParen && names_list(self.toks@, pos + 1, p - 1, v@),
            r is Ok <==> pos < self.toks@.len() && tag_at(self.toks@, pos as int) == Tag::LParen
                && names_end(self.toks@, pos + 1) < self.toks@.len()
                && tag_at(self.toks@, names_end(self.toks@, pos + 1)) == Tag::RParen,
            r matches Ok((_, p)) ==> p == names_end(self.toks@, pos + 1) + 1,
    {
        if !self.at(pos, Tag::LParen) {
            return Err(self.error(pos, "'('"));
        }
        let (params, p) = self.parse_names(pos + 1);
        if self.at(p, Tag::RParen) {
            Ok((params, p + 1))
        } else {
            Err(self.error(p, "')'"))
        }
    }

    /// `block := ':' (newline+ indent line* dedent | simple_line)`
    fn parse_block(&self, pos: usize) -> (r: PResult<Vec<StmtS>>)
        requires
            pos <= self.toks@.len(),
        ensures
            r matches Ok((v, p)) ==> pos < p <= self.toks@.len(),
            r matches Ok((v, p)) ==> derives_block(self.toks@, pos as int, p as int, stmts_view(v@)),
            block_end(self.toks@, pos as int) matches Some(e) ==> (r matches Ok((_, p)) && p == e),
        decreases self.toks@.len() - pos, 2nat,
    {
        let ghost toks = self.toks@;
        if !self.at(pos, Tag::Colon) {
            return Err(self.error(pos, "':'"));
        }
        let p = pos + 1;
        if self.at(p, Tag::Newline) {
            let q = self.skip_newlines(p + 1);
            if !self.at(q, Tag::Indent) {
                return Err(self.error(q, "indented block"));
            }
            let ghost q0 = q;
            let mut q = q + 1;
            let mut stmts: Vec<StmtS> = Vec::new();
            loop
                invariant_except_break
                    toks == self.toks@,
                    pos < q0 < q <= self.toks@.len(),
                    derives_lines(toks, q0 + 1, q as int, stmts_view(stmts@)),
                    tag_is(toks, pos + 1, Tag::Newline),
                ensures
                    toks == self.toks@,
                    pos < q0 < q <= self.toks@.len(),
                    derives_lines(toks, q0 + 1, q as int, stmts_view(stmts@)),
                decreases self.toks@.len() - q,
            {
                match self.parse_line(q) {
                    Ok((v, q2)) => {
                        let ghost old_stmts = stmts@;
                        let ghost vv = v@;
                        let mut v = v;
                        stmts.append(&mut v);
                        proof {
                            lemma_stmts_view_append(old_stmts, vv);
                            crate::grammar::lemma_stmts_view_len(old_stmts);
                            crate::grammar::lemma_stmts_view_len(vv);
                            let vs = stmts_view(stmts@);
                            let m = vv.len() as int;
                            assert(stmts@ =~= old_stmts + vv);
                            assert(vs.subrange(vs.len() - m, vs.len() as int) =~= stmts_view(vv));
                            assert(vs.subrange(0, vs.len() - m) =~= stmts_view(old_stmts));
                            assert(lines_at(toks, q0 + 1, q as int, q2 as int, vs, m));
                            lemma_lines_intro(toks, q0 + 1, q as int, q2 as int, vs, m);
                        }
                        q = q2;
                    },
                    Err(e) => {
                        if !self.at(q, Tag::Dedent) {
                            return Err(e);
                        }
                        break;
                    },
                }
            }
            if self.at(q, Tag::Dedent) {
                Ok((stmts, q + 1))
            } else {
                Err(self.error(q, "dedent"))
            }
        } else {
            self.parse_simple_line(p)
        }
    }

    /// `method := 'def' ident params block`
    fn parse_method(&self, pos: usize) -> (r: PResult<MethodDef>)
        requires
            pos <= self.toks@.len(),
        ensures
            r matches Ok((m, p)) ==> pos < p <= self.toks@.len(),
            r matches Ok((m, p)) ==> derives_method(self.toks@, pos as int, p as int, method_view(m)),
            ({
                let pe = names_end(self.toks@, pos + 3) + 1;
                &&& tag_is(self.toks@, pos as int, Tag::Def)
                &&& tag_is(self.toks@, pos + 1, Tag::Ident)
                &&& tag_is(self.toks@, pos + 2, Tag::LParen)
                &&& tag_is(self.toks@, pe - 1, Tag::RParen)
                &&& block_end(self.toks@, pe) is Some
            }) ==> (r matches Ok((_, p)) && p == block_end(self.toks@, names_end(self.toks@, pos + 3) + 1).unwrap()),
        decreases self.toks@.len() - pos, 3nat,
    {
        if !self.at(pos, Tag::Def) {
            return Err(self.error(pos, "'def'"));
        }
        let name = match self.ident_at(pos + 1) {
            Some(n) => n,
            None => return Err(self.error(pos + 1, "identifier")),
        };
        let (params, p) = self.parse_params(pos + 2)?;
        let (body, q) = self.parse_block(p)?;
        let m = MethodDef { name, params, body };
        proof {
            let mv = method_view(m);
            assert(method_at(self.toks@, pos as int, p as int, q as int, mv));
            lemma_method_from(self.toks@, pos as int, pos + 4, p as int, q as int, mv);
        }
        Ok((m, q))
    }

    /// `compound := class | def | if | while | for`
    fn parse_compound(&self, pos: usize) -> (r: PResult<StmtS>)
        requires
            pos < self.toks@.len(),
        ensures
            r matches Ok((st, p)) ==> self.covers(st.1, pos as int, p as int),
            r matches Ok((st, p)) ==> derives_compound(self.toks@, pos as int, p as int, stmt_view(st)),
            tag_is(self.toks@, pos as int, Tag::While) && lone_operand(self.toks@, pos + 1)
                && block_end(self.toks@, pos + 2) is Some ==> (r matches Ok((_, p)) && p == block_end(self.toks@, pos + 2).unwrap()),
        decreases self.toks@.len() - pos, 4nat,
    {
        let ghost toks = self.toks@;
        if self.at(pos, Tag::Def) {
            let (m, q) = self.parse_method(pos)?;
            let sp = self.span(pos, q);
            let ghost mv = method_view(m);
            let st = (Stmt::Def { name: m.name, params: m.params, body: m.body }, sp);
            assert(stmt_view(st) == StmtView::Def(mv.0, mv.1, mv.2, sp));
            return Ok((st, q));
        }
        if self.at(pos, Tag::If) {
            let (condition, p) = self.parse_expr(pos + 1)?;
            let ghost pc = p;
            let (then_block, p) = self.parse_block(p)?;
            let ghost cv = expr_view(condition);
            let ghost tv = stmts_view(then_block@);
            proof {
                assert(cond_at(toks, pos + 1, pc as int, p as int, cv, tv));
                lemma_cond_from(toks, pos + 1, pos + 2, pc as int, p as int, cv, tv);
            }
            let mut p = p;
            let mut elif_blocks: Vec<(ExprS, Vec<StmtS>)> = Vec::new();
            loop
                invariant
                    toks == self.toks@,
                    pos < p <= self.toks@.len(),
                    derives_if_elifs(toks, pos as int, p as int, cv, tv, elifs_view(elif_blocks@)),
                decreases self.toks@.len() - p,
            {
                if !self.at(p, Tag::Elif) {
                    break;
                }
                match self.parse_expr(p + 1) {
                    Ok((c, q)) => match self.parse_block(q) {
                        Ok((b, q2)) => {
                            proof {
                                lemma_elifs_view_push(elif_blocks@, (c, b));
                                let ev = elifs_view(elif_blocks@.push((c, b)));
                                assert(ev.drop_last() =~= elifs_view(elif_blocks@));
                                assert(cond_at(toks, p + 1, q as int, q2 as int, expr_view(c), stmts_view(b@)));
                                lemma_cond_from(toks, p + 1, p + 2, q as int, q2 as int, expr_view(c), stmts_view(b@));
                                assert(elifs_at(toks, pos as int, p as int, q2 as int, cv, tv, ev));
                                lemma_elifs_from(toks, pos as int, pos + 1, p as int, q2 as int, cv, tv, ev);
                            }
                            elif_blocks.push((c, b));
                            p = q2;
                        },
                        Err(_) => break,
                    },
                    Err(_) => break,
                }
            }
            let mut else_block: Option<Vec<StmtS>> = None;
            if self.at(p, Tag::Else) {
                match self.parse_block(p + 1) {
                    Ok((b, q)) => {
                        proof {
                            let ev = elifs_view(elif_blocks@);
                            assert(else_at(toks, pos as int, p as int, q as int, cv, tv, ev, stmts_view(b@)));
                            lemma_else_from(toks, pos as int, pos + 1, p as int, q as int, cv, tv, ev, stmts_view(b@));
                        }
                        else_block = Some(b);
                        p = q;
                    },
                    Err(_) => {},
                }
            }
            let sp = self.span(pos, p);
            return Ok(((Stmt::If { condition, then_block, elif_blocks, else_block }, sp), p));
        }
        if self.at(pos, Tag::While) {
            let (condition, p) = self.parse_expr(pos + 1)?;
            let (body, q) = self.parse_block(p)?;
            proof {
                assert(cond_at(toks, pos + 1, p as int, q as int, expr_view(condition), stmts_view(body@)));
                lemma_cond_from(toks, pos + 1, pos + 2, p as int, q as int, expr_view(condition), stmts_view(body@));
            }
            let sp = self.span(pos, q);
            return Ok(((Stmt::While { condition, body }, sp), q));
        }
        if self.at(pos, Tag::For) {
            let var = match self.ident_at(pos + 1) {
                Some(n) => n,
                None => return Err(self.error(pos + 1, "identifier")),
            };
            if !self.at(pos + 2, Tag::In) {
                return Err(self.error(pos + 2, "'in'"));
            }
            let (iterable, p) = self.parse_expr(pos + 3)?;
            let (body, q) = self.parse_block(p)?;
            proof {
                assert(cond_at(toks, pos + 3, p as int, q as int, expr_view(iterable), stmts_view(body@)));
                lemma_cond_from(toks, pos + 3, pos + 4, p as int, q as int, expr_view(iterable), stmts_view(body@));
            }
            let sp = self.span(pos, q);
            return Ok(((Stmt::For { var, iterable, body }, sp), q));
        }
        if self.at(pos, Tag::Class) {
            let name = match self.ident_at(pos + 1) {
                Some(n) => n,
                None => return Err(self.error(pos + 1, "identifier")),
            };
            if !self.at(pos + 2, Tag::Colon) {
                return Err(self.error(pos + 2, "':'"));
            }
            if !self.at(pos + 3, Tag::Newline) {
                return Err(self.error(pos + 3, "newline"));
            }
            let q = self.skip_newlines(pos + 4);
            if !self.at(q, Tag::Indent) {
                return Err(self.error(q, "indented block"));
            }
            let ghost q0 = q;
            let mut q = q + 1;
            let mut methods: Vec<MethodDef> = Vec::new();
            loop
                invariant_except_break
                    toks == self.toks@,
                    pos + 4 <= q0 < q <= self.toks@.len(),
                    derives_methods(toks, q0 + 1, q as int, methods_view(methods@)),
                    methods@.len() == methods_view(methods@).len(),
                    tag_is(toks, pos as int, Tag::Class),
                ensures
                    toks == self.toks@,
                    pos + 4 <= q0 < q <= self.toks@.len(),
                    derives_methods(toks, q0 + 1, q as int, methods_view(methods@)),
                    methods@.len() == methods_view(methods@).len(),
                    methods@.len() > 0,
                decreases self.toks@.len() - q,
            {
                match self.parse_method(q) {
                    Ok((m, q2)) => {
                        proof {
                            lemma_methods_view_push(methods@, m);
                            let mv = methods_view(methods@.push(m));
                            assert(mv.drop_last() =~= methods_view(methods@));
                            assert(methods_at(toks, q0 + 1, q as int, q2 as int, mv));
                            lemma_methods_from(toks, q0 + 1, q0 + 1, q as int, q2 as int, mv);
                        }
                        methods.push(m);
                        q = q2;
                    },
                    Err(e) => {
                        if methods.len() == 0 {
                            return Err(e);
                        }
                        break;
                    },
                }
            }
            if !self.at(q, Tag::Dedent) {
                return Err(self.error(q, "'def' or dedent"));
            }
            let sp = self.span(pos, q + 1);
            let attributes: Vec<(String, ExprS)> = Vec::new();
            assert(attrs_view(attributes@) =~= Seq::<(String, ExprView)>::empty());
            return Ok(((Stmt::Class { name, methods, attributes }, sp), q + 1));
        }
        Err(self.error(pos, "statement"))
    }

    /// One logical line: blank lines, then a compound statement or a line
    /// of simple statements, then blank lines.
    pub fn parse_line(&self, pos: usize) -> (r: PResult<Vec<StmtS>>)
        requires
            pos <= self.toks@.len(),
        ensures
            r matches Ok((v, p)) ==> pos < p <= self.toks@.len() && v@.len() > 0,
            r matches Ok((v, p)) ==> derives_line(self.toks@, pos as int, p as int, stmts_view(v@)),
            ({
                let s = crate::grammar::skip_newlines(self.toks@, pos as int);
                s < self.toks@.len() && !starts_compound(tag_at(self.toks@, s)) && simple_line_end(self.toks@, s) is Some
            }) ==> (r matches Ok((_, p)) && p == crate::grammar::skip_newlines(self.toks@,
                simple_line_end(self.toks@, crate::grammar::skip_newlines(self.toks@, pos as int)).unwrap())),
        decreases self.toks@.len() - pos, 5nat,
    {
        let ghost toks = self.toks@;
        let p = self.skip_newlines(pos);
        if p >= self.toks.len() {
            return Err(self.error(p, "statement"));
        }
        let starts = self.at(p, Tag::Class) || self.at(p, Tag::Def) || self.at(p, Tag::If)
            || self.at(p, Tag::While) || self.at(p, Tag::For);
        assert(starts == starts_compound(tag_at(toks, p as int)));
        let (stmts, q) = if starts {
            let (st, q) = self.parse_compound(p)?;
            let mut v: Vec<StmtS> = Vec::new();
            proof {
                lemma_stmts_view_push(v@, st);
            }
            v.push(st);
            (v, q)
        } else {
            self.parse_simple_line(p)?
        };
        let q2 = self.skip_newlines(q);
        proof {
            let vs = stmts_view(stmts@);
            assert(line_at(toks, pos as int, q as int, q2 as int, vs));
            lemma_line_from(toks, pos as int, p + 1, q as int, q2 as int, vs);
        }
        Ok((stmts, q2))
    }

    /// Skips past the rest of a line after an error.
    fn recover(&self, pos: usize) -> (p: usize)
        requires
            pos < self.toks.len(),
        ensures
            pos < p <= self.toks@.len(),
    {
        let mut p = pos;
        loop
            invariant
                pos <= p <= self.toks@.len(),
            decreases self.toks@.len() - p,
        {
            if p >= self.toks.len() {
                break;
            }
            if self.at(p, Tag::Newline) {
                p = p + 1;
                break;
            }
            if self.at(p, Tag::Dedent) && p > pos {
                break;
            }
            p = p + 1;
        }
        if p == pos { pos + 1 } else { p }
    }

    /// `program := newline* line* newline*`. Every error found is reported;
    /// after an error, parsing resumes after the end of the line.
    pub fn parse_program(&self) -> (r: Result<Vec<StmtS>, Vec<ParseError>>)
        ensures
            r matches Err(errs) ==> errs.len() > 0,
            r matches Ok(v) ==> derives_program(self.toks@, stmts_view(v@)),
    {
        let ghost toks = self.toks@;
        let mut stmts: Vec<StmtS> = Vec::new();
        let mut errors: Vec<ParseError> = Vec::new();
        let mut p = self.skip_newlines(0);
        let ghost p0 = p;
        while p < self.toks.len()
            invariant
                toks == self.toks@,
                p0 <= p <= self.toks@.len(),
                p0 == crate::grammar::skip_newlines(toks, 0),
                errors@.len() == 0 ==> derives_lines(toks, p0 as int, p as int, stmts_view(stmts@)),
            decreases self.toks@.len() - p,
        {
            match self.parse_line(p) {
                Ok((v, q)) => {
                    let ghost old_stmts = stmts@;
                    let ghost vv = v@;
                    let mut v = v;
                    stmts.append(&mut v);
                    proof {
                        if errors@.len() == 0 {
                            crate::grammar::lemma_stmts_view_append(old_stmts, vv);
                            crate::grammar::lemma_stmts_view_len(old_stmts);
                            crate::grammar::lemma_stmts_view_len(vv);
                            let vs = stmts_view(stmts@);
                            let m = vv.len() as int;
                            assert(stmts@ =~= old_stmts + vv);
                            assert(vs.subrange(vs.len() - m, vs.len() as int) =~= stmts_view(vv));
                            assert(vs.subrange(0, vs.len() - m) =~= stmts_view(old_stmts));
                            assert(lines_at(toks, p0 as int, p as int, q as int, vs, m));
                            lemma_lines_intro(toks, p0 as int, p as int, q as int, vs, m);
                        }
                    }
                    p = q;
                },
                Err(e) => {
                    errors.push(e);
                    p = self.recover(p);
                },
            }
        }
        if errors.len() > 0 {
            Err(errors)
        } else {
            Ok(stmts)
        }
    }
}

} // verus!
