//! The grammar of the language as relations between token ranges and
//! syntax trees. A tree is compared by its view, which keeps every node's
//! kind, contents and span and forgets how the children are stored.

use vstd::prelude::*;
use crate::ast::{BinaryOp, Expr, ExprS, Literal, MethodDef, Span, Stmt, StmtS, UnaryOp};
use crate::lexer::Token;
use crate::parser::{tag_spec, Tag};

verus! {

/// The view of an expression tree.
pub enum ExprView {
    Literal(Literal, Span),
    Variable(String, Span),
    Unary(UnaryOp, Box<ExprView>, Span),
    Binary(BinaryOp, Box<ExprView>, Box<ExprView>, Span),
    Call(Box<ExprView>, Seq<ExprView>, Span),
    Attribute(Box<ExprView>, String, Span),
    List(Seq<ExprView>, Span),
    Dict(Seq<(ExprView, ExprView)>, Span),
    Index(Box<ExprView>, Box<ExprView>, Span),
    Lambda(Seq<String>, Box<ExprView>, Span),
    Tuple(Seq<ExprView>, Span),
    SetLit(Seq<ExprView>, Span),
    TreeSet(Seq<ExprView>, Span),
}

/// The view of an expression with its span.
pub open spec fn expr_view(e: ExprS) -> ExprView
    decreases e, 0nat,
{
    let s = e.1;
    match e.0 {
        Expr::Literal(l) => ExprView::Literal(l, s),
        Expr::Variable(n) => ExprView::Variable(n, s),
        Expr::Unary { op, expr } => ExprView::Unary(op, Box::new(expr_view(*expr)), s),
        Expr::Binary { op, left, right } =>
            ExprView::Binary(op, Box::new(expr_view(*left)), Box::new(expr_view(*right)), s),
        Expr::Call { func_name, args } =>
            ExprView::Call(Box::new(expr_view(*func_name)), exprs_view(args@), s),
        Expr::Attribute { object, attr } => ExprView::Attribute(Box::new(expr_view(*object)), attr, s),
        Expr::List(items) => ExprView::List(exprs_view(items@), s),
        Expr::Dict(pairs) => ExprView::Dict(pairs_view(pairs@), s),
        Expr::Index { object, index } =>
            ExprView::Index(Box::new(expr_view(*object)), Box::new(expr_view(*index)), s),
        Expr::Lambda { params, body } => ExprView::Lambda(params@, Box::new(expr_view(*body)), s),
        Expr::Tuple(items) => ExprView::Tuple(exprs_view(items@), s),
        Expr::SetLit(items) => ExprView::SetLit(exprs_view(items@), s),
        Expr::TreeSet(items) => ExprView::TreeSet(exprs_view(items@), s),
    }
}

/// The views of a sequence of expressions.
pub open spec fn exprs_view(v: Seq<ExprS>) -> Seq<ExprView>
    decreases v, 1nat,
{
    if v.len() == 0 {
        Seq::empty()
    } else {
        exprs_view(v.subrange(0, v.len() - 1)).push(expr_view(v[v.len() - 1]))
    }
}

/// The views of a sequence of key-value pairs.
pub open spec fn pairs_view(v: Seq<(ExprS, ExprS)>) -> Seq<(ExprView, ExprView)>
    decreases v, 1nat,
{
    if v.len() == 0 {
        Seq::empty()
    } else {
        pairs_view(v.subrange(0, v.len() - 1)).push(
            (expr_view(v[v.len() - 1].0), expr_view(v[v.len() - 1].1)),
        )
    }
}

pub proof fn lemma_exprs_view_push(v: Seq<ExprS>, e: ExprS)
    ensures
        exprs_view(v.push(e)) == exprs_view(v).push(expr_view(e)),
        exprs_view(v).len() == v.len(),
    decreases v.len(),
{
    assert(v.push(e).subrange(0, v.len() as int) =~= v);
    if v.len() > 0 {
        lemma_exprs_view_push(v.subrange(0, v.len() - 1), v[v.len() - 1]);
        assert(v.subrange(0, v.len() - 1).push(v[v.len() - 1]) =~= v);
    }
}

pub proof fn lemma_pairs_view_push(v: Seq<(ExprS, ExprS)>, e: (ExprS, ExprS))
    ensures
        pairs_view(v.push(e)) == pairs_view(v).push((expr_view(e.0), expr_view(e.1))),
{
    assert(v.push(e).subrange(0, v.len() as int) =~= v);
}

pub proof fn lemma_exprs_view_append(v: Seq<ExprS>, w: Seq<ExprS>)
    ensures
        exprs_view(v + w) == exprs_view(v) + exprs_view(w),
    decreases w.len(),
{
    if w.len() == 0 {
        assert(v + w =~= v);
        assert(exprs_view(v) + exprs_view(w) =~= exprs_view(v));
    } else {
        let w0 = w.subrange(0, w.len() - 1);
        lemma_exprs_view_append(v, w0);
        lemma_exprs_view_push(v + w0, w.last());
        lemma_exprs_view_push(w0, w.last());
        assert((v + w0).push(w.last()) =~= v + w);
        assert(w0.push(w.last()) =~= w);
        assert((exprs_view(v) + exprs_view(w0)).push(expr_view(w.last()))
            =~= exprs_view(v) + exprs_view(w0).push(expr_view(w.last())));
    }
}

/// The span of a node.
pub open spec fn view_span(v: ExprView) -> Span {
    match v {
        ExprView::Literal(_, s) => s,
        ExprView::Variable(_, s) => s,
        ExprView::Unary(_, _, s) => s,
        ExprView::Binary(_, _, _, s) => s,
        ExprView::Call(_, _, s) => s,
        ExprView::Attribute(_, _, s) => s,
        ExprView::List(_, s) => s,
        ExprView::Dict(_, s) => s,
        ExprView::Index(_, _, s) => s,
        ExprView::Lambda(_, _, s) => s,
        ExprView::Tuple(_, s) => s,
        ExprView::SetLit(_, s) => s,
        ExprView::TreeSet(_, s) => s,
    }
}

/// The same node with another span.
pub open spec fn respan(v: ExprView, s: Span) -> ExprView {
    match v {
        ExprView::Literal(l, _) => ExprView::Literal(l, s),
        ExprView::Variable(n, _) => ExprView::Variable(n, s),
        ExprView::Unary(o, e, _) => ExprView::Unary(o, e, s),
        ExprView::Binary(o, l, r, _) => ExprView::Binary(o, l, r, s),
        ExprView::Call(f, a, _) => ExprView::Call(f, a, s),
        ExprView::Attribute(o, n, _) => ExprView::Attribute(o, n, s),
        ExprView::List(i, _) => ExprView::List(i, s),
        ExprView::Dict(p, _) => ExprView::Dict(p, s),
        ExprView::Index(o, i, _) => ExprView::Index(o, i, s),
        ExprView::Lambda(p, b, _) => ExprView::Lambda(p, b, s),
        ExprView::Tuple(i, _) => ExprView::Tuple(i, s),
        ExprView::SetLit(i, _) => ExprView::SetLit(i, s),
        ExprView::TreeSet(i, _) => ExprView::TreeSet(i, s),
    }
}

pub proof fn lemma_view_span(e: ExprS, s: Span)
    ensures
        view_span(expr_view(e)) == e.1,
        respan(expr_view(e), s) == expr_view((e.0, s)),
{
}

/// The span from the start of one node to the end of another.
pub open spec fn joined(l: ExprView, r: ExprView) -> Span {
    Span { start: view_span(l).start, end: view_span(r).end }
}

/// The kind of token `k`.
pub open spec fn tag_at(toks: Seq<(Token, Span)>, k: int) -> Tag {
    tag_spec(toks[k].0)
}

/// The span from the start of token `a` to the end of token `b - 1`.
pub open spec fn span_of(toks: Seq<(Token, Span)>, a: int, b: int) -> Span {
    Span { start: toks[a].1.start, end: toks[b - 1].1.end }
}

/// The comparison operator a token stands for.
pub open spec fn comparison_of(t: Tag) -> Option<BinaryOp> {
    match t {
        Tag::Less => Some(BinaryOp::Less),
        Tag::LessEqual => Some(BinaryOp::LessEqual),
        Tag::Greater => Some(BinaryOp::Greater),
        Tag::GreaterEqual => Some(BinaryOp::GreaterEqual),
        Tag::EqualEqual => Some(BinaryOp::Equal),
        Tag::NotEqual => Some(BinaryOp::NotEqual),
        _ => None,
    }
}

/// The additive operator a token stands for.
pub open spec fn additive_of(t: Tag) -> Option<BinaryOp> {
    match t {
        Tag::Plus => Some(BinaryOp::Add),
        Tag::Minus => Some(BinaryOp::Subtract),
        _ => None,
    }
}

/// The multiplicative operator a token stands for.
pub open spec fn multiplicative_of(t: Tag) -> Option<BinaryOp> {
    match t {
        Tag::Star => Some(BinaryOp::Multiply),
        Tag::SlashSlash => Some(BinaryOp::FloorDivide),
        Tag::Slash => Some(BinaryOp::Divide),
        Tag::Percent => Some(BinaryOp::Modulo),
        _ => None,
    }
}

/// The prefix operator a token stands for.
pub open spec fn prefix_of(t: Tag) -> Option<UnaryOp> {
    match t {
        Tag::Not => Some(UnaryOp::Not),
        Tag::Minus => Some(UnaryOp::Negate),
        Tag::Plus => Some(UnaryOp::Pos),
        _ => None,
    }
}

/// `ident (',' ident)*` over tokens `a..b`, naming `ns`; no name at all is
/// the empty range.
pub open spec fn names_core(toks: Seq<(Token, Span)>, a: int, b: int, ns: Seq<String>) -> bool
    decreases ns.len(),
{
    if ns.len() == 0 {
        a == b
    } else if ns.len() == 1 {
        b == a + 1 && 0 <= a && a < toks.len() && toks[a].0 == Token::Identifier(ns[0])
    } else {
        a + 2 < b && b <= toks.len() && toks[b - 1].0 == Token::Identifier(ns.last())
            && tag_at(toks, b - 2) == Tag::Comma && names_core(toks, a, b - 2, ns.drop_last())
    }
}

/// A list of names with an optional trailing comma after at least one name.
pub open spec fn names_list(toks: Seq<(Token, Span)>, a: int, b: int, ns: Seq<String>) -> bool {
    names_core(toks, a, b, ns) || (ns.len() > 0 && a < b && tag_at(toks, b - 1) == Tag::Comma
        && names_core(toks, a, b - 1, ns))
}

/// The last operand of a chain of comparisons.
pub open spec fn last_term(v: ExprView) -> ExprView {
    match v {
        ExprView::Binary(op, _, r, _) => if op == BinaryOp::And {
            match *r {
                ExprView::Binary(_, _, rr, _) => *rr,
                _ => *r,
            }
        } else {
            *r
        },
        _ => v,
    }
}

// The levels of the grammar, from the loosest binding to the tightest.
// Each relation says that tokens `a..b` derive the tree `v` at its level.
// Where a rule splits the range at an operator or separator, the split is
// found by a search from the left (`*_from`), and `*_at` checks one split.
// The second measure orders the relations that share a range; the third
// bounds a search.

/// `expr := 'lambda' names ':' expr | or_expr`
pub open spec fn derives_expr(toks: Seq<(Token, Span)>, a: int, b: int, v: ExprView) -> bool
    decreases b - a, 100nat, 0int,
{
    derives_or(toks, a, b, v) || (0 <= a < b <= toks.len() && tag_at(toks, a) == Tag::Lambda
        && lambda_from(toks, a, a + 1, b, v))
}

pub open spec fn lambda_from(toks: Seq<(Token, Span)>, a: int, k: int, b: int, v: ExprView) -> bool
    decreases b - a, 99nat, b - k,
{
    if a < k < b { lambda_at(toks, a, k, b, v) || lambda_from(toks, a, k + 1, b, v) } else { false }
}

/// A lambda whose parameter list ends before the colon at `k`.
pub open spec fn lambda_at(toks: Seq<(Token, Span)>, a: int, k: int, b: int, v: ExprView) -> bool
    decreases b - a, 98nat, 0int,
{
    a < k && k + 1 < b && tag_at(toks, k) == Tag::Colon && (match v {
        ExprView::Lambda(ps, body, s) => s == span_of(toks, a, b) && names_list(toks, a + 1, k, ps)
            && derives_expr(toks, k + 1, b, *body),
        _ => false,
    })
}

/// `or_expr := and_expr ('or' and_expr)*`, grouped to the left.
pub open spec fn derives_or(toks: Seq<(Token, Span)>, a: int, b: int, v: ExprView) -> bool
    decreases b - a, 90nat, 0int,
{
    derives_and(toks, a, b, v) || or_from(toks, a, a + 1, b, v)
}

pub open spec fn or_from(toks: Seq<(Token, Span)>, a: int, k: int, b: int, v: ExprView) -> bool
    decreases b - a, 89nat, b - k,
{
    if a < k < b { or_at(toks, a, k, b, v) || or_from(toks, a, k + 1, b, v) } else { false }
}

/// An `or` whose operator is token `k`.
pub open spec fn or_at(toks: Seq<(Token, Span)>, a: int, k: int, b: int, v: ExprView) -> bool
    decreases b - a, 88nat, 0int,
{
    a < k && k + 1 < b && b <= toks.len() && tag_at(toks, k) == Tag::Or && (match v {
        ExprView::Binary(op, l, r, s) => op == BinaryOp::Or && s == joined(*l, *r)
            && derives_or(toks, a, k, *l) && derives_and(toks, k + 1, b, *r),
        _ => false,
    })
}

/// `and_expr := comparison ('and' comparison)*`, grouped to the left.
pub open spec fn derives_and(toks: Seq<(Token, Span)>, a: int, b: int, v: ExprView) -> bool
    decreases b - a, 80nat, 0int,
{
    derives_comparison(toks, a, b, v) || and_from(toks, a, a + 1, b, v)
}

pub open spec fn and_from(toks: Seq<(Token, Span)>, a: int, k: int, b: int, v: ExprView) -> bool
    decreases b - a, 79nat, b - k,
{
    if a < k < b { and_at(toks, a, k, b, v) || and_from(toks, a, k + 1, b, v) } else { false }
}

/// An `and` whose operator is token `k`.
pub open spec fn and_at(toks: Seq<(Token, Span)>, a: int, k: int, b: int, v: ExprView) -> bool
    decreases b - a, 78nat, 0int,
{
    a < k && k + 1 < b && b <= toks.len() && tag_at(toks, k) == Tag::And && (match v {
        ExprView::Binary(op, l, r, s) => op == BinaryOp::And && s == joined(*l, *r)
            && derives_and(toks, a, k, *l) && derives_comparison(toks, k + 1, b, *r),
        _ => false,
    })
}

/// `comparison := sum (cmp_op sum)*`; a chain of two or more comparisons
/// stands for the comparisons of neighbouring operands joined by `and`.
pub open spec fn derives_comparison(toks: Seq<(Token, Span)>, a: int, b: int, v: ExprView) -> bool
    decreases b - a, 70nat, 0int,
{
    derives_sum(toks, a, b, v) || chain_from(toks, a, a + 1, b, v)
}

pub open spec fn chain_from(toks: Seq<(Token, Span)>, a: int, k: int, b: int, v: ExprView) -> bool
    decreases b - a, 69nat, b - k,
{
    if a < k < b { chain_at(toks, a, k, b, v) || chain_from(toks, a, k + 1, b, v) } else { false }
}

/// A chain of comparisons whose last operator is token `k`.
pub open spec fn chain_at(toks: Seq<(Token, Span)>, a: int, k: int, b: int, v: ExprView) -> bool
    decreases b - a, 68nat, 0int,
{
    a < k && k + 1 < b && b <= toks.len() && comparison_of(tag_at(toks, k)) is Some && (match v {
        ExprView::Binary(op, l, r, s) => s == joined(*l, *r) && (
            (op == comparison_of(tag_at(toks, k)).unwrap() && derives_sum(toks, a, k, *l)
                && derives_sum(toks, k + 1, b, *r))
            || (op == BinaryOp::And && chain_from(toks, a, a + 1, k, *l) && (match *r {
                ExprView::Binary(op2, lt, rt, s2) => op2 == comparison_of(tag_at(toks, k)).unwrap()
                    && *lt == last_term(*l) && s2 == joined(*lt, *rt) && derives_sum(toks, k + 1, b, *rt),
                _ => false,
            }))),
        _ => false,
    })
}

/// `sum := product (('+' | '-') product)*`, grouped to the left.
pub open spec fn derives_sum(toks: Seq<(Token, Span)>, a: int, b: int, v: ExprView) -> bool
    decreases b - a, 60nat, 0int,
{
    derives_product(toks, a, b, v) || sum_from(toks, a, a + 1, b, v)
}

pub open spec fn sum_from(toks: Seq<(Token, Span)>, a: int, k: int, b: int, v: ExprView) -> bool
    decreases b - a, 59nat, b - k,
{
    if a < k < b { sum_at(toks, a, k, b, v) || sum_from(toks, a, k + 1, b, v) } else { false }
}

/// A sum or difference whose operator is token `k`.
pub open spec fn sum_at(toks: Seq<(Token, Span)>, a: int, k: int, b: int, v: ExprView) -> bool
    decreases b - a, 58nat, 0int,
{
    a < k && k + 1 < b && b <= toks.len() && additive_of(tag_at(toks, k)) is Some && (match v {
        ExprView::Binary(op, l, r, s) => op == additive_of(tag_at(toks, k)).unwrap() && s == joined(*l, *r)
            && derives_sum(toks, a, k, *l) && derives_product(toks, k + 1, b, *r),
        _ => false,
    })
}

/// `product := unary (('*' | '//' | '/' | '%') unary)*`, grouped to the left.
pub open spec fn derives_product(toks: Seq<(Token, Span)>, a: int, b: int, v: ExprView) -> bool
    decreases b - a, 50nat, 0int,
{
    derives_unary(toks, a, b, v) || product_from(toks, a, a + 1, b, v)
}

pub open spec fn product_from(toks: Seq<(Token, Span)>, a: int, k: int, b: int, v: ExprView) -> bool
    decreases b - a, 49nat, b - k,
{
    if a < k < b { product_at(toks, a, k, b, v) || product_from(toks, a, k + 1, b, v) } else { false }
}

/// A product, quotient or remainder whose operator is token `k`.
pub open spec fn product_at(toks: Seq<(Token, Span)>, a: int, k: int, b: int, v: ExprView) -> bool
    decreases b - a, 48nat, 0int,
{
    a < k && k + 1 < b && b <= toks.len() && multiplicative_of(tag_at(toks, k)) is Some && (match v {
        ExprView::Binary(op, l, r, s) => op == multiplicative_of(tag_at(toks, k)).unwrap()
            && s == joined(*l, *r) && derives_product(toks, a, k, *l) && derives_unary(toks, k + 1, b, *r),
        _ => false,
    })
}

/// `unary := ('not' | '-' | '+') unary | atom`; a minus before an integer
/// literal (other than the least one) makes a negative literal.
pub open spec fn derives_unary(toks: Seq<(Token, Span)>, a: int, b: int, v: ExprView) -> bool
    decreases b - a, 40nat, 0int,
{
    derives_atom(toks, a, b, v) || (0 <= a && a + 1 < b && b <= toks.len()
        && prefix_of(tag_at(toks, a)) is Some && view_span(v) == span_of(toks, a, b) && (match v {
        ExprView::Unary(op, inner, _) => op == prefix_of(tag_at(toks, a)).unwrap()
            && derives_unary(toks, a + 1, b, *inner)
            && !(op == UnaryOp::Negate && (*inner matches ExprView::Literal(Literal::Int(n), _) && n != i64::MIN)),
        ExprView::Literal(Literal::Int(m), _) => tag_at(toks, a) == Tag::Minus && m != i64::MIN
            && derives_unary(toks, a + 1, b, ExprView::Literal(Literal::Int((-m) as i64), span_of(toks, a + 1, b))),
        _ => false,
    }))
}

/// `atom := primary ('.' ident | '(' args ')' | '[' expr ']')*`
pub open spec fn derives_atom(toks: Seq<(Token, Span)>, a: int, b: int, v: ExprView) -> bool
    decreases b - a, 30nat, 0int,
{
    derives_primary(toks, a, b, v) || postfix_from(toks, a, a + 1, b, v)
}

pub open spec fn postfix_from(toks: Seq<(Token, Span)>, a: int, k: int, b: int, v: ExprView) -> bool
    decreases b - a, 29nat, b - k,
{
    if a < k < b { postfix_at(toks, a, k, b, v) || postfix_from(toks, a, k + 1, b, v) } else { false }
}

/// A member access, call or index whose suffix starts at token `k`.
pub open spec fn postfix_at(toks: Seq<(Token, Span)>, a: int, k: int, b: int, v: ExprView) -> bool
    decreases b - a, 28nat, 0int,
{
    0 <= a < k && k + 1 < b && b <= toks.len() && view_span(v) == span_of(toks, a, b) && (match v {
        ExprView::Attribute(obj, attr, _) => k == b - 2 && tag_at(toks, k) == Tag::Dot
            && toks[k + 1].0 == Token::Identifier(attr) && derives_atom(toks, a, k, *obj),
        ExprView::Call(f, args, _) => tag_at(toks, k) == Tag::LParen && derives_atom(toks, a, k, *f)
            && closed_list(toks, k + 1, b, args, Tag::RParen),
        ExprView::Index(obj, idx, _) => tag_at(toks, k) == Tag::LBracket && tag_at(toks, b - 1) == Tag::RBracket
            && derives_atom(toks, a, k, *obj) && derives_expr(toks, k + 1, b - 1, *idx),
        _ => false,
    })
}

/// The literal a token stands for, if it is one.
pub open spec fn literal_of(t: Token) -> Option<Literal> {
    match t {
        Token::Int(i) => Some(Literal::Int(i)),
        Token::Bool(x) => Some(Literal::Bool(x)),
        Token::String(s) => Some(Literal::String(s)),
        Token::Float(f) => Some(Literal::Float(f)),
        Token::NoneKw => Some(Literal::NoneLit),
        _ => None,
    }
}

/// `primary := literal | ident | '[' args ']' | 't' '{' args '}' | '{' '}'
///           | '{' pairs '}' | '{' args '}' | '(' expr ')' | '(' expr ',' args ')'
///           | '(' ')' ')'`
pub open spec fn derives_primary(toks: Seq<(Token, Span)>, a: int, b: int, v: ExprView) -> bool
    decreases b - a, 20nat, 0int,
{
    0 <= a < b <= toks.len() && view_span(v) == span_of(toks, a, b) && (
        (b == a + 1 && (match literal_of(toks[a].0) {
            Some(l) => v == ExprView::Literal(l, span_of(toks, a, b)),
            None => toks[a].0 matches Token::Identifier(n) && v == ExprView::Variable(n, span_of(toks, a, b)),
        }))
        || (tag_at(toks, a) == Tag::LBracket && (v matches ExprView::List(items, _)
            && closed_list(toks, a + 1, b, items, Tag::RBracket)))
        || (a + 1 < b && (toks[a].0 matches Token::Identifier(n) && n@ == "t"@) && tag_at(toks, a + 1) == Tag::LBrace
            && (v matches ExprView::TreeSet(items, _) && closed_list(toks, a + 2, b, items, Tag::RBrace)))
        || (tag_at(toks, a) == Tag::LBrace && (
            (b == a + 2 && tag_at(toks, a + 1) == Tag::RBrace && (v matches ExprView::Dict(ps, _) && ps.len() == 0))
            || (v matches ExprView::Dict(ps, _) && closed_pairs(toks, a + 1, b, ps))
            || (v matches ExprView::SetLit(items, _) && closed_list(toks, a + 1, b, items, Tag::RBrace))))
        || (tag_at(toks, a) == Tag::LParen && (
            (a + 2 < b && tag_at(toks, b - 1) == Tag::RParen
                && derives_expr(toks, a + 1, b - 1, respan(v, span_of(toks, a + 1, b - 1))))
            || (v matches ExprView::Tuple(items, _) && items.len() >= 1 && tuple_from(toks, a, a + 2, b, items))
            || (b == a + 3 && tag_at(toks, a + 1) == Tag::RParen && tag_at(toks, a + 2) == Tag::RParen
                && (v matches ExprView::Tuple(items, _) && items.len() == 0))))
    )
}

pub open spec fn tuple_from(toks: Seq<(Token, Span)>, a: int, k: int, b: int, items: Seq<ExprView>) -> bool
    decreases b - a, 19nat, b - k,
{
    if a < k < b { tuple_at(toks, a, k, b, items) || tuple_from(toks, a, k + 1, b, items) } else { false }
}

/// A parenthesized tuple whose first element ends before the comma at `k`.
pub open spec fn tuple_at(toks: Seq<(Token, Span)>, a: int, k: int, b: int, items: Seq<ExprView>) -> bool
    decreases b - a, 18nat, 0int,
{
    a + 1 < k && k < b && items.len() >= 1 && tag_at(toks, k) == Tag::Comma
        && derives_expr(toks, a + 1, k, items[0]) && closed_list(toks, k + 1, b, items.drop_first(), Tag::RParen)
}

/// `args close`, where the closing token is the last of the range.
pub open spec fn closed_list(toks: Seq<(Token, Span)>, a: int, b: int, items: Seq<ExprView>, close: Tag) -> bool
    decreases b - a, 112nat, 0int,
{
    a < b && b <= toks.len() && tag_at(toks, b - 1) == close && expr_list(toks, a, b - 1, items)
}

/// `args := (expr (',' expr)* ','?)?`
pub open spec fn expr_list(toks: Seq<(Token, Span)>, a: int, b: int, items: Seq<ExprView>) -> bool
    decreases b - a, 111nat, 0int,
{
    (items.len() == 0 && a == b) || separated(toks, a, b, items)
        || (items.len() > 0 && a < b && tag_at(toks, b - 1) == Tag::Comma && separated(toks, a, b - 1, items))
}

/// `expr (',' expr)*`, with at least one element.
pub open spec fn separated(toks: Seq<(Token, Span)>, a: int, b: int, items: Seq<ExprView>) -> bool
    decreases b - a, 110nat, 0int,
{
    (items.len() == 1 && derives_expr(toks, a, b, items[0]))
        || (items.len() > 1 && separated_from(toks, a, a + 1, b, items))
}

pub open spec fn separated_from(toks: Seq<(Token, Span)>, a: int, k: int, b: int, items: Seq<ExprView>) -> bool
    decreases b - a, 109nat, b - k,
{
    if a < k < b { separated_at(toks, a, k, b, items) || separated_from(toks, a, k + 1, b, items) } else { false }
}

/// A list whose last comma is token `k`.
pub open spec fn separated_at(toks: Seq<(Token, Span)>, a: int, k: int, b: int, items: Seq<ExprView>) -> bool
    decreases b - a, 108nat, 0int,
{
    a < k && k + 1 < b && items.len() > 1 && tag_at(toks, k) == Tag::Comma
        && separated(toks, a, k, items.drop_last()) && derives_expr(toks, k + 1, b, items.last())
}

/// `pairs '}'`, where `pairs := expr ':' expr (',' expr ':' expr)* ','?`.
pub open spec fn closed_pairs(toks: Seq<(Token, Span)>, a: int, b: int, ps: Seq<(ExprView, ExprView)>) -> bool
    decreases b - a, 112nat, 0int,
{
    a < b && b <= toks.len() && tag_at(toks, b - 1) == Tag::RBrace && ps.len() > 0 && (
        pairs_separated(toks, a, b - 1, ps)
        || (a < b - 1 && tag_at(toks, b - 2) == Tag::Comma && pairs_separated(toks, a, b - 2, ps)))
}

/// `expr ':' expr (',' expr ':' expr)*`, with at least one pair.
pub open spec fn pairs_separated(toks: Seq<(Token, Span)>, a: int, b: int, ps: Seq<(ExprView, ExprView)>) -> bool
    decreases b - a, 110nat, 0int,
{
    (ps.len() == 1 && pair_from(toks, a, a + 1, b, ps[0]))
        || (ps.len() > 1 && pairs_from(toks, a, a + 1, b, ps))
}

pub open spec fn pair_from(toks: Seq<(Token, Span)>, a: int, k: int, b: int, p: (ExprView, ExprView)) -> bool
    decreases b - a, 107nat, b - k,
{
    if a < k < b { pair_at(toks, a, k, b, p) || pair_from(toks, a, k + 1, b, p) } else { false }
}

/// A key ending before the colon at `k` and a value after it.
pub open spec fn pair_at(toks: Seq<(Token, Span)>, a: int, k: int, b: int, p: (ExprView, ExprView)) -> bool
    decreases b - a, 106nat, 0int,
{
    a < k && k + 1 < b && tag_at(toks, k) == Tag::Colon && derives_expr(toks, a, k, p.0)
        && derives_expr(toks, k + 1, b, p.1)
}

pub open spec fn pairs_from(toks: Seq<(Token, Span)>, a: int, k: int, b: int, ps: Seq<(ExprView, ExprView)>) -> bool
    decreases b - a, 109nat, b - k,
{
    if a < k < b { pairs_at(toks, a, k, b, ps) || pairs_from(toks, a, k + 1, b, ps) } else { false }
}

/// Pairs whose last comma is token `k`.
pub open spec fn pairs_at(toks: Seq<(Token, Span)>, a: int, k: int, b: int, ps: Seq<(ExprView, ExprView)>) -> bool
    decreases b - a, 108nat, 0int,
{
    a < k && k + 1 < b && ps.len() > 1 && tag_at(toks, k) == Tag::Comma
        && pairs_separated(toks, a, k, ps.drop_last()) && pair_from(toks, k + 1, k + 2, b, ps.last())
}

/// `tuple_or_expr := expr (',' expr)* ','?`: one expression, with or
/// without a trailing comma, stands for itself; two or more make a tuple.
pub open spec fn derives_tuple_or_expr(toks: Seq<(Token, Span)>, a: int, b: int, v: ExprView) -> bool {
    derives_expr(toks, a, b, v)
        || (a < b && tag_at(toks, b - 1) == Tag::Comma && derives_expr(toks, a, b - 1, v))
        || (v matches ExprView::Tuple(items, s) && items.len() >= 2 && s == span_of(toks, a, b)
            && expr_list(toks, a, b, items))
}


/// The view of a statement.
pub enum StmtView {
    If(ExprView, Seq<StmtView>, Seq<(ExprView, Seq<StmtView>)>, Option<Seq<StmtView>>, Span),
    While(ExprView, Seq<StmtView>, Span),
    For(String, ExprView, Seq<StmtView>, Span),
    Def(String, Seq<String>, Seq<StmtView>, Span),
    Return(ExprView, Span),
    Assign(ExprView, ExprView, Span),
    Class(String, Seq<(String, Seq<String>, Seq<StmtView>)>, Seq<(String, ExprView)>, Span),
    Expr(ExprView, Span),
    Break(Span),
    Continue(Span),
    Pass(Span),
}

/// The view of a statement with its span.
pub open spec fn stmt_view(st: StmtS) -> StmtView
    decreases st, 0nat,
{
    let s = st.1;
    match st.0 {
        Stmt::If { condition, then_block, elif_blocks, else_block } => StmtView::If(
            expr_view(condition),
            stmts_view(then_block@),
            elifs_view(elif_blocks@),
            match else_block {
                Some(b) => Some(stmts_view(b@)),
                None => None,
            },
            s,
        ),
        Stmt::While { condition, body } => StmtView::While(expr_view(condition), stmts_view(body@), s),
        Stmt::For { var, iterable, body } => StmtView::For(var, expr_view(iterable), stmts_view(body@), s),
        Stmt::Def { name, params, body } => StmtView::Def(name, params@, stmts_view(body@), s),
        Stmt::Return(e) => StmtView::Return(expr_view(e), s),
        Stmt::Assign { target, value } => StmtView::Assign(expr_view(target), expr_view(value), s),
        Stmt::Class { name, methods, attributes } =>
            StmtView::Class(name, methods_view(methods@), attrs_view(attributes@), s),
        Stmt::Expr(e) => StmtView::Expr(expr_view(e), s),
        Stmt::Break => StmtView::Break(s),
        Stmt::Continue => StmtView::Continue(s),
        Stmt::Pass => StmtView::Pass(s),
    }
}

/// The views of a sequence of statements.
pub open spec fn stmts_view(v: Seq<StmtS>) -> Seq<StmtView>
    decreases v, 1nat,
{
    if v.len() == 0 {
        Seq::empty()
    } else {
        stmts_view(v.subrange(0, v.len() - 1)).push(stmt_view(v[v.len() - 1]))
    }
}

/// The views of the `elif` branches of an `if`.
pub open spec fn elifs_view(v: Seq<(ExprS, Vec<StmtS>)>) -> Seq<(ExprView, Seq<StmtView>)>
    decreases v, 1nat,
{
    if v.len() == 0 {
        Seq::empty()
    } else {
        elifs_view(v.subrange(0, v.len() - 1)).push(
            (expr_view(v[v.len() - 1].0), stmts_view(v[v.len() - 1].1@)),
        )
    }
}

/// The views of the methods of a class: name, parameters and body.
pub open spec fn methods_view(v: Seq<MethodDef>) -> Seq<(String, Seq<String>, Seq<StmtView>)>
    decreases v, 1nat,
{
    if v.len() == 0 {
        Seq::empty()
    } else {
        methods_view(v.subrange(0, v.len() - 1)).push(method_view(v[v.len() - 1]))
    }
}

/// The view of one method.
pub open spec fn method_view(m: MethodDef) -> (String, Seq<String>, Seq<StmtView>)
    decreases m, 0nat,
{
    (m.name, m.params@, stmts_view(m.body@))
}

/// The views of the attributes of a class.
pub open spec fn attrs_view(v: Seq<(String, ExprS)>) -> Seq<(String, ExprView)>
    decreases v.len(),
{
    if v.len() == 0 {
        Seq::empty()
    } else {
        attrs_view(v.subrange(0, v.len() - 1)).push((v[v.len() - 1].0, expr_view(v[v.len() - 1].1)))
    }
}

pub proof fn lemma_stmts_view_push(v: Seq<StmtS>, e: StmtS)
    ensures
        stmts_view(v.push(e)) == stmts_view(v).push(stmt_view(e)),
        stmts_view(v).len() == v.len(),
    decreases v.len(),
{
    assert(v.push(e).subrange(0, v.len() as int) =~= v);
    if v.len() > 0 {
        lemma_stmts_view_push(v.subrange(0, v.len() - 1), v[v.len() - 1]);
        assert(v.subrange(0, v.len() - 1).push(v[v.len() - 1]) =~= v);
    }
}

pub proof fn lemma_stmts_view_len(v: Seq<StmtS>)
    ensures
        stmts_view(v).len() == v.len(),
    decreases v.len(),
{
    if v.len() > 0 {
        lemma_stmts_view_len(v.subrange(0, v.len() - 1));
    }
}

pub proof fn lemma_stmts_view_append(v: Seq<StmtS>, w: Seq<StmtS>)
    ensures
        stmts_view(v + w) == stmts_view(v) + stmts_view(w),
    decreases w.len(),
{
    if w.len() == 0 {
        assert(v + w =~= v);
        assert(stmts_view(v) + stmts_view(w) =~= stmts_view(v));
    } else {
        let w0 = w.subrange(0, w.len() - 1);
        lemma_stmts_view_append(v, w0);
        lemma_stmts_view_push(v + w0, w.last());
        lemma_stmts_view_push(w0, w.last());
        assert((v + w0).push(w.last()) =~= v + w);
        assert(w0.push(w.last()) =~= w);
        assert((stmts_view(v) + stmts_view(w0)).push(stmt_view(w.last()))
            =~= stmts_view(v) + stmts_view(w0).push(stmt_view(w.last())));
    }
}

pub proof fn lemma_elifs_view_push(v: Seq<(ExprS, Vec<StmtS>)>, e: (ExprS, Vec<StmtS>))
    ensures
        elifs_view(v.push(e)) == elifs_view(v).push((expr_view(e.0), stmts_view(e.1@))),
{
    assert(v.push(e).subrange(0, v.len() as int) =~= v);
}

pub proof fn lemma_methods_view_push(v: Seq<MethodDef>, m: MethodDef)
    ensures
        methods_view(v.push(m)) == methods_view(v).push(method_view(m)),
{
    assert(v.push(m).subrange(0, v.len() as int) =~= v);
}

/// The first index at or after `a` that is no newline token.
pub open spec fn skip_newlines(toks: Seq<(Token, Span)>, a: int) -> int
    decreases toks.len() - a,
{
    if 0 <= a < toks.len() && tag_at(toks, a) == Tag::Newline { skip_newlines(toks, a + 1) } else { a }
}

/// `simple_stmt := 'return' tuple_or_expr | 'break' | 'continue' | 'pass'
///               | tuple_or_expr '=' tuple_or_expr | tuple_or_expr`; the
/// target of an assignment takes the span of the whole statement.
pub open spec fn derives_simple_stmt(toks: Seq<(Token, Span)>, a: int, b: int, sv: StmtView) -> bool {
    0 <= a < b <= toks.len() && (
        (tag_at(toks, a) == Tag::Return && (sv matches StmtView::Return(e, s) && s == span_of(toks, a, b)
            && derives_tuple_or_expr(toks, a + 1, b, e)))
        || (b == a + 1 && tag_at(toks, a) == Tag::Break && sv == StmtView::Break(span_of(toks, a, b)))
        || (b == a + 1 && tag_at(toks, a) == Tag::Continue && sv == StmtView::Continue(span_of(toks, a, b)))
        || (b == a + 1 && tag_at(toks, a) == Tag::Pass && sv == StmtView::Pass(span_of(toks, a, b)))
        || (sv matches StmtView::Assign(t, v, s) && s == span_of(toks, a, b) && view_span(t) == s
            && exists|k: int, s0: Span| a < k < b && tag_at(toks, k) == Tag::Equal
                && #[trigger] derives_tuple_or_expr(toks, a, k, respan(t, s0))
                && derives_tuple_or_expr(toks, k + 1, b, v))
        || (sv matches StmtView::Expr(e, s) && s == span_of(toks, a, b) && derives_tuple_or_expr(toks, a, b, e))
    )
}

/// `simple_stmt (';' simple_stmt)*`
pub open spec fn derives_semis(toks: Seq<(Token, Span)>, a: int, b: int, svs: Seq<StmtView>) -> bool
    decreases b - a, 3nat, 0int,
{
    (svs.len() == 1 && derives_simple_stmt(toks, a, b, svs[0]))
        || (svs.len() > 1 && semis_from(toks, a, a + 1, b, svs))
}

pub open spec fn semis_from(toks: Seq<(Token, Span)>, a: int, k: int, b: int, svs: Seq<StmtView>) -> bool
    decreases b - a, 2nat, b - k,
{
    if a < k < b { semis_at(toks, a, k, b, svs) || semis_from(toks, a, k + 1, b, svs) } else { false }
}

/// Statements whose last separating semicolon is token `k`.
pub open spec fn semis_at(toks: Seq<(Token, Span)>, a: int, k: int, b: int, svs: Seq<StmtView>) -> bool
    decreases b - a, 1nat, 0int,
{
    a < k && k < b && svs.len() > 1 && tag_at(toks, k) == Tag::Semicolon
        && derives_semis(toks, a, k, svs.drop_last()) && derives_simple_stmt(toks, k + 1, b, svs.last())
}

/// Statements separated by semicolons, with an optional trailing semicolon.
pub open spec fn derives_semis_opt(toks: Seq<(Token, Span)>, a: int, b: int, svs: Seq<StmtView>) -> bool {
    derives_semis(toks, a, b, svs)
        || (a < b && tag_at(toks, b - 1) == Tag::Semicolon && derives_semis(toks, a, b - 1, svs))
}

/// `simple_line := simple_stmt (';' simple_stmt)* ';'? (newline | end)`
pub open spec fn derives_simple_line(toks: Seq<(Token, Span)>, a: int, b: int, svs: Seq<StmtView>) -> bool {
    (b == toks.len() && derives_semis_opt(toks, a, b, svs))
        || (a < b && b <= toks.len() && tag_at(toks, b - 1) == Tag::Newline && derives_semis_opt(toks, a, b - 1, svs))
}

/// Whether a token starts a compound statement.
pub open spec fn starts_compound(t: Tag) -> bool {
    t == Tag::Class || t == Tag::Def || t == Tag::If || t == Tag::While || t == Tag::For
}

/// `lines := line*`; the statements of the lines one after another.
pub open spec fn derives_lines(toks: Seq<(Token, Span)>, a: int, b: int, svs: Seq<StmtView>) -> bool
    decreases b - a, 100nat, 0int,
{
    (a == b && svs.len() == 0) || lines_from(toks, a, a, b, svs)
}

pub open spec fn lines_from(toks: Seq<(Token, Span)>, a: int, k: int, b: int, svs: Seq<StmtView>) -> bool
    decreases b - a, 99nat, b - k,
{
    if a <= k < b { lines_count(toks, a, k, b, svs, 1) || lines_from(toks, a, k + 1, b, svs) } else { false }
}

pub open spec fn lines_count(toks: Seq<(Token, Span)>, a: int, k: int, b: int, svs: Seq<StmtView>, m: int) -> bool
    decreases b - a, 98nat, svs.len() + 1 - m,
{
    if 1 <= m <= svs.len() {
        lines_at(toks, a, k, b, svs, m) || lines_count(toks, a, k, b, svs, m + 1)
    } else {
        false
    }
}

/// Lines whose last line starts at token `k` and gives the last `m` statements.
pub open spec fn lines_at(toks: Seq<(Token, Span)>, a: int, k: int, b: int, svs: Seq<StmtView>, m: int) -> bool
    decreases b - a, 97nat, 0int,
{
    a <= k < b && 1 <= m <= svs.len() && derives_line(toks, k, b, svs.subrange(svs.len() - m, svs.len() as int))
        && derives_lines(toks, a, k, svs.subrange(0, svs.len() - m))
}

/// `line := newline* (compound | simple_line) newline*`
pub open spec fn derives_line(toks: Seq<(Token, Span)>, a: int, b: int, svs: Seq<StmtView>) -> bool
    decreases b - a, 96nat, 0int,
{
    0 <= a && skip_newlines(toks, a) < toks.len() && line_from(toks, a, skip_newlines(toks, a) + 1, b, svs)
}

pub open spec fn line_from(toks: Seq<(Token, Span)>, a: int, q: int, b: int, svs: Seq<StmtView>) -> bool
    decreases b - a, 95nat, b + 1 - q,
{
    if a < q <= b { line_at(toks, a, q, b, svs) || line_from(toks, a, q + 1, b, svs) } else { false }
}

/// A line whose statements end before token `q`.
pub open spec fn line_at(toks: Seq<(Token, Span)>, a: int, q: int, b: int, svs: Seq<StmtView>) -> bool
    decreases b - a, 94nat, 0int,
{
    let p = skip_newlines(toks, a);
    a <= p < q && q <= b && b == skip_newlines(toks, q) && p < toks.len() && (
        if starts_compound(tag_at(toks, p)) {
            svs.len() == 1 && derives_compound(toks, p, q, svs[0])
        } else {
            derives_simple_line(toks, p, q, svs)
        })
}

/// `compound := 'def' ident params block | 'if' expr block ('elif' expr block)* ('else' block)?
///             | 'while' expr block | 'for' ident 'in' expr block
///             | 'class' ident ':' newline+ indent method+ dedent`
pub open spec fn derives_compound(toks: Seq<(Token, Span)>, a: int, b: int, sv: StmtView) -> bool
    decreases b - a, 90nat, 0int,
{
    0 <= a < b <= toks.len() && (match sv {
        StmtView::Def(name, params, body, s) => s == span_of(toks, a, b)
            && derives_method(toks, a, b, (name, params, body)),
        StmtView::If(c, then_block, elifs, els, s) => s == span_of(toks, a, b) && tag_at(toks, a) == Tag::If
            && derives_if(toks, a, b, c, then_block, elifs, els),
        StmtView::While(c, body, s) => s == span_of(toks, a, b) && tag_at(toks, a) == Tag::While
            && derives_cond_block(toks, a + 1, b, c, body),
        StmtView::For(var, it, body, s) => s == span_of(toks, a, b) && tag_at(toks, a) == Tag::For && a + 3 < b
            && toks[a + 1].0 == Token::Identifier(var) && tag_at(toks, a + 2) == Tag::In
            && derives_cond_block(toks, a + 3, b, it, body),
        StmtView::Class(name, ms, attrs, s) => s == span_of(toks, a, b) && tag_at(toks, a) == Tag::Class
            && attrs.len() == 0 && a + 4 <= b && toks[a + 1].0 == Token::Identifier(name)
            && tag_at(toks, a + 2) == Tag::Colon && tag_at(toks, a + 3) == Tag::Newline
            && a + 4 <= skip_newlines(toks, a + 4) && skip_newlines(toks, a + 4) + 1 < b
            && tag_at(toks, skip_newlines(toks, a + 4)) == Tag::Indent
            && tag_at(toks, b - 1) == Tag::Dedent && ms.len() > 0
            && derives_methods(toks, skip_newlines(toks, a + 4) + 1, b - 1, ms),
        _ => false,
    })
}

/// An `if` statement, with its `elif` branches and its `else` block if any.
pub open spec fn derives_if(toks: Seq<(Token, Span)>, a: int, b: int, c: ExprView, then_block: Seq<StmtView>,
    elifs: Seq<(ExprView, Seq<StmtView>)>, els: Option<Seq<StmtView>>) -> bool
    decreases b - a, 89nat, 0int,
{
    match els {
        Some(eb) => else_from(toks, a, a + 1, b, c, then_block, elifs, eb),
        None => derives_if_elifs(toks, a, b, c, then_block, elifs),
    }
}

pub open spec fn else_from(toks: Seq<(Token, Span)>, a: int, k: int, b: int, c: ExprView, then_block: Seq<StmtView>,
    elifs: Seq<(ExprView, Seq<StmtView>)>, eb: Seq<StmtView>) -> bool
    decreases b - a, 88nat, b - k,
{
    if a < k < b {
        else_at(toks, a, k, b, c, then_block, elifs, eb) || else_from(toks, a, k + 1, b, c, then_block, elifs, eb)
    } else {
        false
    }
}

/// An `else` whose keyword is token `k`.
pub open spec fn else_at(toks: Seq<(Token, Span)>, a: int, k: int, b: int, c: ExprView, then_block: Seq<StmtView>,
    elifs: Seq<(ExprView, Seq<StmtView>)>, eb: Seq<StmtView>) -> bool
    decreases b - a, 87nat, 0int,
{
    a < k < b && tag_at(toks, k) == Tag::Else && derives_if_elifs(toks, a, k, c, then_block, elifs)
        && derives_block(toks, k + 1, b, eb)
}

/// `'if' expr block ('elif' expr block)*`
pub open spec fn derives_if_elifs(toks: Seq<(Token, Span)>, a: int, b: int, c: ExprView, then_block: Seq<StmtView>,
    elifs: Seq<(ExprView, Seq<StmtView>)>) -> bool
    decreases b - a, 86nat, 0int,
{
    if elifs.len() == 0 {
        a < b && derives_cond_block(toks, a + 1, b, c, then_block)
    } else {
        elifs_from(toks, a, a + 1, b, c, then_block, elifs)
    }
}

pub open spec fn elifs_from(toks: Seq<(Token, Span)>, a: int, k: int, b: int, c: ExprView, then_block: Seq<StmtView>,
    elifs: Seq<(ExprView, Seq<StmtView>)>) -> bool
    decreases b - a, 85nat, b - k,
{
    if a < k < b {
        elifs_at(toks, a, k, b, c, then_block, elifs) || elifs_from(toks, a, k + 1, b, c, then_block, elifs)
    } else {
        false
    }
}

/// Branches whose last `elif` keyword is token `k`.
pub open spec fn elifs_at(toks: Seq<(Token, Span)>, a: int, k: int, b: int, c: ExprView, then_block: Seq<StmtView>,
    elifs: Seq<(ExprView, Seq<StmtView>)>) -> bool
    decreases b - a, 84nat, 0int,
{
    a < k < b && elifs.len() > 0 && tag_at(toks, k) == Tag::Elif
        && derives_if_elifs(toks, a, k, c, then_block, elifs.drop_last())
        && derives_cond_block(toks, k + 1, b, elifs.last().0, elifs.last().1)
}

/// `method+`, one after another.
pub open spec fn derives_methods(toks: Seq<(Token, Span)>, a: int, b: int,
    ms: Seq<(String, Seq<String>, Seq<StmtView>)>) -> bool
    decreases b - a, 83nat, 0int,
{
    (a == b && ms.len() == 0) || (ms.len() > 0 && methods_from(toks, a, a, b, ms))
}

pub open spec fn methods_from(toks: Seq<(Token, Span)>, a: int, k: int, b: int,
    ms: Seq<(String, Seq<String>, Seq<StmtView>)>) -> bool
    decreases b - a, 82nat, b - k,
{
    if a <= k < b { methods_at(toks, a, k, b, ms) || methods_from(toks, a, k + 1, b, ms) } else { false }
}

/// Methods whose last method starts at token `k`.
pub open spec fn methods_at(toks: Seq<(Token, Span)>, a: int, k: int, b: int,
    ms: Seq<(String, Seq<String>, Seq<StmtView>)>) -> bool
    decreases b - a, 81nat, 0int,
{
    a <= k < b && ms.len() > 0 && derives_methods(toks, a, k, ms.drop_last()) && derives_method(toks, k, b, ms.last())
}

/// `method := 'def' ident '(' names ')' block`
pub open spec fn derives_method(toks: Seq<(Token, Span)>, a: int, b: int, m: (String, Seq<String>, Seq<StmtView>)) -> bool
    decreases b - a, 80nat, 0int,
{
    0 <= a && a + 3 < b && b <= toks.len() && tag_at(toks, a) == Tag::Def && toks[a + 1].0 == Token::Identifier(m.0)
        && tag_at(toks, a + 2) == Tag::LParen && method_from(toks, a, a + 4, b, m)
}

pub open spec fn method_from(toks: Seq<(Token, Span)>, a: int, k: int, b: int, m: (String, Seq<String>, Seq<StmtView>)) -> bool
    decreases b - a, 79nat, b - k,
{
    if a < k < b { method_at(toks, a, k, b, m) || method_from(toks, a, k + 1, b, m) } else { false }
}

/// A method whose body starts at token `k`, right after the `)` of its parameters.
pub open spec fn method_at(toks: Seq<(Token, Span)>, a: int, k: int, b: int, m: (String, Seq<String>, Seq<StmtView>)) -> bool
    decreases b - a, 78nat, 0int,
{
    a + 4 <= k < b && tag_at(toks, k - 1) == Tag::RParen && names_list(toks, a + 3, k - 1, m.1)
        && derives_block(toks, k, b, m.2)
}

/// `expr block`
pub open spec fn derives_cond_block(toks: Seq<(Token, Span)>, a: int, b: int, c: ExprView, body: Seq<StmtView>) -> bool
    decreases b - a, 77nat, 0int,
{
    cond_from(toks, a, a + 1, b, c, body)
}

pub open spec fn cond_from(toks: Seq<(Token, Span)>, a: int, k: int, b: int, c: ExprView, body: Seq<StmtView>) -> bool
    decreases b - a, 76nat, b - k,
{
    if a < k < b { cond_at(toks, a, k, b, c, body) || cond_from(toks, a, k + 1, b, c, body) } else { false }
}

/// An expression ending before token `k` and a block from `k` on.
pub open spec fn cond_at(toks: Seq<(Token, Span)>, a: int, k: int, b: int, c: ExprView, body: Seq<StmtView>) -> bool
    decreases b - a, 75nat, 0int,
{
    a < k < b && derives_expr(toks, a, k, c) && derives_block(toks, k, b, body)
}

/// `block := ':' newline+ indent line* dedent | ':' simple_line`
pub open spec fn derives_block(toks: Seq<(Token, Span)>, a: int, b: int, svs: Seq<StmtView>) -> bool
    decreases b - a, 70nat, 0int,
{
    0 <= a && a + 1 < b && b <= toks.len() && tag_at(toks, a) == Tag::Colon && (
        (tag_at(toks, a + 1) == Tag::Newline && a + 2 <= skip_newlines(toks, a + 2) && skip_newlines(toks, a + 2) + 1 < b
            && tag_at(toks, skip_newlines(toks, a + 2)) == Tag::Indent && tag_at(toks, b - 1) == Tag::Dedent
            && derives_lines(toks, skip_newlines(toks, a + 2) + 1, b - 1, svs))
        || derives_simple_line(toks, a + 1, b, svs))
}

/// `program := newline* line*`: the statements of a whole token sequence.
pub open spec fn derives_program(toks: Seq<(Token, Span)>, svs: Seq<StmtView>) -> bool {
    derives_lines(toks, skip_newlines(toks, 0), toks.len() as int, svs)
}

/// A split at `k0` is found by the search from any `k` up to it.
pub proof fn lemma_lambda_from(toks: Seq<(Token, Span)>, a: int, k: int, k0: int, b: int, v: ExprView)
    requires
        a < k <= k0 < b,
        lambda_at(toks, a, k0, b, v),
    ensures
        lambda_from(toks, a, k, b, v),
    decreases k0 - k,
{
    if k < k0 {
        lemma_lambda_from(toks, a, k + 1, k0, b, v);
    }
}

/// A split at `k0` is found by the search from any `k` up to it.
pub proof fn lemma_or_from(toks: Seq<(Token, Span)>, a: int, k: int, k0: int, b: int, v: ExprView)
    requires
        a < k <= k0 < b,
        or_at(toks, a, k0, b, v),
    ensures
        or_from(toks, a, k, b, v),
    decreases k0 - k,
{
    if k < k0 {
        lemma_or_from(toks, a, k + 1, k0, b, v);
    }
}

/// A split at `k0` is found by the search from any `k` up to it.
pub proof fn lemma_and_from(toks: Seq<(Token, Span)>, a: int, k: int, k0: int, b: int, v: ExprView)
    requires
        a < k <= k0 < b,
        and_at(toks, a, k0, b, v),
    ensures
        and_from(toks, a, k, b, v),
    decreases k0 - k,
{
    if k < k0 {
        lemma_and_from(toks, a, k + 1, k0, b, v);
    }
}

/// A split at `k0` is found by the search from any `k` up to it.
pub proof fn lemma_chain_from(toks: Seq<(Token, Span)>, a: int, k: int, k0: int, b: int, v: ExprView)
    requires
        a < k <= k0 < b,
        chain_at(toks, a, k0, b, v),
    ensures
        chain_from(toks, a, k, b, v),
    decreases k0 - k,
{
    if k < k0 {
        lemma_chain_from(toks, a, k + 1, k0, b, v);
    }
}

/// A split at `k0` is found by the search from any `k` up to it.
pub proof fn lemma_sum_from(toks: Seq<(Token, Span)>, a: int, k: int, k0: int, b: int, v: ExprView)
    requires
        a < k <= k0 < b,
        sum_at(toks, a, k0, b, v),
    ensures
        sum_from(toks, a, k, b, v),
    decreases k0 - k,
{
    if k < k0 {
        lemma_sum_from(toks, a, k + 1, k0, b, v);
    }
}

/// A split at `k0` is found by the search from any `k` up to it.
pub proof fn lemma_product_from(toks: Seq<(Token, Span)>, a: int, k: int, k0: int, b: int, v: ExprView)
    requires
        a < k <= k0 < b,
        product_at(toks, a, k0, b, v),
    ensures
        product_from(toks, a, k, b, v),
    decreases k0 - k,
{
    if k < k0 {
        lemma_product_from(toks, a, k + 1, k0, b, v);
    }
}

/// A split at `k0` is found by the search from any `k` up to it.
pub proof fn lemma_postfix_from(toks: Seq<(Token, Span)>, a: int, k: int, k0: int, b: int, v: ExprView)
    requires
        a < k <= k0 < b,
        postfix_at(toks, a, k0, b, v),
    ensures
        postfix_from(toks, a, k, b, v),
    decreases k0 - k,
{
    if k < k0 {
        lemma_postfix_from(toks, a, k + 1, k0, b, v);
    }
}

/// A split at `k0` is found by the search from any `k` up to it.
pub proof fn lemma_tuple_from(toks: Seq<(Token, Span)>, a: int, k: int, k0: int, b: int, v: Seq<ExprView>)
    requires
        a < k <= k0 < b,
        tuple_at(toks, a, k0, b, v),
    ensures
        tuple_from(toks, a, k, b, v),
    decreases k0 - k,
{
    if k < k0 {
        lemma_tuple_from(toks, a, k + 1, k0, b, v);
    }
}

/// A split at `k0` is found by the search from any `k` up to it.
pub proof fn lemma_separated_from(toks: Seq<(Token, Span)>, a: int, k: int, k0: int, b: int, v: Seq<ExprView>)
    requires
        a < k <= k0 < b,
        separated_at(toks, a, k0, b, v),
    ensures
        separated_from(toks, a, k, b, v),
    decreases k0 - k,
{
    if k < k0 {
        lemma_separated_from(toks, a, k + 1, k0, b, v);
    }
}

/// A split at `k0` is found by the search from any `k` up to it.
pub proof fn lemma_pair_from(toks: Seq<(Token, Span)>, a: int, k: int, k0: int, b: int, v: (ExprView, ExprView))
    requires
        a < k <= k0 < b,
        pair_at(toks, a, k0, b, v),
    ensures
        pair_from(toks, a, k, b, v),
    decreases k0 - k,
{
    if k < k0 {
        lemma_pair_from(toks, a, k + 1, k0, b, v);
    }
}

/// A split at `k0` is found by the search from any `k` up to it.
pub proof fn lemma_pairs_from(toks: Seq<(Token, Span)>, a: int, k: int, k0: int, b: int, v: Seq<(ExprView, ExprView)>)
    requires
        a < k <= k0 < b,
        pairs_at(toks, a, k0, b, v),
    ensures
        pairs_from(toks, a, k, b, v),
    decreases k0 - k,
{
    if k < k0 {
        lemma_pairs_from(toks, a, k + 1, k0, b, v);
    }
}

/// A split at `k0` is found by the search from any `k` up to it.
pub proof fn lemma_semis_from(toks: Seq<(Token, Span)>, a: int, k: int, k0: int, b: int, v: Seq<StmtView>)
    requires
        a < k <= k0 <= b,
        semis_at(toks, a, k0, b, v),
    ensures
        semis_from(toks, a, k, b, v),
    decreases k0 - k,
{
    if k < k0 {
        lemma_semis_from(toks, a, k + 1, k0, b, v);
    }
}

/// A split at `k0` is found by the search from any `k` up to it.
pub proof fn lemma_line_from(toks: Seq<(Token, Span)>, a: int, k: int, k0: int, b: int, v: Seq<StmtView>)
    requires
        a < k <= k0 <= b,
        line_at(toks, a, k0, b, v),
    ensures
        line_from(toks, a, k, b, v),
    decreases k0 - k,
{
    if k < k0 {
        lemma_line_from(toks, a, k + 1, k0, b, v);
    }
}


/// A split at `k0` is found by the search from any `k` up to it.
pub proof fn lemma_method_from(toks: Seq<(Token, Span)>, a: int, k: int, k0: int, b: int, v: (String, Seq<String>, Seq<StmtView>))
    requires
        a < k <= k0 <= b,
        method_at(toks, a, k0, b, v),
    ensures
        method_from(toks, a, k, b, v),
    decreases k0 - k,
{
    if k < k0 {
        lemma_method_from(toks, a, k + 1, k0, b, v);
    }
}


/// A split at `k0` is found by the search from any `k` up to it.
pub proof fn lemma_methods_from(toks: Seq<(Token, Span)>, a: int, k: int, k0: int, b: int,
    ms: Seq<(String, Seq<String>, Seq<StmtView>)>)
    requires
        a <= k <= k0 < b,
        methods_at(toks, a, k0, b, ms),
    ensures
        methods_from(toks, a, k, b, ms),
    decreases k0 - k,
{
    if k < k0 {
        lemma_methods_from(toks, a, k + 1, k0, b, ms);
    }
}

/// A split at `k0` is found by the search from any `k` up to it.
pub proof fn lemma_cond_from(toks: Seq<(Token, Span)>, a: int, k: int, k0: int, b: int, c: ExprView, body: Seq<StmtView>)
    requires
        a < k <= k0 < b,
        cond_at(toks, a, k0, b, c, body),
    ensures
        cond_from(toks, a, k, b, c, body),
    decreases k0 - k,
{
    if k < k0 {
        lemma_cond_from(toks, a, k + 1, k0, b, c, body);
    }
}

/// A split at `k0` is found by the search from any `k` up to it.
pub proof fn lemma_elifs_from(toks: Seq<(Token, Span)>, a: int, k: int, k0: int, b: int, c: ExprView,
    then_block: Seq<StmtView>, elifs: Seq<(ExprView, Seq<StmtView>)>)
    requires
        a < k <= k0 < b,
        elifs_at(toks, a, k0, b, c, then_block, elifs),
    ensures
        elifs_from(toks, a, k, b, c, then_block, elifs),
    decreases k0 - k,
{
    if k < k0 {
        lemma_elifs_from(toks, a, k + 1, k0, b, c, then_block, elifs);
    }
}

/// A split at `k0` is found by the search from any `k` up to it.
pub proof fn lemma_else_from(toks: Seq<(Token, Span)>, a: int, k: int, k0: int, b: int, c: ExprView,
    then_block: Seq<StmtView>, elifs: Seq<(ExprView, Seq<StmtView>)>, eb: Seq<StmtView>)
    requires
        a < k <= k0 < b,
        else_at(toks, a, k0, b, c, then_block, elifs, eb),
    ensures
        else_from(toks, a, k, b, c, then_block, elifs, eb),
    decreases k0 - k,
{
    if k < k0 {
        lemma_else_from(toks, a, k + 1, k0, b, c, then_block, elifs, eb);
    }
}

/// Lines split at `k0` with `m0` statements in the last line are found
/// by the searches.
pub proof fn lemma_lines_intro(toks: Seq<(Token, Span)>, a: int, k0: int, b: int, svs: Seq<StmtView>, m0: int)
    requires
        lines_at(toks, a, k0, b, svs, m0),
    ensures
        derives_lines(toks, a, b, svs),
{
    lemma_lines_count(toks, a, k0, b, svs, 1, m0);
    lemma_lines_from(toks, a, a, k0, b, svs);
}

proof fn lemma_lines_count(toks: Seq<(Token, Span)>, a: int, k: int, b: int, svs: Seq<StmtView>, m: int, m0: int)
    requires
        1 <= m <= m0,
        lines_at(toks, a, k, b, svs, m0),
    ensures
        lines_count(toks, a, k, b, svs, m),
    decreases m0 - m,
{
    if m < m0 {
        lemma_lines_count(toks, a, k, b, svs, m + 1, m0);
    }
}

proof fn lemma_lines_from(toks: Seq<(Token, Span)>, a: int, k: int, k0: int, b: int, svs: Seq<StmtView>)
    requires
        a <= k <= k0 < b,
        lines_count(toks, a, k0, b, svs, 1),
    ensures
        lines_from(toks, a, k, b, svs),
    decreases k0 - k,
{
    if k < k0 {
        lemma_lines_from(toks, a, k + 1, k0, b, svs);
    }
}

} // verus!
