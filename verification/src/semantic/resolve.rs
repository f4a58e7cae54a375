//! Name resolution: every name an expression reads must be bound, and inside
//! a function a local must be assigned before it is read.

use vstd::prelude::*;
use crate::ast::{Expr, ExprS, Stmt, StmtS};
use crate::semantic::scope::{frames_define, names_of, contains_name, ScopeStack};
use crate::semantic::{SemanticError, SemanticResult};

verus! {

/// Whether a name is bound in some scope frame or is a builtin.
pub open spec fn bound(frames: Seq<Seq<Seq<char>>>, builtins: Seq<Seq<char>>, n: Seq<char>) -> bool {
    frames_define(frames, n) || builtins.contains(n)
}

/// The names an expression reads that none of `params` binds; the parameters
/// of a nested lambda bind within its body.
pub open spec fn free_vars(e: ExprS, params: Seq<Seq<char>>) -> Set<Seq<char>>
    decreases e,
{
    match e.0 {
        Expr::Literal(_) => Set::empty(),
        Expr::Variable(n) => if params.contains(n@) { Set::empty() } else { Set::empty().insert(n@) },
        Expr::Unary { expr, .. } => free_vars(*expr, params),
        Expr::Binary { left, right, .. } => free_vars(*left, params).union(free_vars(*right, params)),
        Expr::Call { func_name, args } => free_vars(*func_name, params).union(free_vars_list(args@, params)),
        Expr::Attribute { object, .. } => free_vars(*object, params),
        Expr::List(items) => free_vars_list(items@, params),
        Expr::Dict(pairs) => free_vars_pairs(pairs@, params),
        Expr::Index { object, index } => free_vars(*object, params).union(free_vars(*index, params)),
        Expr::Lambda { params: inner, body } =>
            free_vars(*body, names_of(inner@)).difference(params.to_set()),
        Expr::Tuple(items) => free_vars_list(items@, params),
        Expr::SetLit(items) => free_vars_list(items@, params),
        Expr::TreeSet(items) => free_vars_list(items@, params),
    }
}

pub open spec fn free_vars_list(es: Seq<ExprS>, params: Seq<Seq<char>>) -> Set<Seq<char>>
    decreases es,
{
    if es.len() == 0 {
        Set::empty()
    } else {
        free_vars(es[0], params).union(free_vars_list(es.drop_first(), params))
    }
}

pub open spec fn free_vars_pairs(ps: Seq<(ExprS, ExprS)>, params: Seq<Seq<char>>) -> Set<Seq<char>>
    decreases ps,
{
    if ps.len() == 0 {
        Set::empty()
    } else {
        free_vars(ps[0].0, params).union(free_vars(ps[0].1, params)).union(free_vars_pairs(ps.drop_first(), params))
    }
}

/// Whether an expression at module level reads only bound names. A lambda's
/// free names must be bound outside it, and its body is read with its
/// parameters bound in a scope of their own.
pub open spec fn module_expr_ok(e: ExprS, frames: Seq<Seq<Seq<char>>>, builtins: Seq<Seq<char>>) -> bool
    decreases e,
{
    match e.0 {
        Expr::Literal(_) => true,
        Expr::Variable(n) => bound(frames, builtins, n@),
        Expr::Unary { expr, .. } => module_expr_ok(*expr, frames, builtins),
        Expr::Binary { left, right, .. } => module_expr_ok(*left, frames, builtins) && module_expr_ok(*right, frames, builtins),
        Expr::Call { func_name, args } => (match func_name.0 {
            Expr::Variable(n) => bound(frames, builtins, n@),
            _ => module_expr_ok(*func_name, frames, builtins),
        }) && module_exprs_ok(args@, frames, builtins),
        Expr::Attribute { object, .. } => module_expr_ok(*object, frames, builtins),
        Expr::List(items) => module_exprs_ok(items@, frames, builtins),
        Expr::Dict(pairs) => module_pairs_ok(pairs@, frames, builtins),
        Expr::Index { object, index } => module_expr_ok(*object, frames, builtins) && module_expr_ok(*index, frames, builtins),
        Expr::Lambda { params, body } =>
            (forall|v: Seq<char>| #[trigger] free_vars(*body, names_of(params@)).contains(v) ==> bound(frames, builtins, v))
            && module_expr_ok(*body, frames.push(names_of(params@)), builtins),
        Expr::Tuple(items) => module_exprs_ok(items@, frames, builtins),
        Expr::SetLit(items) => module_exprs_ok(items@, frames, builtins),
        Expr::TreeSet(items) => module_exprs_ok(items@, frames, builtins),
    }
}

pub open spec fn module_exprs_ok(es: Seq<ExprS>, frames: Seq<Seq<Seq<char>>>, builtins: Seq<Seq<char>>) -> bool
    decreases es,
{
    if es.len() == 0 {
        true
    } else {
        module_expr_ok(es[0], frames, builtins) && module_exprs_ok(es.drop_first(), frames, builtins)
    }
}

pub open spec fn module_pairs_ok(ps: Seq<(ExprS, ExprS)>, frames: Seq<Seq<Seq<char>>>, builtins: Seq<Seq<char>>) -> bool
    decreases ps,
{
    if ps.len() == 0 {
        true
    } else {
        module_expr_ok(ps[0].0, frames, builtins) && module_expr_ok(ps[0].1, frames, builtins)
            && module_pairs_ok(ps.drop_first(), frames, builtins)
    }
}

/// Whether a name that a function reads is acceptable: one of its locals must
/// already be assigned, any other name must be bound.
pub open spec fn fn_name_ok(
    n: Seq<char>,
    frames: Seq<Seq<Seq<char>>>,
    builtins: Seq<Seq<char>>,
    locals: Set<Seq<char>>,
    assigned: Seq<Seq<char>>,
) -> bool {
    if locals.contains(n) { assigned.contains(n) } else { bound(frames, builtins, n) }
}

/// Whether an expression inside a function reads only acceptable names. A
/// lambda may not capture a local that is not yet assigned; its body has
/// only its parameters as locals.
pub open spec fn fn_expr_ok(
    e: ExprS,
    frames: Seq<Seq<Seq<char>>>,
    builtins: Seq<Seq<char>>,
    locals: Set<Seq<char>>,
    assigned: Seq<Seq<char>>,
) -> bool
    decreases e,
{
    match e.0 {
        Expr::Literal(_) => true,
        Expr::Variable(n) => fn_name_ok(n@, frames, builtins, locals, assigned),
        Expr::Unary { expr, .. } => fn_expr_ok(*expr, frames, builtins, locals, assigned),
        Expr::Binary { left, right, .. } => fn_expr_ok(*left, frames, builtins, locals, assigned)
            && fn_expr_ok(*right, frames, builtins, locals, assigned),
        Expr::Call { func_name, args } => (match func_name.0 {
            Expr::Variable(n) => fn_name_ok(n@, frames, builtins, locals, assigned),
            _ => fn_expr_ok(*func_name, frames, builtins, locals, assigned),
        }) && fn_exprs_ok(args@, frames, builtins, locals, assigned),
        Expr::Attribute { object, .. } => fn_expr_ok(*object, frames, builtins, locals, assigned),
        Expr::List(items) => fn_exprs_ok(items@, frames, builtins, locals, assigned),
        Expr::Dict(pairs) => fn_pairs_ok(pairs@, frames, builtins, locals, assigned),
        Expr::Index { object, index } => fn_expr_ok(*object, frames, builtins, locals, assigned)
            && fn_expr_ok(*index, frames, builtins, locals, assigned),
        Expr::Lambda { params, body } =>
            (forall|v: Seq<char>| #[trigger] free_vars(*body, names_of(params@)).contains(v)
                ==> !(locals.contains(v) && !assigned.contains(v)))
            && fn_expr_ok(*body, frames.push(names_of(params@)), builtins, names_of(params@).to_set(), names_of(params@)),
        Expr::Tuple(items) => fn_exprs_ok(items@, frames, builtins, locals, assigned),
        Expr::SetLit(items) => fn_exprs_ok(items@, frames, builtins, locals, assigned),
        Expr::TreeSet(items) => fn_exprs_ok(items@, frames, builtins, locals, assigned),
    }
}

pub open spec fn fn_exprs_ok(
    es: Seq<ExprS>,
    frames: Seq<Seq<Seq<char>>>,
    builtins: Seq<Seq<char>>,
    locals: Set<Seq<char>>,
    assigned: Seq<Seq<char>>,
) -> bool
    decreases es,
{
    if es.len() == 0 {
        true
    } else {
        fn_expr_ok(es[0], frames, builtins, locals, assigned) && fn_exprs_ok(es.drop_first(), frames, builtins, locals, assigned)
    }
}

pub open spec fn fn_pairs_ok(
    ps: Seq<(ExprS, ExprS)>,
    frames: Seq<Seq<Seq<char>>>,
    builtins: Seq<Seq<char>>,
    locals: Set<Seq<char>>,
    assigned: Seq<Seq<char>>,
) -> bool
    decreases ps,
{
    if ps.len() == 0 {
        true
    } else {
        fn_expr_ok(ps[0].0, frames, builtins, locals, assigned) && fn_expr_ok(ps[0].1, frames, builtins, locals, assigned)
            && fn_pairs_ok(ps.drop_first(), frames, builtins, locals, assigned)
    }
}

fn name_error(prefix: &str, name: &str, suffix: &str, span: crate::ast::Span) -> (e: SemanticError)
    ensures
        e.message@ == prefix@ + name@ + suffix@,
        e.span == span,
{
    let mut m = prefix.to_owned();
    m.append(name);
    m.append(suffix);
    SemanticError { message: m, span }
}

/// Adds to `out` the free names of an expression (see `free_vars`).
pub fn collect_free_vars(expr: &ExprS, params: &Vec<String>, out: &mut Vec<String>)
    ensures
        names_of(final(out)@).to_set() == names_of(old(out)@).to_set().union(free_vars(*expr, names_of(params@))),
    decreases expr,
{
    let ghost p = names_of(params@);
    match &expr.0 {
        Expr::Literal(_) => {
            assert(names_of(out@).to_set() =~= names_of(out@).to_set().union(Set::empty()));
        },
        Expr::Variable(name) => {
            if !contains_name(params, name.as_str()) {
                push_name(out, name.clone());
            } else {
                assert(names_of(out@).to_set() =~= names_of(out@).to_set().union(Set::empty()));
            }
        },
        Expr::Unary { expr: inner, .. } => collect_free_vars(inner, params, out),
        Expr::Binary { left, right, .. } => {
            collect_free_vars(left, params, out);
            collect_free_vars(right, params, out);
            assert(names_of(out@).to_set() =~= names_of(old(out)@).to_set().union(free_vars(*expr, p)));
        },
        Expr::Call { func_name, args } => {
            collect_free_vars(func_name, params, out);
            collect_free_vars_list(args, params, out);
            assert(names_of(out@).to_set() =~= names_of(old(out)@).to_set().union(free_vars(*expr, p)));
        },
        Expr::Attribute { object, .. } => collect_free_vars(object, params, out),
        Expr::List(items) => collect_free_vars_list(items, params, out),
        Expr::Dict(pairs) => collect_free_vars_pairs(pairs, params, out),
        Expr::Index { object, index } => {
            collect_free_vars(object, params, out);
            collect_free_vars(index, params, out);
            assert(names_of(out@).to_set() =~= names_of(old(out)@).to_set().union(free_vars(*expr, p)));
        },
        Expr::Lambda { params: inner_params, body } => {
            let mut inner: Vec<String> = Vec::new();
            collect_free_vars(body, inner_params, &mut inner);
            assert(names_of(Seq::<String>::empty()).to_set() =~= Set::<Seq<char>>::empty());
            let ghost inner_set = free_vars(**body, names_of(inner_params@));
            assert(names_of(inner@).to_set() =~= inner_set);
            let mut i: usize = 0;
            while i < inner.len()
                invariant
                    i <= inner.len(),
                    p == names_of(params@),
                    names_of(inner@).to_set() == inner_set,
                    names_of(out@).to_set() == names_of(old(out)@).to_set().union(
                        names_of(inner@.subrange(0, i as int)).to_set().difference(p.to_set())),
                decreases inner.len() - i,
            {
                let ghost before = names_of(out@).to_set();
                let ghost x = inner@[i as int]@;
                let ghost s0 = names_of(inner@.subrange(0, i as int)).to_set();
                let ghost s1 = names_of(inner@.subrange(0, i + 1)).to_set();
                assert(names_of(inner@.subrange(0, i + 1)) =~= names_of(inner@.subrange(0, i as int)).push(x));
                proof { names_of(inner@.subrange(0, i as int)).lemma_push_to_set_commute(x); }
                assert(s1 == s0.insert(x));
                if !contains_name(params, inner[i].as_str()) {
                    push_name(out, inner[i].clone());
                    assert(!p.to_set().contains(x));
                    assert(s1.difference(p.to_set()) =~= s0.difference(p.to_set()).insert(x));
                    assert(names_of(out@).to_set() =~= names_of(old(out)@).to_set().union(
                        s1.difference(p.to_set())));
                } else {
                    assert(p.to_set().contains(x));
                    assert(s1.difference(p.to_set()) =~= s0.difference(p.to_set()));
                }
                i = i + 1;
            }
            assert(inner@.subrange(0, i as int) =~= inner@);
            assert(names_of(out@).to_set() =~= names_of(old(out)@).to_set().union(free_vars(*expr, p)));
        },
        Expr::Tuple(items) => collect_free_vars_list(items, params, out),
        Expr::SetLit(items) => collect_free_vars_list(items, params, out),
        Expr::TreeSet(items) => collect_free_vars_list(items, params, out),
    }
}

fn push_name(out: &mut Vec<String>, name: String)
    ensures
        names_of(final(out)@).to_set() == names_of(old(out)@).to_set().insert(name@),
{
    proof {
        crate::semantic::scope::lemma_names_push(out@, name);
        names_of(out@).lemma_push_to_set_commute(name@);
    }
    out.push(name);
}

fn collect_free_vars_list(es: &Vec<ExprS>, params: &Vec<String>, out: &mut Vec<String>)
    ensures
        names_of(final(out)@).to_set() == names_of(old(out)@).to_set().union(free_vars_list(es@, names_of(params@))),
    decreases es,
{
    let ghost p = names_of(params@);
    let mut i: usize = es.len();
    assert(es@.subrange(i as int, es@.len() as int) =~= Seq::<ExprS>::empty());
    assert(names_of(out@).to_set() =~= names_of(old(out)@).to_set().union(free_vars_list(Seq::<ExprS>::empty(), p)));
    while i > 0
        invariant
            i <= es.len(),
            p == names_of(params@),
            names_of(out@).to_set() == names_of(old(out)@).to_set().union(
                free_vars_list(es@.subrange(i as int, es@.len() as int), p)),
        decreases i,
    {
        i = i - 1;
        let ghost sub = es@.subrange(i as int, es@.len() as int);
        assert(sub.drop_first() =~= es@.subrange(i + 1, es@.len() as int));
        assert(sub[0] == es@[i as int]);
        assert(free_vars_list(sub, p) == free_vars(sub[0], p).union(free_vars_list(sub.drop_first(), p)));
        let ghost before = names_of(out@).to_set();
        collect_free_vars(&es[i], params, out);
        assert(names_of(out@).to_set() == before.union(free_vars(sub[0], p)));
        assert(names_of(out@).to_set() =~= names_of(old(out)@).to_set().union(free_vars_list(sub, p)));
    }
    assert(es@.subrange(0, es@.len() as int) =~= es@);
}

fn collect_free_vars_pairs(ps: &Vec<(ExprS, ExprS)>, params: &Vec<String>, out: &mut Vec<String>)
    ensures
        names_of(final(out)@).to_set() == names_of(old(out)@).to_set().union(free_vars_pairs(ps@, names_of(params@))),
    decreases ps,
{
    let ghost p = names_of(params@);
    let mut i: usize = ps.len();
    assert(ps@.subrange(i as int, ps@.len() as int) =~= Seq::<(ExprS, ExprS)>::empty());
    assert(names_of(out@).to_set() =~= names_of(old(out)@).to_set().union(free_vars_pairs(Seq::<(ExprS, ExprS)>::empty(), p)));
    while i > 0
        invariant
            i <= ps.len(),
            p == names_of(params@),
            names_of(out@).to_set() == names_of(old(out)@).to_set().union(
                free_vars_pairs(ps@.subrange(i as int, ps@.len() as int), p)),
        decreases i,
    {
        i = i - 1;
        let ghost sub = ps@.subrange(i as int, ps@.len() as int);
        assert(sub.drop_first() =~= ps@.subrange(i + 1, ps@.len() as int));
        assert(sub[0] == ps@[i as int]);
        assert(free_vars_pairs(sub, p) == free_vars(sub[0].0, p).union(free_vars(sub[0].1, p)).union(free_vars_pairs(sub.drop_first(), p)));
        let ghost before = names_of(out@).to_set();
        collect_free_vars(&ps[i].0, params, out);
        collect_free_vars(&ps[i].1, params, out);
        assert(names_of(out@).to_set() == before.union(free_vars(sub[0].0, p)).union(free_vars(sub[0].1, p)));
        assert(names_of(out@).to_set() =~= names_of(old(out)@).to_set().union(free_vars_pairs(sub, p)));
    }
    assert(ps@.subrange(0, ps@.len() as int) =~= ps@);
}

/// The first name of the list that is neither bound nor a builtin.
fn first_unbound(free: &Vec<String>, scopes: &ScopeStack, ctx: &crate::semantic::ProgramContext) -> (r: Option<usize>)
    ensures
        r matches Some(i) ==> i < free.len() && !bound(scopes.frames(), names_of(ctx.builtins@), free@[i as int]@),
        r is None ==> forall|m: int| 0 <= m < free.len() ==> bound(scopes.frames(), names_of(ctx.builtins@), #[trigger] free@[m]@),
{
    let mut i: usize = 0;
    while i < free.len()
        invariant
            i <= free.len(),
            forall|m: int| 0 <= m < i ==> bound(scopes.frames(), names_of(ctx.builtins@), #[trigger] free@[m]@),
        decreases free.len() - i,
    {
        if !scopes.is_defined(free[i].as_str()) && !ctx.is_builtin(free[i].as_str()) {
            return Some(i);
        }
        i = i + 1;
    }
    None
}

/// The first name of the list that is a local not yet assigned.
fn first_unassigned_local(free: &Vec<String>, locals: &Vec<String>, assigned: &Vec<String>) -> (r: Option<usize>)
    ensures
        r matches Some(i) ==> i < free.len() && names_of(locals@).contains(free@[i as int]@)
            && !names_of(assigned@).contains(free@[i as int]@),
        r is None ==> forall|m: int| 0 <= m < free.len() ==> !(names_of(locals@).contains(#[trigger] free@[m]@)
            && !names_of(assigned@).contains(free@[m]@)),
{
    let mut i: usize = 0;
    while i < free.len()
        invariant
            i <= free.len(),
            forall|m: int| 0 <= m < i ==> !(names_of(locals@).contains(#[trigger] free@[m]@)
                && !names_of(assigned@).contains(free@[m]@)),
        decreases free.len() - i,
    {
        if contains_name(locals, free[i].as_str()) && !contains_name(assigned, free[i].as_str()) {
            return Some(i);
        }
        i = i + 1;
    }
    None
}

/// Opens a scope holding the parameters of a lambda or function.
fn push_params(scopes: &mut ScopeStack, params: &Vec<String>)
    ensures
        final(scopes).frames() == old(scopes).frames().push(names_of(params@)),
{
    scopes.push();
    let mut k: usize = 0;
    assert(names_of(params@.subrange(0, 0)) =~= Seq::<Seq<char>>::empty());
    while k < params.len()
        invariant
            k <= params.len(),
            scopes.frames() == old(scopes).frames().push(names_of(params@.subrange(0, k as int))),
        decreases params.len() - k,
    {
        scopes.define(params[k].clone());
        assert(names_of(params@.subrange(0, k + 1)) =~= names_of(params@.subrange(0, k as int)).push(params@[k as int]@));
        k = k + 1;
    }
    assert(params@.subrange(0, k as int) =~= params@);
}

/// Resolves the names of an expression at module level.
pub fn analyze_expr_module(expr: &ExprS, scopes: &mut ScopeStack, ctx: &crate::semantic::ProgramContext) -> (r: SemanticResult<()>)
    ensures
        r is Ok <==> module_expr_ok(*expr, old(scopes).frames(), names_of(ctx.builtins@)),
        r is Ok ==> final(scopes).frames() == old(scopes).frames(),
    decreases expr,
{
    let ghost b = names_of(ctx.builtins@);
    match &expr.0 {
        Expr::Literal(_) => Ok(()),
        Expr::Variable(name) => {
            if !scopes.is_defined(name.as_str()) && !ctx.is_builtin(name.as_str()) {
                return Err(name_error("Undefined variable: ", name.as_str(), "", expr.1));
            }
            Ok(())
        },
        Expr::Unary { expr: inner, .. } => analyze_expr_module(inner, scopes, ctx),
        Expr::Binary { left, right, .. } => {
            analyze_expr_module(left, scopes, ctx)?;
            analyze_expr_module(right, scopes, ctx)
        },
        Expr::Call { func_name, args } => {
            match &func_name.0 {
                Expr::Variable(name) => {
                    if !scopes.is_defined(name.as_str()) && !ctx.is_builtin(name.as_str()) {
                        return Err(name_error("Undefined function: ", name.as_str(), "", expr.1));
                    }
                },
                _ => {
                    analyze_expr_module(func_name, scopes, ctx)?;
                },
            }
            analyze_exprs_module(args, scopes, ctx)
        },
        Expr::Attribute { object, .. } => analyze_expr_module(object, scopes, ctx),
        Expr::List(items) => analyze_exprs_module(items, scopes, ctx),
        Expr::Dict(pairs) => analyze_pairs_module(pairs, scopes, ctx),
        Expr::Index { object, index } => {
            analyze_expr_module(object, scopes, ctx)?;
            analyze_expr_module(index, scopes, ctx)
        },
        Expr::Lambda { params, body } => {
            let mut free: Vec<String> = Vec::new();
            collect_free_vars(body, params, &mut free);
            assert(names_of(Seq::<String>::empty()).to_set() =~= Set::<Seq<char>>::empty());
            assert(names_of(free@).to_set() =~= free_vars(**body, names_of(params@)));
            match first_unbound(&free, scopes, ctx) {
                Some(i) => {
                    proof {
                        assert(names_of(free@)[i as int] == free@[i as int]@);
                        assert(names_of(free@).to_set().contains(free@[i as int]@));
                    }
                    return Err(name_error("Undefined variable '", free[i].as_str(), "' captured by lambda", expr.1));
                },
                None => {},
            }
            assert forall|v: Seq<char>| #[trigger] free_vars(**body, names_of(params@)).contains(v)
                implies bound(old(scopes).frames(), b, v) by {
                assert(names_of(free@).to_set().contains(v));
                let m = choose|m: int| 0 <= m < names_of(free@).len() && names_of(free@)[m] == v;
                assert(free@[m]@ == v);
            }
            push_params(scopes, params);
            analyze_expr_module(body, scopes, ctx)?;
            scopes.pop();
            Ok(())
        },
        Expr::Tuple(items) => analyze_exprs_module(items, scopes, ctx),
        Expr::SetLit(items) => analyze_exprs_module(items, scopes, ctx),
        Expr::TreeSet(items) => analyze_exprs_module(items, scopes, ctx),
    }
}

fn analyze_exprs_module(es: &Vec<ExprS>, scopes: &mut ScopeStack, ctx: &crate::semantic::ProgramContext) -> (r: SemanticResult<()>)
    ensures
        r is Ok <==> module_exprs_ok(es@, old(scopes).frames(), names_of(ctx.builtins@)),
        r is Ok ==> final(scopes).frames() == old(scopes).frames(),
    decreases es,
{
    let mut i: usize = 0;
    assert(es@.subrange(0, es@.len() as int) =~= es@);
    while i < es.len()
        invariant
            i <= es.len(),
            scopes.frames() == old(scopes).frames(),
            module_exprs_ok(es@, old(scopes).frames(), names_of(ctx.builtins@))
                == module_exprs_ok(es@.subrange(i as int, es@.len() as int), old(scopes).frames(), names_of(ctx.builtins@)),
        decreases es.len() - i,
    {
        let ghost sub = es@.subrange(i as int, es@.len() as int);
        assert(sub.drop_first() =~= es@.subrange(i + 1, es@.len() as int));
        assert(sub[0] == es@[i as int]);
        analyze_expr_module(&es[i], scopes, ctx)?;
        i = i + 1;
    }
    assert(es@.subrange(i as int, es@.len() as int) =~= Seq::<ExprS>::empty());
    Ok(())
}

fn analyze_pairs_module(ps: &Vec<(ExprS, ExprS)>, scopes: &mut ScopeStack, ctx: &crate::semantic::ProgramContext) -> (r: SemanticResult<()>)
    ensures
        r is Ok <==> module_pairs_ok(ps@, old(scopes).frames(), names_of(ctx.builtins@)),
        r is Ok ==> final(scopes).frames() == old(scopes).frames(),
    decreases ps,
{
    let mut i: usize = 0;
    assert(ps@.subrange(0, ps@.len() as int) =~= ps@);
    while i < ps.len()
        invariant
            i <= ps.len(),
            scopes.frames() == old(scopes).frames(),
            module_pairs_ok(ps@, old(scopes).frames(), names_of(ctx.builtins@))
                == module_pairs_ok(ps@.subrange(i as int, ps@.len() as int), old(scopes).frames(), names_of(ctx.builtins@)),
        decreases ps.len() - i,
    {
        let ghost sub = ps@.subrange(i as int, ps@.len() as int);
        assert(sub.drop_first() =~= ps@.subrange(i + 1, ps@.len() as int));
        assert(sub[0] == ps@[i as int]);
        analyze_expr_module(&ps[i].0, scopes, ctx)?;
        analyze_expr_module(&ps[i].1, scopes, ctx)?;
        i = i + 1;
    }
    assert(ps@.subrange(i as int, ps@.len() as int) =~= Seq::<(ExprS, ExprS)>::empty());
    Ok(())
}

/// Resolves the names of an expression inside a function whose locals are
/// `locals`, of which `assigned` are assigned so far.
pub fn analyze_expr_function(
    expr: &ExprS,
    scopes: &mut ScopeStack,
    ctx: &crate::semantic::ProgramContext,
    locals: &Vec<String>,
    assigned: &Vec<String>,
) -> (r: SemanticResult<()>)
    ensures
        r is Ok <==> fn_expr_ok(*expr, old(scopes).frames(), names_of(ctx.builtins@), names_of(locals@).to_set(), names_of(assigned@)),
        r is Ok ==> final(scopes).frames() == old(scopes).frames(),
    decreases expr,
{
    let ghost b = names_of(ctx.builtins@);
    match &expr.0 {
        Expr::Literal(_) => Ok(()),
        Expr::Variable(name) => {
            if contains_name(locals, name.as_str()) {
                if !contains_name(assigned, name.as_str()) {
                    return Err(name_error("Unbound local variable: ", name.as_str(), "", expr.1));
                }
                return Ok(());
            }
            if !scopes.is_defined(name.as_str()) && !ctx.is_builtin(name.as_str()) {
                return Err(name_error("Undefined variable: ", name.as_str(), "", expr.1));
            }
            Ok(())
        },
        Expr::Unary { expr: inner, .. } => analyze_expr_function(inner, scopes, ctx, locals, assigned),
        Expr::Binary { left, right, .. } => {
            analyze_expr_function(left, scopes, ctx, locals, assigned)?;
            analyze_expr_function(right, scopes, ctx, locals, assigned)
        },
        Expr::Call { func_name, args } => {
            match &func_name.0 {
                Expr::Variable(name) => {
                    if contains_name(locals, name.as_str()) {
                        if !contains_name(assigned, name.as_str()) {
                            return Err(name_error("Unbound local function: ", name.as_str(), "", expr.1));
                        }
                    } else if !scopes.is_defined(name.as_str()) && !ctx.is_builtin(name.as_str()) {
                        return Err(name_error("Undefined function: ", name.as_str(), "", expr.1));
                    }
                },
                _ => {
                    analyze_expr_function(func_name, scopes, ctx, locals, assigned)?;
                },
            }
            analyze_exprs_function(args, scopes, ctx, locals, assigned)
        },
        Expr::Attribute { object, .. } => analyze_expr_function(object, scopes, ctx, locals, assigned),
        Expr::List(items) => analyze_exprs_function(items, scopes, ctx, locals, assigned),
        Expr::Dict(pairs) => analyze_pairs_function(pairs, scopes, ctx, locals, assigned),
        Expr::Index { object, index } => {
            analyze_expr_function(object, scopes, ctx, locals, assigned)?;
            analyze_expr_function(index, scopes, ctx, locals, assigned)
        },
        Expr::Lambda { params, body } => {
            let mut free: Vec<String> = Vec::new();
            collect_free_vars(body, params, &mut free);
            assert(names_of(Seq::<String>::empty()).to_set() =~= Set::<Seq<char>>::empty());
            assert(names_of(free@).to_set() =~= free_vars(**body, names_of(params@)));
            match first_unassigned_local(&free, locals, assigned) {
                Some(i) => {
                    proof {
                        assert(names_of(free@)[i as int] == free@[i as int]@);
                        assert(names_of(free@).to_set().contains(free@[i as int]@));
                    }
                    return Err(name_error("Unbound local variable '", free[i].as_str(), "' captured by lambda", expr.1));
                },
                None => {},
            }
            assert forall|v: Seq<char>| #[trigger] free_vars(**body, names_of(params@)).contains(v)
                implies !(names_of(locals@).to_set().contains(v) && !names_of(assigned@).contains(v)) by {
                assert(names_of(free@).to_set().contains(v));
                let m = choose|m: int| 0 <= m < names_of(free@).len() && names_of(free@)[m] == v;
                assert(free@[m]@ == v);
            }
            push_params(scopes, params);
            let lambda_locals = crate::parser::clone_strings(params);
            analyze_expr_function(body, scopes, ctx, &lambda_locals, &lambda_locals)?;
            scopes.pop();
            Ok(())
        },
        Expr::Tuple(items) => analyze_exprs_function(items, scopes, ctx, locals, assigned),
        Expr::SetLit(items) => analyze_exprs_function(items, scopes, ctx, locals, assigned),
        Expr::TreeSet(items) => analyze_exprs_function(items, scopes, ctx, locals, assigned),
    }
}

fn analyze_exprs_function(
    es: &Vec<ExprS>,
    scopes: &mut ScopeStack,
    ctx: &crate::semantic::ProgramContext,
    locals: &Vec<String>,
    assigned: &Vec<String>,
) -> (r: SemanticResult<()>)
    ensures
        r is Ok <==> fn_exprs_ok(es@, old(scopes).frames(), names_of(ctx.builtins@), names_of(locals@).to_set(), names_of(assigned@)),
        r is Ok ==> final(scopes).frames() == old(scopes).frames(),
    decreases es,
{
    let mut i: usize = 0;
    assert(es@.subrange(0, es@.len() as int) =~= es@);
    while i < es.len()
        invariant
            i <= es.len(),
            scopes.frames() == old(scopes).frames(),
            fn_exprs_ok(es@, old(scopes).frames(), names_of(ctx.builtins@), names_of(locals@).to_set(), names_of(assigned@))
                == fn_exprs_ok(es@.subrange(i as int, es@.len() as int), old(scopes).frames(), names_of(ctx.builtins@),
                    names_of(locals@).to_set(), names_of(assigned@)),
        decreases es.len() - i,
    {
        let ghost sub = es@.subrange(i as int, es@.len() as int);
        assert(sub.drop_first() =~= es@.subrange(i + 1, es@.len() as int));
        assert(sub[0] == es@[i as int]);
        analyze_expr_function(&es[i], scopes, ctx, locals, assigned)?;
        i = i + 1;
    }
    assert(es@.subrange(i as int, es@.len() as int) =~= Seq::<ExprS>::empty());
    Ok(())
}

fn analyze_pairs_function(
    ps: &Vec<(ExprS, ExprS)>,
    scopes: &mut ScopeStack,
    ctx: &crate::semantic::ProgramContext,
    locals: &Vec<String>,
    assigned: &Vec<String>,
) -> (r: SemanticResult<()>)
    ensures
        r is Ok <==> fn_pairs_ok(ps@, old(scopes).frames(), names_of(ctx.builtins@), names_of(locals@).to_set(), names_of(assigned@)),
        r is Ok ==> final(scopes).frames() == old(scopes).frames(),
    decreases ps,
{
    let mut i: usize = 0;
    assert(ps@.subrange(0, ps@.len() as int) =~= ps@);
    while i < ps.len()
        invariant
            i <= ps.len(),
            scopes.frames() == old(scopes).frames(),
            fn_pairs_ok(ps@, old(scopes).frames(), names_of(ctx.builtins@), names_of(locals@).to_set(), names_of(assigned@))
                == fn_pairs_ok(ps@.subrange(i as int, ps@.len() as int), old(scopes).frames(), names_of(ctx.builtins@),
                    names_of(locals@).to_set(), names_of(assigned@)),
        decreases ps.len() - i,
    {
        let ghost sub = ps@.subrange(i as int, ps@.len() as int);
        assert(sub.drop_first() =~= ps@.subrange(i + 1, ps@.len() as int));
        assert(sub[0] == ps@[i as int]);
        analyze_expr_function(&ps[i].0, scopes, ctx, locals, assigned)?;
        analyze_expr_function(&ps[i].1, scopes, ctx, locals, assigned)?;
        i = i + 1;
    }
    assert(ps@.subrange(i as int, ps@.len() as int) =~= Seq::<(ExprS, ExprS)>::empty());
    Ok(())
}

/// The names a function body binds locally: assignment targets, nested
/// functions and classes, and loop variables, at any depth of blocks.
pub open spec fn stmt_locals(st: StmtS) -> Set<Seq<char>>
    decreases st,
{
    match st.0 {
        Stmt::Assign { target, .. } => match target.0 {
            Expr::Variable(n) => Set::empty().insert(n@),
            _ => Set::empty(),
        },
        Stmt::Def { name, .. } => Set::empty().insert(name@),
        Stmt::Class { name, .. } => Set::empty().insert(name@),
        Stmt::If { then_block, elif_blocks, else_block, .. } =>
            block_locals(then_block@).union(elif_locals(elif_blocks@)).union(match else_block {
                Some(b) => block_locals(b@),
                None => Set::empty(),
            }),
        Stmt::While { body, .. } => block_locals(body@),
        Stmt::For { var, body, .. } => Set::empty().insert(var@).union(block_locals(body@)),
        _ => Set::empty(),
    }
}

pub open spec fn block_locals(ss: Seq<StmtS>) -> Set<Seq<char>>
    decreases ss,
{
    if ss.len() == 0 {
        Set::empty()
    } else {
        stmt_locals(ss[0]).union(block_locals(ss.drop_first()))
    }
}

pub open spec fn elif_locals(es: Seq<(ExprS, Vec<StmtS>)>) -> Set<Seq<char>>
    decreases es,
{
    if es.len() == 0 {
        Set::empty()
    } else {
        block_locals(es[0].1@).union(elif_locals(es.drop_first()))
    }
}

/// Adds to `locals` the names that a block binds (see `block_locals`).
pub fn collect_locals(body: &Vec<StmtS>, locals: &mut Vec<String>)
    ensures
        names_of(final(locals)@).to_set() == names_of(old(locals)@).to_set().union(block_locals(body@)),
    decreases body,
{
    let mut i: usize = body.len();
    assert(body@.subrange(i as int, body@.len() as int) =~= Seq::<StmtS>::empty());
    assert(names_of(locals@).to_set() =~= names_of(old(locals)@).to_set().union(block_locals(Seq::<StmtS>::empty())));
    while i > 0
        invariant
            i <= body.len(),
            names_of(locals@).to_set() == names_of(old(locals)@).to_set().union(
                block_locals(body@.subrange(i as int, body@.len() as int))),
        decreases i,
    {
        i = i - 1;
        let ghost sub = body@.subrange(i as int, body@.len() as int);
        assert(sub.drop_first() =~= body@.subrange(i + 1, body@.len() as int));
        assert(sub[0] == body@[i as int]);
        assert(block_locals(sub) == stmt_locals(sub[0]).union(block_locals(sub.drop_first())));
        let ghost before = names_of(locals@).to_set();
        collect_stmt_locals(&body[i], locals);
        assert(names_of(locals@).to_set() =~= names_of(old(locals)@).to_set().union(block_locals(sub)));
    }
    assert(body@.subrange(0, body@.len() as int) =~= body@);
}

fn collect_stmt_locals(st: &StmtS, locals: &mut Vec<String>)
    ensures
        names_of(final(locals)@).to_set() == names_of(old(locals)@).to_set().union(stmt_locals(*st)),
    decreases st,
{
    match &st.0 {
        Stmt::Assign { target, .. } => {
            match &target.0 {
                Expr::Variable(name) => {
                    push_name(locals, name.clone());
                },
                _ => {
                    assert(names_of(locals@).to_set() =~= names_of(locals@).to_set().union(Set::empty()));
                },
            }
        },
        Stmt::Def { name, .. } => {
            push_name(locals, name.clone());
        },
        Stmt::Class { name, .. } => {
            push_name(locals, name.clone());
        },
        Stmt::If { then_block, elif_blocks, else_block, .. } => {
            collect_locals(then_block, locals);
            collect_elif_locals(elif_blocks, locals);
            match else_block {
                Some(b) => {
                    collect_locals(b, locals);
                },
                None => {},
            }
            assert(names_of(locals@).to_set() =~= names_of(old(locals)@).to_set().union(stmt_locals(*st)));
        },
        Stmt::While { body, .. } => {
            collect_locals(body, locals);
        },
        Stmt::For { var, body, .. } => {
            push_name(locals, var.clone());
            collect_locals(body, locals);
            assert(names_of(locals@).to_set() =~= names_of(old(locals)@).to_set().union(stmt_locals(*st)));
        },
        _ => {
            assert(names_of(locals@).to_set() =~= names_of(locals@).to_set().union(Set::empty()));
        },
    }
}

fn collect_elif_locals(es: &Vec<(ExprS, Vec<StmtS>)>, locals: &mut Vec<String>)
    ensures
        names_of(final(locals)@).to_set() == names_of(old(locals)@).to_set().union(elif_locals(es@)),
    decreases es,
{
    let mut i: usize = es.len();
    assert(es@.subrange(i as int, es@.len() as int) =~= Seq::<(ExprS, Vec<StmtS>)>::empty());
    assert(names_of(locals@).to_set() =~= names_of(old(locals)@).to_set().union(elif_locals(Seq::<(ExprS, Vec<StmtS>)>::empty())));
    while i > 0
        invariant
            i <= es.len(),
            names_of(locals@).to_set() == names_of(old(locals)@).to_set().union(
                elif_locals(es@.subrange(i as int, es@.len() as int))),
        decreases i,
    {
        i = i - 1;
        let ghost sub = es@.subrange(i as int, es@.len() as int);
        assert(sub.drop_first() =~= es@.subrange(i + 1, es@.len() as int));
        assert(sub[0] == es@[i as int]);
        assert(elif_locals(sub) == block_locals(sub[0].1@).union(elif_locals(sub.drop_first())));
        collect_locals(&es[i].1, locals);
        assert(names_of(locals@).to_set() =~= names_of(old(locals)@).to_set().union(elif_locals(sub)));
    }
    assert(es@.subrange(0, es@.len() as int) =~= es@);
}

/// The frames after defining a name in the innermost one.
pub open spec fn define_top(f: Seq<Seq<Seq<char>>>, n: Seq<char>) -> Seq<Seq<Seq<char>>> {
    if f.len() == 0 { f } else { f.update(f.len() - 1, f.last().push(n)) }
}

/// The frames after defining a name in the innermost one unless some frame
/// already binds it.
pub open spec fn define_if_new(f: Seq<Seq<Seq<char>>>, n: Seq<char>) -> Seq<Seq<Seq<char>>> {
    if frames_define(f, n) { f } else { define_top(f, n) }
}

/// What resolving one statement inside a function gives, from the frames `f`
/// with the locals `locals` of which `a` are assigned: the frames and the
/// assigned locals after it, or `None` where it reports an error. A nested
/// function is resolved with its parameters in a frame of their own.
pub open spec fn fn_stmt_res(
    st: StmtS,
    f: Seq<Seq<Seq<char>>>,
    b: Seq<Seq<char>>,
    locals: Set<Seq<char>>,
    a: Seq<Seq<char>>,
) -> Option<(Seq<Seq<Seq<char>>>, Seq<Seq<char>>)>
    decreases st,
{
    match st.0 {
        Stmt::Break | Stmt::Continue | Stmt::Pass => Some((f, a)),
        Stmt::Expr(e) => if fn_expr_ok(e, f, b, locals, a) { Some((f, a)) } else { None },
        Stmt::Return(e) => if fn_expr_ok(e, f, b, locals, a) { Some((f, a)) } else { None },
        Stmt::Assign { target, value } => if !fn_expr_ok(value, f, b, locals, a) {
            None
        } else {
            match target.0 {
                Expr::Variable(n) => Some((define_if_new(f, n@), a.push(n@))),
                Expr::Attribute { .. } | Expr::Index { .. } =>
                    if fn_expr_ok(target, f, b, locals, a) { Some((f, a)) } else { None },
                _ => None,
            }
        },
        Stmt::Def { name, params, body } => {
            let f1 = define_if_new(f, name@);
            let p = names_of(params@);
            if fn_block_res(body@, f1.push(p), b, p.to_set().union(block_locals(body@)), p) is Some {
                Some((f1, a))
            } else {
                None
            }
        },
        Stmt::If { condition, then_block, elif_blocks, else_block } => if !fn_expr_ok(condition, f, b, locals, a) {
            None
        } else {
            match fn_block_res(then_block@, f, b, locals, a) {
                Some((f2, a2)) => match fn_elifs_res(elif_blocks@, f2, b, locals, a2) {
                    Some((f3, a3)) => match else_block {
                        Some(bl) => fn_block_res(bl@, f3, b, locals, a3),
                        None => Some((f3, a3)),
                    },
                    None => None,
                },
                None => None,
            }
        },
        Stmt::While { condition, body } =>
            if !fn_expr_ok(condition, f, b, locals, a) { None } else { fn_block_res(body@, f, b, locals, a) },
        Stmt::For { var, iterable, body } => if !fn_expr_ok(iterable, f, b, locals, a) {
            None
        } else {
            fn_block_res(body@, define_if_new(f, var@), b, locals, if locals.contains(var@) { a.push(var@) } else { a })
        },
        Stmt::Class { name, .. } => Some((define_top(f, name@), a)),
    }
}

/// The statements of a block resolved in order, as `fn_stmt_res` states.
pub open spec fn fn_block_res(
    ss: Seq<StmtS>,
    f: Seq<Seq<Seq<char>>>,
    b: Seq<Seq<char>>,
    locals: Set<Seq<char>>,
    a: Seq<Seq<char>>,
) -> Option<(Seq<Seq<Seq<char>>>, Seq<Seq<char>>)>
    decreases ss,
{
    if ss.len() == 0 {
        Some((f, a))
    } else {
        match fn_stmt_res(ss[0], f, b, locals, a) {
            Some((f1, a1)) => fn_block_res(ss.drop_first(), f1, b, locals, a1),
            None => None,
        }
    }
}

/// The `elif` branches resolved in order: each condition, then its block.
pub open spec fn fn_elifs_res(
    es: Seq<(ExprS, Vec<StmtS>)>,
    f: Seq<Seq<Seq<char>>>,
    b: Seq<Seq<char>>,
    locals: Set<Seq<char>>,
    a: Seq<Seq<char>>,
) -> Option<(Seq<Seq<Seq<char>>>, Seq<Seq<char>>)>
    decreases es,
{
    if es.len() == 0 {
        Some((f, a))
    } else if !fn_expr_ok(es[0].0, f, b, locals, a) {
        None
    } else {
        match fn_block_res(es[0].1@, f, b, locals, a) {
            Some((f1, a1)) => fn_elifs_res(es.drop_first(), f1, b, locals, a1),
            None => None,
        }
    }
}

/// Whether a method resolves: it takes `self` first, and its body resolves
/// with its parameters as its locals, all assigned.
pub open spec fn method_ok(m: crate::ast::MethodDef, f: Seq<Seq<Seq<char>>>, b: Seq<Seq<char>>) -> bool {
    let p = names_of(m.params@);
    &&& m.params.len() > 0
    &&& m.params@[0]@ == "self"@
    &&& fn_block_res(m.body@, f.push(p), b, p.to_set(), p) is Some
}

/// What resolving one module statement gives, from the frames `f` with the
/// functions `d` recorded: the frames and recorded functions after it, or
/// `None` where it reports an error.
pub open spec fn module_stmt_res(
    st: StmtS,
    f: Seq<Seq<Seq<char>>>,
    b: Seq<Seq<char>>,
    d: Seq<(Seq<char>, usize)>,
) -> Option<(Seq<Seq<Seq<char>>>, Seq<(Seq<char>, usize)>)>
    decreases st,
{
    match st.0 {
        Stmt::Break | Stmt::Continue | Stmt::Pass => Some((f, d)),
        Stmt::Expr(e) => if module_expr_ok(e, f, b) { Some((f, d)) } else { None },
        Stmt::Return(e) => if module_expr_ok(e, f, b) { Some((f, d)) } else { None },
        Stmt::Assign { target, value } => if !module_expr_ok(value, f, b) {
            None
        } else {
            match target.0 {
                Expr::Variable(n) => Some((define_if_new(f, n@), d)),
                Expr::Attribute { .. } | Expr::Index { .. } =>
                    if module_expr_ok(target, f, b) { Some((f, d)) } else { None },
                _ => None,
            }
        },
        Stmt::Def { name, params, body } => {
            let f1 = define_top(f, name@);
            let p = names_of(params@);
            if fn_block_res(body@, f1.push(p), b, p.to_set().union(block_locals(body@)), p) is Some {
                Some((f1, d.push((name@, params.len()))))
            } else {
                None
            }
        },
        Stmt::If { condition, then_block, elif_blocks, else_block } => if !module_expr_ok(condition, f, b) {
            None
        } else {
            match module_block_res(then_block@, f, b, d) {
                Some((f2, d2)) => match module_elifs_res(elif_blocks@, f2, b, d2) {
                    Some((f3, d3)) => match else_block {
                        Some(bl) => module_block_res(bl@, f3, b, d3),
                        None => Some((f3, d3)),
                    },
                    None => None,
                },
                None => None,
            }
        },
        Stmt::While { condition, body } =>
            if !module_expr_ok(condition, f, b) { None } else { module_block_res(body@, f, b, d) },
        Stmt::For { var, iterable, body } =>
            if !module_expr_ok(iterable, f, b) { None } else { module_block_res(body@, define_top(f, var@), b, d) },
        Stmt::Class { name, methods, .. } => {
            let f1 = define_top(f, name@);
            if forall|m: int| 0 <= m < methods.len() ==> method_ok(#[trigger] methods@[m], f1, b) {
                Some((f1, d))
            } else {
                None
            }
        },
    }
}

/// The statements of a module block resolved in order.
pub open spec fn module_block_res(
    ss: Seq<StmtS>,
    f: Seq<Seq<Seq<char>>>,
    b: Seq<Seq<char>>,
    d: Seq<(Seq<char>, usize)>,
) -> Option<(Seq<Seq<Seq<char>>>, Seq<(Seq<char>, usize)>)>
    decreases ss,
{
    if ss.len() == 0 {
        Some((f, d))
    } else {
        match module_stmt_res(ss[0], f, b, d) {
            Some((f1, d1)) => module_block_res(ss.drop_first(), f1, b, d1),
            None => None,
        }
    }
}

/// The `elif` branches of a module statement resolved in order.
pub open spec fn module_elifs_res(
    es: Seq<(ExprS, Vec<StmtS>)>,
    f: Seq<Seq<Seq<char>>>,
    b: Seq<Seq<char>>,
    d: Seq<(Seq<char>, usize)>,
) -> Option<(Seq<Seq<Seq<char>>>, Seq<(Seq<char>, usize)>)>
    decreases es,
{
    if es.len() == 0 {
        Some((f, d))
    } else if !module_expr_ok(es[0].0, f, b) {
        None
    } else {
        match module_block_res(es[0].1@, f, b, d) {
            Some((f1, d1)) => module_elifs_res(es.drop_first(), f1, b, d1),
            None => None,
        }
    }
}

/// Resolves a function: its parameters and the names its body binds are its
/// locals; only the parameters count as assigned on entry.
pub fn analyze_function(
    params: &Vec<String>,
    body: &Vec<StmtS>,
    scopes: &mut ScopeStack,
    ctx: &crate::semantic::ProgramContext,
) -> (r: SemanticResult<()>)
    ensures
        r is Ok <==> fn_block_res(body@, old(scopes).frames().push(names_of(params@)), names_of(ctx.builtins@),
            names_of(params@).to_set().union(block_locals(body@)), names_of(params@)) is Some,
        r is Ok ==> final(scopes).frames() == old(scopes).frames(),
    decreases body,
{
    let ghost b = names_of(ctx.builtins@);
    let ghost p = names_of(params@);
    push_params(scopes, params);
    let mut locals = crate::parser::clone_strings(params);
    collect_locals(body, &mut locals);
    let ghost l = names_of(locals@).to_set();
    assert(l == p.to_set().union(block_locals(body@)));
    let mut assigned = crate::parser::clone_strings(params);
    let ghost f1 = scopes.frames();
    assert(body@.subrange(0, body@.len() as int) =~= body@);
    let mut i: usize = 0;
    while i < body.len()
        invariant
            i <= body.len(),
            l == names_of(locals@).to_set(),
            b == names_of(ctx.builtins@),
            p == names_of(params@),
            f1 == old(scopes).frames().push(p),
            l == p.to_set().union(block_locals(body@)),
            scopes.frames().len() == old(scopes).frames().len() + 1,
            scopes.frames().drop_last() == old(scopes).frames(),
            fn_block_res(body@, f1, b, l, p)
                == fn_block_res(body@.subrange(i as int, body@.len() as int), scopes.frames(), b, l, names_of(assigned@)),
        decreases body.len() - i,
    {
        let ghost sub = body@.subrange(i as int, body@.len() as int);
        assert(sub.drop_first() =~= body@.subrange(i + 1, body@.len() as int));
        assert(sub[0] == body@[i as int]);
        analyze_stmt_function(&body[i], scopes, ctx, &locals, &mut assigned)?;
        i = i + 1;
    }
    assert(body@.subrange(i as int, body@.len() as int) =~= Seq::<StmtS>::empty());
    scopes.pop();
    assert(scopes.frames() =~= old(scopes).frames());
    Ok(())
}

fn analyze_block_function(
    block: &Vec<StmtS>,
    scopes: &mut ScopeStack,
    ctx: &crate::semantic::ProgramContext,
    locals: &Vec<String>,
    assigned: &mut Vec<String>,
) -> (r: SemanticResult<()>)
    requires
        old(scopes).frames().len() > 0,
    ensures
        r is Ok ==> final(scopes).frames().len() == old(scopes).frames().len()
            && final(scopes).frames().drop_last() == old(scopes).frames().drop_last(),
        match fn_block_res(block@, old(scopes).frames(), names_of(ctx.builtins@), names_of(locals@).to_set(),
            names_of(old(assigned)@)) {
            Some((f1, a1)) => r is Ok && final(scopes).frames() == f1 && names_of(final(assigned)@) == a1,
            None => r is Err,
        },
    decreases block,
{
    let ghost b = names_of(ctx.builtins@);
    let ghost l = names_of(locals@).to_set();
    assert(block@.subrange(0, block@.len() as int) =~= block@);
    let mut i: usize = 0;
    while i < block.len()
        invariant
            i <= block.len(),
            old(scopes).frames().len() > 0,
            b == names_of(ctx.builtins@),
            l == names_of(locals@).to_set(),
            scopes.frames().len() == old(scopes).frames().len(),
            scopes.frames().drop_last() == old(scopes).frames().drop_last(),
            fn_block_res(block@, old(scopes).frames(), b, l, names_of(old(assigned)@))
                == fn_block_res(block@.subrange(i as int, block@.len() as int), scopes.frames(), b, l, names_of(assigned@)),
        decreases block.len() - i,
    {
        let ghost sub = block@.subrange(i as int, block@.len() as int);
        assert(sub.drop_first() =~= block@.subrange(i + 1, block@.len() as int));
        assert(sub[0] == block@[i as int]);
        analyze_stmt_function(&block[i], scopes, ctx, locals, assigned)?;
        i = i + 1;
    }
    assert(block@.subrange(i as int, block@.len() as int) =~= Seq::<StmtS>::empty());
    Ok(())
}

fn analyze_elifs_function(
    elifs: &Vec<(ExprS, Vec<StmtS>)>,
    scopes: &mut ScopeStack,
    ctx: &crate::semantic::ProgramContext,
    locals: &Vec<String>,
    assigned: &mut Vec<String>,
) -> (r: SemanticResult<()>)
    requires
        old(scopes).frames().len() > 0,
    ensures
        r is Ok ==> final(scopes).frames().len() == old(scopes).frames().len()
            && final(scopes).frames().drop_last() == old(scopes).frames().drop_last(),
        match fn_elifs_res(elifs@, old(scopes).frames(), names_of(ctx.builtins@), names_of(locals@).to_set(),
            names_of(old(assigned)@)) {
            Some((f1, a1)) => r is Ok && final(scopes).frames() == f1 && names_of(final(assigned)@) == a1,
            None => r is Err,
        },
    decreases elifs,
{
    let ghost b = names_of(ctx.builtins@);
    let ghost l = names_of(locals@).to_set();
    assert(elifs@.subrange(0, elifs@.len() as int) =~= elifs@);
    let mut i: usize = 0;
    while i < elifs.len()
        invariant
            i <= elifs.len(),
            old(scopes).frames().len() > 0,
            b == names_of(ctx.builtins@),
            l == names_of(locals@).to_set(),
            scopes.frames().len() == old(scopes).frames().len(),
            scopes.frames().drop_last() == old(scopes).frames().drop_last(),
            fn_elifs_res(elifs@, old(scopes).frames(), b, l, names_of(old(assigned)@))
                == fn_elifs_res(elifs@.subrange(i as int, elifs@.len() as int), scopes.frames(), b, l, names_of(assigned@)),
        decreases elifs.len() - i,
    {
        let ghost sub = elifs@.subrange(i as int, elifs@.len() as int);
        assert(sub.drop_first() =~= elifs@.subrange(i + 1, elifs@.len() as int));
        assert(sub[0] == elifs@[i as int]);
        analyze_expr_function(&elifs[i].0, scopes, ctx, locals, assigned)?;
        analyze_block_function(&elifs[i].1, scopes, ctx, locals, assigned)?;
        i = i + 1;
    }
    assert(elifs@.subrange(i as int, elifs@.len() as int) =~= Seq::<(ExprS, Vec<StmtS>)>::empty());
    Ok(())
}

proof fn lemma_define_top(f0: Seq<Seq<Seq<char>>>, n: Seq<char>)
    requires
        f0.len() > 0,
    ensures
        define_top(f0, n).len() == f0.len(),
        define_top(f0, n).drop_last() == f0.drop_last(),
{
    assert(define_top(f0, n).drop_last() =~= f0.drop_last());
}

/// Resolves one statement of a function body.
pub fn analyze_stmt_function(
    stmt: &StmtS,
    scopes: &mut ScopeStack,
    ctx: &crate::semantic::ProgramContext,
    locals: &Vec<String>,
    assigned: &mut Vec<String>,
) -> (r: SemanticResult<()>)
    requires
        old(scopes).frames().len() > 0,
    ensures
        r is Ok ==> final(scopes).frames().len() == old(scopes).frames().len()
            && final(scopes).frames().drop_last() == old(scopes).frames().drop_last(),
        match fn_stmt_res(*stmt, old(scopes).frames(), names_of(ctx.builtins@), names_of(locals@).to_set(),
            names_of(old(assigned)@)) {
            Some((f1, a1)) => r is Ok && final(scopes).frames() == f1 && names_of(final(assigned)@) == a1,
            None => r is Err,
        },
    decreases stmt,
{
    let ghost f0 = scopes.frames();
    proof { lemma_define_top(f0, Seq::empty()); }
    match &stmt.0 {
        Stmt::Break | Stmt::Continue | Stmt::Pass => Ok(()),
        Stmt::Assign { target, value } => {
            analyze_expr_function(value, scopes, ctx, locals, assigned)?;
            match &target.0 {
                Expr::Variable(name) => {
                    proof { crate::semantic::scope::lemma_names_push(assigned@, *name); }
                    assigned.push(name.clone());
                    if !scopes.is_defined(name.as_str()) {
                        scopes.define(name.clone());
                        proof { lemma_define_top(f0, name@); }
                    }
                    Ok(())
                },
                Expr::Attribute { .. } | Expr::Index { .. } => {
                    analyze_expr_function(target, scopes, ctx, locals, assigned)?;
                    Ok(())
                },
                _ => Err(name_error("Invalid assignment target", "", "", target.1)),
            }
        },
        Stmt::Def { name, params, body } => {
            if !scopes.is_defined(name.as_str()) {
                scopes.define(name.clone());
                proof { lemma_define_top(f0, name@); }
            }
            let mut inner_ctx = ctx.copy();
            inner_ctx.set_function(name.clone(), params.len());
            assert(names_of(inner_ctx.builtins@) == names_of(ctx.builtins@));
            analyze_function(params, body, scopes, &inner_ctx)
        },
        Stmt::If { condition, then_block, elif_blocks, else_block } => {
            analyze_expr_function(condition, scopes, ctx, locals, assigned)?;
            analyze_block_function(then_block, scopes, ctx, locals, assigned)?;
            analyze_elifs_function(elif_blocks, scopes, ctx, locals, assigned)?;
            match else_block {
                Some(block) => {
                    analyze_block_function(block, scopes, ctx, locals, assigned)?;
                },
                None => {},
            }
            Ok(())
        },
        Stmt::While { condition, body } => {
            analyze_expr_function(condition, scopes, ctx, locals, assigned)?;
            analyze_block_function(body, scopes, ctx, locals, assigned)?;
            Ok(())
        },
        Stmt::For { var, iterable, body } => {
            analyze_expr_function(iterable, scopes, ctx, locals, assigned)?;
            if !scopes.is_defined(var.as_str()) {
                scopes.define(var.clone());
                proof { lemma_define_top(f0, var@); }
            }
            if contains_name(locals, var.as_str()) {
                proof { crate::semantic::scope::lemma_names_push(assigned@, *var); }
                assigned.push(var.clone());
            }
            analyze_block_function(body, scopes, ctx, locals, assigned)?;
            Ok(())
        },
        Stmt::Return(e) => analyze_expr_function(e, scopes, ctx, locals, assigned),
        Stmt::Expr(e) => analyze_expr_function(e, scopes, ctx, locals, assigned),
        Stmt::Class { name, .. } => {
            scopes.define(name.clone());
            proof { lemma_define_top(f0, name@); }
            Ok(())
        },
    }
}

fn analyze_block_module(
    block: &Vec<StmtS>,
    scopes: &mut ScopeStack,
    ctx: &mut crate::semantic::ProgramContext,
) -> (r: SemanticResult<()>)
    requires
        old(scopes).frames().len() > 0,
    ensures
        r is Ok ==> final(scopes).frames().len() == old(scopes).frames().len()
            && final(scopes).frames().drop_last() == old(scopes).frames().drop_last(),
        final(ctx).builtins@ == old(ctx).builtins@,
        match module_block_res(block@, old(scopes).frames(), names_of(old(ctx).builtins@), old(ctx).fns()) {
            Some((f1, d1)) => r is Ok && final(scopes).frames() == f1 && final(ctx).fns() == d1,
            None => r is Err,
        },
    decreases block,
{
    let ghost b = names_of(ctx.builtins@);
    assert(block@.subrange(0, block@.len() as int) =~= block@);
    let mut i: usize = 0;
    while i < block.len()
        invariant
            i <= block.len(),
            old(scopes).frames().len() > 0,
            b == names_of(old(ctx).builtins@),
            scopes.frames().len() == old(scopes).frames().len(),
            scopes.frames().drop_last() == old(scopes).frames().drop_last(),
            ctx.builtins@ == old(ctx).builtins@,
            module_block_res(block@, old(scopes).frames(), b, old(ctx).fns())
                == module_block_res(block@.subrange(i as int, block@.len() as int), scopes.frames(), b, ctx.fns()),
        decreases block.len() - i,
    {
        let ghost sub = block@.subrange(i as int, block@.len() as int);
        assert(sub.drop_first() =~= block@.subrange(i + 1, block@.len() as int));
        assert(sub[0] == block@[i as int]);
        analyze_stmt_module(&block[i], scopes, ctx)?;
        i = i + 1;
    }
    assert(block@.subrange(i as int, block@.len() as int) =~= Seq::<StmtS>::empty());
    Ok(())
}

fn analyze_elifs_module(
    elifs: &Vec<(ExprS, Vec<StmtS>)>,
    scopes: &mut ScopeStack,
    ctx: &mut crate::semantic::ProgramContext,
) -> (r: SemanticResult<()>)
    requires
        old(scopes).frames().len() > 0,
    ensures
        r is Ok ==> final(scopes).frames().len() == old(scopes).frames().len()
            && final(scopes).frames().drop_last() == old(scopes).frames().drop_last(),
        final(ctx).builtins@ == old(ctx).builtins@,
        match module_elifs_res(elifs@, old(scopes).frames(), names_of(old(ctx).builtins@), old(ctx).fns()) {
            Some((f1, d1)) => r is Ok && final(scopes).frames() == f1 && final(ctx).fns() == d1,
            None => r is Err,
        },
    decreases elifs,
{
    let ghost b = names_of(ctx.builtins@);
    assert(elifs@.subrange(0, elifs@.len() as int) =~= elifs@);
    let mut i: usize = 0;
    while i < elifs.len()
        invariant
            i <= elifs.len(),
            old(scopes).frames().len() > 0,
            b == names_of(old(ctx).builtins@),
            scopes.frames().len() == old(scopes).frames().len(),
            scopes.frames().drop_last() == old(scopes).frames().drop_last(),
            ctx.builtins@ == old(ctx).builtins@,
            module_elifs_res(elifs@, old(scopes).frames(), b, old(ctx).fns())
                == module_elifs_res(elifs@.subrange(i as int, elifs@.len() as int), scopes.frames(), b, ctx.fns()),
        decreases elifs.len() - i,
    {
        let ghost sub = elifs@.subrange(i as int, elifs@.len() as int);
        assert(sub.drop_first() =~= elifs@.subrange(i + 1, elifs@.len() as int));
        assert(sub[0] == elifs@[i as int]);
        analyze_expr_module(&elifs[i].0, scopes, ctx)?;
        analyze_block_module(&elifs[i].1, scopes, ctx)?;
        i = i + 1;
    }
    assert(elifs@.subrange(i as int, elifs@.len() as int) =~= Seq::<(ExprS, Vec<StmtS>)>::empty());
    Ok(())
}

/// Resolves the methods of a class: each must take `self` first, and its
/// body is resolved with its parameters as its locals.
fn analyze_methods(
    class_name: &str,
    methods: &Vec<crate::ast::MethodDef>,
    scopes: &mut ScopeStack,
    ctx: &crate::semantic::ProgramContext,
    span: crate::ast::Span,
) -> (r: SemanticResult<()>)
    ensures
        r is Ok <==> forall|m: int| 0 <= m < methods.len() ==>
            method_ok(#[trigger] methods@[m], old(scopes).frames(), names_of(ctx.builtins@)),
        r is Ok ==> final(scopes).frames() == old(scopes).frames(),
    decreases methods,
{
    let ghost b = names_of(ctx.builtins@);
    let mut i: usize = 0;
    while i < methods.len()
        invariant
            i <= methods.len(),
            b == names_of(ctx.builtins@),
            scopes.frames() == old(scopes).frames(),
            forall|m: int| 0 <= m < i ==> method_ok(#[trigger] methods@[m], old(scopes).frames(), b),
        decreases methods.len() - i,
    {
        let method = &methods[i];
        if method.params.len() == 0 || !crate::builtins::str_eq(method.params[0].as_str(), "self") {
            assert(!method_ok(methods@[i as int], old(scopes).frames(), b));
            let mut m = "Method '".to_owned();
            m.append(method.name.as_str());
            m.append("' in class '");
            m.append(class_name);
            m.append("' must have 'self' as first parameter");
            return Err(SemanticError { message: m, span });
        }
        push_params(scopes, &method.params);
        let locals = crate::parser::clone_strings(&method.params);
        let mut assigned = crate::parser::clone_strings(&method.params);
        let res = analyze_block_function(&method.body, scopes, ctx, &locals, &mut assigned);
        if res.is_err() {
            assert(!method_ok(methods@[i as int], old(scopes).frames(), b));
            return res;
        }
        scopes.pop();
        assert(scopes.frames() =~= old(scopes).frames());
        assert(method_ok(methods@[i as int], old(scopes).frames(), b));
        i = i + 1;
    }
    Ok(())
}

/// Resolves one module-level statement; a function definition records its
/// arity in `ctx`.
pub fn analyze_stmt_module(
    stmt: &StmtS,
    scopes: &mut ScopeStack,
    ctx: &mut crate::semantic::ProgramContext,
) -> (r: SemanticResult<()>)
    requires
        old(scopes).frames().len() > 0,
    ensures
        r is Ok ==> final(scopes).frames().len() == old(scopes).frames().len()
            && final(scopes).frames().drop_last() == old(scopes).frames().drop_last(),
        final(ctx).builtins@ == old(ctx).builtins@,
        match module_stmt_res(*stmt, old(scopes).frames(), names_of(old(ctx).builtins@), old(ctx).fns()) {
            Some((f1, d1)) => r is Ok && final(scopes).frames() == f1 && final(ctx).fns() == d1,
            None => r is Err,
        },
    decreases stmt,
{
    let ghost f0 = scopes.frames();
    proof { lemma_define_top(f0, Seq::empty()); }
    match &stmt.0 {
        Stmt::Break | Stmt::Continue | Stmt::Pass => Ok(()),
        Stmt::Def { name, params, body } => {
            scopes.define(name.clone());
            proof { lemma_define_top(f0, name@); }
            ctx.set_function(name.clone(), params.len());
            analyze_function(params, body, scopes, ctx)
        },
        Stmt::Assign { target, value } => {
            analyze_expr_module(value, scopes, ctx)?;
            match &target.0 {
                Expr::Variable(name) => {
                    if !scopes.is_defined(name.as_str()) {
                        scopes.define(name.clone());
                        proof { lemma_define_top(f0, name@); }
                    }
                    Ok(())
                },
                Expr::Attribute { .. } | Expr::Index { .. } => {
                    analyze_expr_module(target, scopes, ctx)?;
                    Ok(())
                },
                _ => Err(name_error("Invalid assignment target", "", "", target.1)),
            }
        },
        Stmt::If { condition, then_block, elif_blocks, else_block } => {
            analyze_expr_module(condition, scopes, ctx)?;
            analyze_block_module(then_block, scopes, ctx)?;
            analyze_elifs_module(elif_blocks, scopes, ctx)?;
            match else_block {
                Some(block) => {
                    analyze_block_module(block, scopes, ctx)?;
                },
                None => {},
            }
            Ok(())
        },
        Stmt::While { condition, body } => {
            analyze_expr_module(condition, scopes, ctx)?;
            analyze_block_module(body, scopes, ctx)?;
            Ok(())
        },
        Stmt::For { var, iterable, body } => {
            analyze_expr_module(iterable, scopes, ctx)?;
            scopes.define(var.clone());
            proof { lemma_define_top(f0, var@); }
            analyze_block_module(body, scopes, ctx)?;
            Ok(())
        },
        Stmt::Return(e) => analyze_expr_module(e, scopes, ctx),
        Stmt::Expr(e) => analyze_expr_module(e, scopes, ctx),
        Stmt::Class { name, methods, .. } => {
            scopes.define(name.clone());
            proof { lemma_define_top(f0, name@); }
            analyze_methods(name.as_str(), methods, scopes, ctx, stmt.1)
        },
    }
}

} // verus!
