//! Type checking: a flow-insensitive pass that infers simple types for
//! expressions and reports operations on incompatible types.

use vstd::prelude::*;
use crate::ast::{BinaryOp, Expr, ExprS, Literal, Span, Stmt, StmtS, UnaryOp};
use crate::builtins::{Arity, arity_accepts, str_eq};
use crate::semantic::{fn_arity, ProgramContext, SemanticError, SemanticResult};
use crate::text::push_char;

verus! {

/// The types the type checker distinguishes.
#[derive(Debug)]
pub enum Ty {
    Int,
    Bool,
    String,
    Float,
    NoneType,
    Unknown,
    List(Box<Ty>),
    Dict(Box<Ty>, Box<Ty>),
    Range,
    Function,
}

pub fn clone_ty(t: &Ty) -> (r: Ty)
    ensures
        r == *t,
    decreases t,
{
    match t {
        Ty::Int => Ty::Int,
        Ty::Bool => Ty::Bool,
        Ty::String => Ty::String,
        Ty::Float => Ty::Float,
        Ty::NoneType => Ty::NoneType,
        Ty::Unknown => Ty::Unknown,
        Ty::List(e) => Ty::List(Box::new(clone_ty(e))),
        Ty::Dict(k, v) => Ty::Dict(Box::new(clone_ty(k)), Box::new(clone_ty(v))),
        Ty::Range => Ty::Range,
        Ty::Function => Ty::Function,
    }
}

pub fn ty_eq(a: &Ty, b: &Ty) -> (r: bool)
    ensures
        r == (*a == *b),
    decreases a,
{
    match (a, b) {
        (Ty::Int, Ty::Int) => true,
        (Ty::Bool, Ty::Bool) => true,
        (Ty::String, Ty::String) => true,
        (Ty::Float, Ty::Float) => true,
        (Ty::NoneType, Ty::NoneType) => true,
        (Ty::Unknown, Ty::Unknown) => true,
        (Ty::List(x), Ty::List(y)) => ty_eq(x, y),
        (Ty::Dict(k1, v1), Ty::Dict(k2, v2)) => ty_eq(k1, k2) && ty_eq(v1, v2),
        (Ty::Range, Ty::Range) => true,
        (Ty::Function, Ty::Function) => true,
        _ => false,
    }
}

/// How a type is written in messages.
pub open spec fn ty_text(t: Ty) -> Seq<char>
    decreases t,
{
    match t {
        Ty::Int => "Int"@,
        Ty::Bool => "Bool"@,
        Ty::String => "String"@,
        Ty::Float => "Float"@,
        Ty::NoneType => "NoneType"@,
        Ty::Unknown => "Unknown"@,
        Ty::List(e) => "List("@ + ty_text(*e) + seq![')'],
        Ty::Dict(k, v) => "Dict("@ + ty_text(*k) + ", "@ + ty_text(*v) + seq![')'],
        Ty::Range => "Range"@,
        Ty::Function => "Function"@,
    }
}

/// Writes a type as `ty_text` does.
pub fn ty_debug(t: &Ty) -> (s: String)
    ensures
        s@ == ty_text(*t),
    decreases t,
{
    match t {
        Ty::Int => "Int".to_owned(),
        Ty::Bool => "Bool".to_owned(),
        Ty::String => "String".to_owned(),
        Ty::Float => "Float".to_owned(),
        Ty::NoneType => "NoneType".to_owned(),
        Ty::Unknown => "Unknown".to_owned(),
        Ty::List(e) => {
            let mut s = "List(".to_owned();
            let inner = ty_debug(e);
            s.append(inner.as_str());
            push_char(&mut s, ')');
            s
        },
        Ty::Dict(k, v) => {
            let mut s = "Dict(".to_owned();
            let a = ty_debug(k);
            s.append(a.as_str());
            s.append(", ");
            let b = ty_debug(v);
            s.append(b.as_str());
            push_char(&mut s, ')');
            s
        },
        Ty::Range => "Range".to_owned(),
        Ty::Function => "Function".to_owned(),
    }
}

fn type_error(message: String, span: Span) -> (e: SemanticError)
    ensures
        e.span == span,
        e.message == message,
{
    SemanticError { message, span }
}

fn message2(prefix: &str, a: &Ty, sep: &str, b: &Ty) -> (m: String)
    ensures
        m@ == prefix@ + ty_text(*a) + sep@ + ty_text(*b),
{
    let mut m = prefix.to_owned();
    let x = ty_debug(a);
    m.append(x.as_str());
    m.append(sep);
    let y = ty_debug(b);
    m.append(y.as_str());
    m
}

fn message1(prefix: &str, a: &Ty) -> (m: String)
    ensures
        m@ == prefix@ + ty_text(*a),
{
    let mut m = prefix.to_owned();
    let x = ty_debug(a);
    m.append(x.as_str());
    m
}

/// The frames of a type environment: the types given to names in each
/// module or function frame, innermost last; later entries win.
pub type EnvView = Seq<Seq<(Seq<char>, Ty)>>;

/// The type given last to a name within one frame.
pub open spec fn frame_lookup(f: Seq<(Seq<char>, Ty)>, name: Seq<char>) -> Option<Ty>
    decreases f.len(),
{
    if f.len() == 0 {
        None
    } else if f.last().0 == name {
        Some(f.last().1)
    } else {
        frame_lookup(f.drop_last(), name)
    }
}

/// The type of a name in the innermost frame that knows it.
pub open spec fn env_lookup(frames: EnvView, name: Seq<char>) -> Option<Ty>
    decreases frames.len(),
{
    if frames.len() == 0 {
        None
    } else {
        match frame_lookup(frames.last(), name) {
            Some(t) => Some(t),
            None => env_lookup(frames.drop_last(), name),
        }
    }
}

pub open spec fn frame_view(f: Seq<(String, Ty)>) -> Seq<(Seq<char>, Ty)> {
    f.map_values(|p: (String, Ty)| (p.0@, p.1))
}

/// The type given last to a name within one frame.
fn frame_get(f: &Vec<(String, Ty)>, name: &str) -> (r: Option<Ty>)
    ensures
        r == frame_lookup(frame_view(f@), name@),
{
    let mut j = f.len();
    assert(frame_view(f@).subrange(0, j as int) =~= frame_view(f@));
    while j > 0
        invariant
            j <= f.len(),
            frame_lookup(frame_view(f@), name@) == frame_lookup(frame_view(f@).subrange(0, j as int), name@),
        decreases j,
    {
        let ghost fp = frame_view(f@).subrange(0, j as int);
        assert(fp.drop_last() =~= frame_view(f@).subrange(0, j - 1));
        assert(fp.last() == (f@[j - 1].0@, f@[j - 1].1));
        if str_eq(f[j - 1].0.as_str(), name) {
            return Some(clone_ty(&f[j - 1].1));
        }
        j = j - 1;
    }
    assert(frame_view(f@).subrange(0, 0) =~= Seq::<(Seq<char>, Ty)>::empty());
    None
}

/// A copy of one frame.
fn frame_copy(f: &Vec<(String, Ty)>) -> (r: Vec<(String, Ty)>)
    ensures
        frame_view(r@) == frame_view(f@),
{
    let mut nf: Vec<(String, Ty)> = Vec::new();
    let mut j: usize = 0;
    while j < f.len()
        invariant
            j <= f.len(),
            nf.len() == j,
            forall|k: int| 0 <= k < j ==> (#[trigger] nf@[k]).0@ == f@[k].0@ && nf@[k].1 == f@[k].1,
        decreases f.len() - j,
    {
        nf.push((f[j].0.clone(), clone_ty(&f[j].1)));
        j = j + 1;
    }
    assert(frame_view(nf@) =~= frame_view(f@));
    nf
}

/// The environment after giving a type to a name in the innermost frame.
pub open spec fn env_set(env: EnvView, name: Seq<char>, t: Ty) -> EnvView {
    if env.len() == 0 {
        env
    } else {
        env.update(env.len() - 1, env.last().push((name, t)))
    }
}

/// Types of names, one frame per module or function.
pub struct TypeEnv {
    frames: Vec<Vec<(String, Ty)>>,
}

impl TypeEnv {
    pub closed spec fn view(&self) -> EnvView {
        self.frames@.map_values(|f: Vec<(String, Ty)>| frame_view(f@))
    }

    /// One empty module frame.
    pub fn new() -> (r: Self)
        ensures
            r.view() == seq![Seq::<(Seq<char>, Ty)>::empty()],
    {
        let mut frames: Vec<Vec<(String, Ty)>> = Vec::new();
        frames.push(Vec::new());
        let r = TypeEnv { frames };
        assert(frame_view(Seq::<(String, Ty)>::empty()) =~= Seq::<(Seq<char>, Ty)>::empty());
        assert(r.view() =~= seq![Seq::<(Seq<char>, Ty)>::empty()]);
        r
    }

    /// Opens a function frame.
    pub fn push(&mut self)
        ensures
            final(self).view() == old(self).view().push(Seq::empty()),
    {
        self.frames.push(Vec::new());
        assert(frame_view(Seq::<(String, Ty)>::empty()) =~= Seq::<(Seq<char>, Ty)>::empty());
        assert(self.view() =~= old(self).view().push(Seq::empty()));
    }

    /// Closes the innermost frame.
    pub fn pop(&mut self)
        ensures
            old(self).view().len() > 0 ==> final(self).view() == old(self).view().drop_last(),
            old(self).view().len() == 0 ==> final(self).view() == old(self).view(),
    {
        if self.frames.len() > 0 {
            self.frames.pop();
            assert(self.view() =~= old(self).view().drop_last());
        }
    }

    /// The type of a name in the innermost frame that knows it.
    pub fn get(&self, name: &str) -> (r: Option<Ty>)
        ensures
            r == env_lookup(self.view(), name@),
    {
        let mut i = self.frames.len();
        assert(self.view().subrange(0, i as int) =~= self.view());
        while i > 0
            invariant
                i <= self.frames.len(),
                env_lookup(self.view(), name@) == env_lookup(self.view().subrange(0, i as int), name@),
            decreases i,
        {
            let ghost pre = self.view().subrange(0, i as int);
            assert(pre.drop_last() =~= self.view().subrange(0, i - 1));
            assert(pre.last() == frame_view(self.frames@[i - 1]@));
            match frame_get(&self.frames[i - 1], name) {
                Some(t) => {
                    return Some(t);
                },
                None => {},
            }
            i = i - 1;
        }
        assert(self.view().subrange(0, 0) =~= Seq::<Seq<(Seq<char>, Ty)>>::empty());
        None
    }

    /// Gives a type to a name in the innermost frame.
    pub fn set(&mut self, name: String, ty: Ty)
        ensures
            final(self).view() == env_set(old(self).view(), name@, ty),
    {
        if self.frames.len() > 0 {
            let mut top = self.frames.pop().unwrap();
            let ghost old_top = top@;
            top.push((name, ty));
            assert(frame_view(top@) =~= frame_view(old_top).push((name@, ty)));
            self.frames.push(top);
            assert(self.view() =~= old(self).view().update(
                old(self).view().len() - 1,
                old(self).view().last().push((name@, ty)),
            ));
        }
    }

    /// A copy of the environment.
    pub fn snapshot(&self) -> (r: Self)
        ensures
            r.view() == self.view(),
    {
        let mut frames: Vec<Vec<(String, Ty)>> = Vec::new();
        let mut i: usize = 0;
        while i < self.frames.len()
            invariant
                i <= self.frames.len(),
                frames.len() == i,
                forall|k: int| 0 <= k < i ==> frame_view((#[trigger] frames@[k])@) == frame_view(self.frames@[k]@),
            decreases self.frames.len() - i,
        {
            let nf = frame_copy(&self.frames[i]);
            frames.push(nf);
            i = i + 1;
        }
        let r = TypeEnv { frames };
        assert(r.view() =~= self.view());
        r
    }

    /// The names given a type in the innermost frame.
    pub closed spec fn top_names(&self) -> Seq<Seq<char>> {
        if self.frames@.len() == 0 { Seq::empty() } else { self.frames@.last()@.map_values(|p: (String, Ty)| p.0@) }
    }
}

/// The type of a literal.
pub open spec fn literal_ty(l: Literal) -> Ty {
    match l {
        Literal::Bool(_) => Ty::Bool,
        Literal::Int(_) => Ty::Int,
        Literal::String(_) => Ty::String,
        Literal::Float(_) => Ty::Float,
        Literal::NoneLit => Ty::NoneType,
    }
}

/// Int and Float combine to the wider type; Unknown takes the other side.
pub open spec fn numeric_pair(t1: Ty, t2: Ty) -> Option<Ty> {
    match (t1, t2) {
        (Ty::Int, Ty::Int) => Some(Ty::Int),
        (Ty::Float, Ty::Float) => Some(Ty::Float),
        (Ty::Int, Ty::Float) => Some(Ty::Float),
        (Ty::Float, Ty::Int) => Some(Ty::Float),
        (Ty::Unknown, Ty::Int) => Some(Ty::Int),
        (Ty::Int, Ty::Unknown) => Some(Ty::Int),
        (Ty::Unknown, Ty::Float) => Some(Ty::Float),
        (Ty::Float, Ty::Unknown) => Some(Ty::Float),
        (Ty::Unknown, Ty::Unknown) => Some(Ty::Unknown),
        _ => None,
    }
}

/// Equality needs equal types, an Unknown side, or an Int/Float mix.
pub open spec fn same_or_unknown(t1: Ty, t2: Ty) -> bool {
    t1 == Ty::Unknown || t2 == Ty::Unknown || t1 == t2
        || (t1 == Ty::Int && t2 == Ty::Float) || (t1 == Ty::Float && t2 == Ty::Int)
}

/// The type of `+` on two operand types.
pub open spec fn add_ty(tl: Ty, tr: Ty) -> Option<Ty> {
    match (tl, tr) {
        (Ty::String, Ty::String) => Some(Ty::String),
        (Ty::Unknown, Ty::String) => Some(Ty::String),
        (Ty::String, Ty::Unknown) => Some(Ty::String),
        _ => numeric_pair(tl, tr),
    }
}

/// The type of `*` on two operand types.
pub open spec fn mul_ty(tl: Ty, tr: Ty) -> Option<Ty> {
    match (tl, tr) {
        (Ty::String, Ty::Int) => Some(Ty::String),
        (Ty::Int, Ty::String) => Some(Ty::String),
        (Ty::Unknown, Ty::String) => Some(Ty::String),
        (Ty::String, Ty::Unknown) => Some(Ty::String),
        _ => numeric_pair(tl, tr),
    }
}

/// Whether `<`, `<=`, `>`, `>=` accept the two operand types.
pub open spec fn ordered_pair(tl: Ty, tr: Ty) -> bool {
    numeric_pair(tl, tr) is Some
        || (tl == Ty::String && (tr == Ty::String || tr == Ty::Unknown))
        || (tl == Ty::Unknown && tr == Ty::String)
}

/// The type of a binary operation on two operand types.
pub open spec fn binary_ty(op: BinaryOp, tl: Ty, tr: Ty) -> Option<Ty> {
    match op {
        BinaryOp::Add => add_ty(tl, tr),
        BinaryOp::Multiply => mul_ty(tl, tr),
        BinaryOp::Subtract | BinaryOp::Modulo | BinaryOp::FloorDivide => numeric_pair(tl, tr),
        BinaryOp::Divide => if numeric_pair(tl, tr) is Some { Some(Ty::Float) } else { None },
        BinaryOp::Less | BinaryOp::LessEqual | BinaryOp::Greater | BinaryOp::GreaterEqual =>
            if ordered_pair(tl, tr) { Some(Ty::Bool) } else { None },
        BinaryOp::Equal | BinaryOp::NotEqual => if same_or_unknown(tl, tr) { Some(Ty::Bool) } else { None },
        BinaryOp::And | BinaryOp::Or => Some(Ty::Bool),
    }
}

/// The message of a binary operation whose operand types do not fit.
pub open spec fn binary_error_text(op: BinaryOp, tl: Ty, tr: Ty) -> Seq<char> {
    match op {
        BinaryOp::Add => "TypeError: unsupported operand types for +: "@ + ty_text(tl) + " and "@ + ty_text(tr),
        BinaryOp::Multiply => "TypeError: unsupported operand types for *: "@ + ty_text(tl) + " and "@ + ty_text(tr),
        BinaryOp::Less | BinaryOp::LessEqual | BinaryOp::Greater | BinaryOp::GreaterEqual =>
            "TypeError: cannot compare "@ + ty_text(tl) + " and "@ + ty_text(tr),
        BinaryOp::Equal | BinaryOp::NotEqual =>
            "TypeError: equality operands must have same type, got "@ + ty_text(tl) + " and "@ + ty_text(tr),
        _ => "TypeError: expected numeric types, got "@ + ty_text(tl) + " and "@ + ty_text(tr),
    }
}

/// The message of a unary operation whose operand type does not fit.
pub open spec fn unary_error_text(op: UnaryOp, t: Ty) -> Seq<char> {
    match op {
        UnaryOp::Not => "TypeError: expected Bool, got "@ + ty_text(t),
        _ => "TypeError: expected Int or Float, got "@ + ty_text(t),
    }
}

/// The type of a unary operation.
pub open spec fn unary_ty(op: UnaryOp, t: Ty) -> Option<Ty> {
    match op {
        UnaryOp::Not => if t == Ty::Bool || t == Ty::Unknown { Some(Ty::Bool) } else { None },
        _ => if t == Ty::Int { Some(Ty::Int) } else if t == Ty::Float { Some(Ty::Float) }
             else if t == Ty::Unknown { Some(Ty::Unknown) } else { None },
    }
}

/// The type of indexing an object with an index.
pub open spec fn index_ty(obj: Ty, idx: Ty) -> Option<Ty> {
    match obj {
        Ty::List(e) => if idx == Ty::Int || idx == Ty::Unknown { Some(*e) } else { None },
        Ty::Dict(k, v) => if idx != *k && idx != Ty::Unknown && *k != Ty::Unknown { None } else { Some(*v) },
        Ty::String => if idx == Ty::Int || idx == Ty::Unknown { Some(Ty::String) } else { None },
        Ty::Unknown => Some(Ty::Unknown),
        _ => None,
    }
}

/// The arity of a builtin by name.
pub open spec fn builtin_arity(name: Seq<char>) -> Option<Arity> {
    if name == "print"@ { Some(Arity::Variadic) }
    else if name == "input"@ { Some(Arity::Range(0, 1)) }
    else if name == "int"@ { Some(Arity::Exact(1)) }
    else if name == "bool"@ { Some(Arity::Exact(1)) }
    else if name == "str"@ { Some(Arity::Exact(1)) }
    else if name == "len"@ { Some(Arity::Exact(1)) }
    else if name == "range"@ { Some(Arity::Range(1, 3)) }
    else if name == "float"@ { Some(Arity::Exact(1)) }
    else if name == "assert"@ { Some(Arity::Exact(1)) }
    else { None }
}

/// The builtin names differ pairwise.
proof fn lemma_builtin_names_distinct()
    ensures
        "print"@ != "input"@, "print"@ != "int"@, "print"@ != "bool"@, "print"@ != "str"@,
        "print"@ != "len"@, "print"@ != "range"@, "print"@ != "float"@, "print"@ != "assert"@,
        "input"@ != "int"@, "input"@ != "bool"@, "input"@ != "str"@, "input"@ != "len"@,
        "input"@ != "range"@, "input"@ != "float"@, "input"@ != "assert"@,
        "int"@ != "bool"@, "int"@ != "str"@, "int"@ != "len"@, "int"@ != "range"@,
        "int"@ != "float"@, "int"@ != "assert"@,
        "bool"@ != "str"@, "bool"@ != "len"@, "bool"@ != "range"@, "bool"@ != "float"@,
        "bool"@ != "assert"@,
        "str"@ != "len"@, "str"@ != "range"@, "str"@ != "float"@, "str"@ != "assert"@,
        "len"@ != "range"@, "len"@ != "float"@, "len"@ != "assert"@,
        "range"@ != "float"@, "range"@ != "assert"@,
        "float"@ != "assert"@,
{
    reveal_strlit("print");
    reveal_strlit("input");
    reveal_strlit("int");
    reveal_strlit("bool");
    reveal_strlit("str");
    reveal_strlit("len");
    reveal_strlit("range");
    reveal_strlit("float");
    reveal_strlit("assert");
    assert("print"@[0] == 'p' && "input"@[0] == 'i' && "int"@[0] == 'i' && "bool"@[0] == 'b');
    assert("str"@[0] == 's' && "len"@[0] == 'l' && "range"@[0] == 'r' && "float"@[0] == 'f');
    assert("assert"@[0] == 'a');
    assert("input"@.len() == 5 && "int"@.len() == 3);
}

proof fn lemma_builtin_lookup(b: crate::builtins::Builtin, i: int, name: Seq<char>)
    requires
        crate::builtins::is_registry_entry(b, i),
        crate::builtins::registry_names()[i] == name,
    ensures
        builtin_arity(name) == Some(b.arity),
        b.name@ == name,
{
    reveal_strlit("print");
    reveal_strlit("input");
    reveal_strlit("int");
    reveal_strlit("bool");
    reveal_strlit("str");
    reveal_strlit("len");
    reveal_strlit("range");
    reveal_strlit("float");
    reveal_strlit("assert");
    lemma_builtin_names_distinct();
    let names = crate::builtins::registry_names();
    let ar = crate::builtins::registry_arities();
    if i == 0 { assert(names[0] == "print"@ && ar[0] == Arity::Variadic); assert(builtin_arity("print"@) == Some(Arity::Variadic)); }
    else if i == 1 { assert(names[1] == "input"@ && ar[1] == Arity::Range(0, 1)); assert(builtin_arity("input"@) == Some(Arity::Range(0, 1))); }
    else if i == 2 { assert(names[2] == "int"@ && ar[2] == Arity::Exact(1)); assert(builtin_arity("int"@) == Some(Arity::Exact(1))); }
    else if i == 3 { assert(names[3] == "bool"@ && ar[3] == Arity::Exact(1)); assert(builtin_arity("bool"@) == Some(Arity::Exact(1))); }
    else if i == 4 { assert(names[4] == "str"@ && ar[4] == Arity::Exact(1)); assert(builtin_arity("str"@) == Some(Arity::Exact(1))); }
    else if i == 5 { assert(names[5] == "len"@ && ar[5] == Arity::Exact(1)); assert(builtin_arity("len"@) == Some(Arity::Exact(1))); }
    else if i == 6 { assert(names[6] == "range"@ && ar[6] == Arity::Range(1, 3)); assert(builtin_arity("range"@) == Some(Arity::Range(1, 3))); }
    else if i == 7 { assert(names[7] == "float"@ && ar[7] == Arity::Exact(1)); assert(builtin_arity("float"@) == Some(Arity::Exact(1))); }
    else { assert(names[8] == "assert"@ && ar[8] == Arity::Exact(1)); assert(builtin_arity("assert"@) == Some(Arity::Exact(1))); }
}

proof fn lemma_not_builtin(name: Seq<char>)
    requires
        forall|i: int| 0 <= i < 9 ==> crate::builtins::registry_names()[i] != name,
    ensures
        builtin_arity(name) is None,
{
    let names = crate::builtins::registry_names();
    assert(names[0] != name && names[1] != name && names[2] != name && names[3] != name);
    assert(names[4] != name && names[5] != name && names[6] != name && names[7] != name && names[8] != name);
}

/// Whether every expression of the list type-checks.
pub open spec fn all_typed(args: Seq<ExprS>, env: EnvView, fns: Seq<(Seq<char>, usize)>) -> bool
    decreases args,
{
    if args.len() == 0 {
        true
    } else {
        expr_ty(args[0], env, fns) is Some && all_typed(args.drop_first(), env, fns)
    }
}

/// Whether every argument of `range` type-checks as Int or Unknown.
pub open spec fn range_args_ok(args: Seq<ExprS>, env: EnvView, fns: Seq<(Seq<char>, usize)>) -> bool
    decreases args,
{
    if args.len() == 0 {
        true
    } else {
        match expr_ty(args[0], env, fns) {
            Some(t) => (t == Ty::Int || t == Ty::Unknown) && range_args_ok(args.drop_first(), env, fns),
            None => false,
        }
    }
}

/// The element type of a list literal: the first known element type, or
/// Unknown as soon as two element types differ (the remaining elements are
/// then not examined).
pub open spec fn list_fold(items: Seq<ExprS>, acc: Ty, env: EnvView, fns: Seq<(Seq<char>, usize)>) -> Option<Ty>
    decreases items,
{
    if items.len() == 0 {
        Some(acc)
    } else {
        match expr_ty(items[0], env, fns) {
            None => None,
            Some(t) => if acc == Ty::Unknown {
                list_fold(items.drop_first(), t, env, fns)
            } else if acc != t {
                Some(Ty::Unknown)
            } else {
                list_fold(items.drop_first(), acc, env, fns)
            },
        }
    }
}

/// Key and value types of a dict literal, computed like `list_fold` on each
/// side; the scan stops once both sides are Unknown.
pub open spec fn dict_fold(pairs: Seq<(ExprS, ExprS)>, kt: Ty, vt: Ty, env: EnvView, fns: Seq<(Seq<char>, usize)>) -> Option<(Ty, Ty)>
    decreases pairs,
{
    if pairs.len() == 0 {
        Some((kt, vt))
    } else {
        match (expr_ty(pairs[0].0, env, fns), expr_ty(pairs[0].1, env, fns)) {
            (Some(k), Some(v)) => {
                let nk = if kt == Ty::Unknown { k } else if kt != k { Ty::Unknown } else { kt };
                let nv = if vt == Ty::Unknown { v } else if vt != v { Ty::Unknown } else { vt };
                if nk == Ty::Unknown && nv == Ty::Unknown {
                    Some((nk, nv))
                } else {
                    dict_fold(pairs.drop_first(), nk, nv, env, fns)
                }
            },
            _ => None,
        }
    }
}

/// The type an expression has in an environment; None for a type error.
pub open spec fn expr_ty(e: ExprS, env: EnvView, fns: Seq<(Seq<char>, usize)>) -> Option<Ty>
    decreases e,
{
    match e.0 {
        Expr::Literal(l) => Some(literal_ty(l)),
        Expr::Variable(name) => match env_lookup(env, name@) {
            Some(t) => Some(t),
            None => Some(Ty::Unknown),
        },
        Expr::Unary { op, expr } => match expr_ty(*expr, env, fns) {
            Some(t) => unary_ty(op, t),
            None => None,
        },
        Expr::Binary { op, left, right } => match (expr_ty(*left, env, fns), expr_ty(*right, env, fns)) {
            (Some(tl), Some(tr)) => binary_ty(op, tl, tr),
            _ => None,
        },
        Expr::Call { func_name, args } => match func_name.0 {
            Expr::Variable(name) => match builtin_arity(name@) {
                Some(a) => if !arity_accepts(a, args@.len()) {
                    None
                } else if name@ == "print"@ {
                    if all_typed(args@, env, fns) { Some(Ty::NoneType) } else { None }
                } else if name@ == "input"@ {
                    if args@.len() == 1 {
                        match expr_ty(args@[0], env, fns) {
                            Some(t) => if t == Ty::String || t == Ty::Unknown { Some(Ty::String) } else { None },
                            None => None,
                        }
                    } else {
                        Some(Ty::String)
                    }
                } else if name@ == "len"@ {
                    match expr_ty(args@[0], env, fns) {
                        Some(t) => match t {
                            Ty::String | Ty::List(_) | Ty::Dict(_, _) | Ty::Unknown => Some(Ty::Int),
                            _ => None,
                        },
                        None => None,
                    }
                } else if name@ == "range"@ {
                    if range_args_ok(args@, env, fns) { Some(Ty::Range) } else { None }
                } else if expr_ty(args@[0], env, fns) is None {
                    None
                } else if name@ == "int"@ {
                    Some(Ty::Int)
                } else if name@ == "float"@ {
                    Some(Ty::Float)
                } else if name@ == "bool"@ {
                    Some(Ty::Bool)
                } else if name@ == "str"@ {
                    Some(Ty::String)
                } else {
                    Some(Ty::NoneType)
                },
                None => match fn_arity(fns, name@) {
                    Some(n) => if args@.len() != n { None }
                        else if all_typed(args@, env, fns) { Some(Ty::Unknown) } else { None },
                    None => if all_typed(args@, env, fns) { Some(Ty::Unknown) } else { None },
                },
            },
            _ => if expr_ty(*func_name, env, fns) is Some && all_typed(args@, env, fns) { Some(Ty::Unknown) } else { None },
        },
        Expr::Attribute { object, .. } => if expr_ty(*object, env, fns) is Some { Some(Ty::Unknown) } else { None },
        Expr::List(items) => match list_fold(items@, Ty::Unknown, env, fns) {
            Some(t) => Some(Ty::List(Box::new(t))),
            None => None,
        },
        Expr::Dict(pairs) => match dict_fold(pairs@, Ty::Unknown, Ty::Unknown, env, fns) {
            Some((k, v)) => Some(Ty::Dict(Box::new(k), Box::new(v))),
            None => None,
        },
        Expr::Index { object, index } => match (expr_ty(*object, env, fns), expr_ty(*index, env, fns)) {
            (Some(o), Some(i)) => index_ty(o, i),
            _ => None,
        },
        Expr::Lambda { .. } => Some(Ty::Function),
        Expr::Tuple(items) => if all_typed(items@, env, fns) { Some(Ty::Unknown) } else { None },
        Expr::SetLit(items) => if all_typed(items@, env, fns) { Some(Ty::Unknown) } else { None },
        Expr::TreeSet(items) => if all_typed(items@, env, fns) { Some(Ty::Unknown) } else { None },
    }
}

/// What `unify_return` gives for two return types.
pub open spec fn unify_spec(a: Ty, b: Ty) -> Option<Ty> {
    if a == Ty::Unknown {
        Some(b)
    } else if b == Ty::Unknown {
        Some(a)
    } else if a == b {
        Some(a)
    } else {
        None
    }
}

/// Checks the operand of unary minus or plus.
pub fn expect_int_or_float(t: Ty, span: Span) -> (r: SemanticResult<Ty>)
    ensures
        r matches Ok(u) ==> unary_ty(UnaryOp::Negate, t) == Some(u),
        r matches Err(e) ==> unary_ty(UnaryOp::Negate, t) is None
            && e.message@ == "TypeError: expected Int or Float, got "@ + ty_text(t) && e.span == span,
{
    match t {
        Ty::Int => Ok(Ty::Int),
        Ty::Float => Ok(Ty::Float),
        Ty::Unknown => Ok(Ty::Unknown),
        _ => Err(type_error(message1("TypeError: expected Int or Float, got ", &t), span)),
    }
}

/// Checks the operand of `not`.
pub fn expect_bool(t: Ty, span: Span) -> (r: SemanticResult<Ty>)
    ensures
        r matches Ok(u) ==> unary_ty(UnaryOp::Not, t) == Some(u),
        r matches Err(e) ==> unary_ty(UnaryOp::Not, t) is None
            && e.message@ == "TypeError: expected Bool, got "@ + ty_text(t) && e.span == span,
{
    match t {
        Ty::Bool => Ok(Ty::Bool),
        Ty::Unknown => Ok(Ty::Bool),
        _ => Err(type_error(message1("TypeError: expected Bool, got ", &t), span)),
    }
}

/// Checks a pair of numeric operands and gives the promoted type.
pub fn expect_numeric_pair(t1: Ty, t2: Ty, span: Span) -> (r: SemanticResult<Ty>)
    ensures
        r matches Ok(u) ==> numeric_pair(t1, t2) == Some(u),
        r matches Err(e) ==> numeric_pair(t1, t2) is None
            && e.message@ == "TypeError: expected numeric types, got "@ + ty_text(t1) + " and "@ + ty_text(t2)
            && e.span == span,
{
    match (&t1, &t2) {
        (Ty::Int, Ty::Int) => Ok(Ty::Int),
        (Ty::Float, Ty::Float) => Ok(Ty::Float),
        (Ty::Int, Ty::Float) => Ok(Ty::Float),
        (Ty::Float, Ty::Int) => Ok(Ty::Float),
        (Ty::Unknown, Ty::Int) => Ok(Ty::Int),
        (Ty::Int, Ty::Unknown) => Ok(Ty::Int),
        (Ty::Unknown, Ty::Float) => Ok(Ty::Float),
        (Ty::Float, Ty::Unknown) => Ok(Ty::Float),
        (Ty::Unknown, Ty::Unknown) => Ok(Ty::Unknown),
        _ => Err(type_error(message2("TypeError: expected numeric types, got ", &t1, " and ", &t2), span)),
    }
}

/// Checks that the operands of `==` or `!=` can be compared.
pub fn expect_same_or_unknown(t1: Ty, t2: Ty, span: Span) -> (r: SemanticResult<()>)
    ensures
        r is Ok <==> same_or_unknown(t1, t2),
        r matches Err(e) ==> e.message@ == "TypeError: equality operands must have same type, got "@
            + ty_text(t1) + " and "@ + ty_text(t2) && e.span == span,
{
    let unknown = Ty::Unknown;
    let int_ty = Ty::Int;
    let float = Ty::Float;
    if ty_eq(&t1, &unknown) || ty_eq(&t2, &unknown) || ty_eq(&t1, &t2) {
        Ok(())
    } else if (ty_eq(&t1, &int_ty) && ty_eq(&t2, &float)) || (ty_eq(&t1, &float) && ty_eq(&t2, &int_ty)) {
        Ok(())
    } else {
        Err(type_error(message2("TypeError: equality operands must have same type, got ", &t1, " and ", &t2), span))
    }
}

/// Combines the type of a `return` with the return type seen so far.
pub fn unify_return(a: Ty, b: Ty) -> (r: Option<Ty>)
    ensures
        r == unify_spec(a, b),
{
    if matches!(a, Ty::Unknown) {
        Some(b)
    } else if matches!(b, Ty::Unknown) {
        Some(a)
    } else if ty_eq(&a, &b) {
        Some(a)
    } else {
        None
    }
}

fn arity_message(name: &str, desc: &str, got: usize) -> (m: String)
    ensures
        m@ == "ArityError: "@ + name@ + "() takes "@ + desc@ + " argument(s) but "@
            + crate::text::decimal_digits(got as nat) + " given"@,
{
    let mut m = "ArityError: ".to_owned();
    m.append(name);
    m.append("() takes ");
    m.append(desc);
    m.append(" argument(s) but ");
    let n = crate::text::u64_to_string(got as u64);
    m.append(n.as_str());
    m.append(" given");
    assert(m@ =~= "ArityError: "@ + name@ + "() takes "@ + desc@ + " argument(s) but "@
            + crate::text::decimal_digits(got as nat) + " given"@);
    m
}

fn fn_arity_message(name: &str, arity: usize, got: usize) -> (m: String)
    ensures
        m@ == "ArityError: function '"@ + name@ + "' takes "@ + crate::text::decimal_digits(arity as nat)
            + " positional arguments but "@ + crate::text::decimal_digits(got as nat) + " were given"@,
{
    let mut m = "ArityError: function '".to_owned();
    m.append(name);
    m.append("' takes ");
    let a = crate::text::u64_to_string(arity as u64);
    m.append(a.as_str());
    m.append(" positional arguments but ");
    let n = crate::text::u64_to_string(got as u64);
    m.append(n.as_str());
    m.append(" were given");
    assert(m@ =~= "ArityError: function '"@ + name@ + "' takes "@ + crate::text::decimal_digits(arity as nat)
            + " positional arguments but "@ + crate::text::decimal_digits(got as nat) + " were given"@);
    m
}

/// Type-checks every expression of a list, stopping at the first error.
fn tc_all(args: &Vec<ExprS>, tenv: &TypeEnv, ctx: &ProgramContext) -> (r: SemanticResult<()>)
    ensures
        r is Ok <==> all_typed(args@, tenv.view(), ctx.fns()),
    decreases args,
{
    let mut i: usize = 0;
    assert(args@.subrange(0, args@.len() as int) =~= args@);
    while i < args.len()
        invariant
            i <= args.len(),
            all_typed(args@, tenv.view(), ctx.fns()) == all_typed(args@.subrange(i as int, args@.len() as int), tenv.view(), ctx.fns()),
        decreases args.len() - i,
    {
        let ghost sub = args@.subrange(i as int, args@.len() as int);
        assert(sub.drop_first() =~= args@.subrange(i + 1, args@.len() as int));
        assert(sub[0] == args@[i as int]);
        let _ = tc_expr(&args[i], tenv, ctx)?;
        i = i + 1;
    }
    assert(args@.subrange(i as int, args@.len() as int) =~= Seq::<ExprS>::empty());
    Ok(())
}

/// Type-checks the arguments of `range`: each must be Int or Unknown.
fn tc_range_args(args: &Vec<ExprS>, tenv: &TypeEnv, ctx: &ProgramContext, span: Span) -> (r: SemanticResult<()>)
    ensures
        r is Ok <==> range_args_ok(args@, tenv.view(), ctx.fns()),
    decreases args,
{
    let mut i: usize = 0;
    assert(args@.subrange(0, args@.len() as int) =~= args@);
    while i < args.len()
        invariant
            i <= args.len(),
            range_args_ok(args@, tenv.view(), ctx.fns()) == range_args_ok(args@.subrange(i as int, args@.len() as int), tenv.view(), ctx.fns()),
        decreases args.len() - i,
    {
        let ghost sub = args@.subrange(i as int, args@.len() as int);
        assert(sub.drop_first() =~= args@.subrange(i + 1, args@.len() as int));
        assert(sub[0] == args@[i as int]);
        let t = tc_expr(&args[i], tenv, ctx)?;
        if !matches!(t, Ty::Int) && !matches!(t, Ty::Unknown) {
            return Err(type_error(message1("TypeError: range() arguments must be integers, got ", &t), span));
        }
        i = i + 1;
    }
    assert(args@.subrange(i as int, args@.len() as int) =~= Seq::<ExprS>::empty());
    Ok(())
}

/// The element type of a list literal.
fn tc_list(items: &Vec<ExprS>, tenv: &TypeEnv, ctx: &ProgramContext) -> (r: SemanticResult<Ty>)
    ensures
        r matches Ok(t) ==> list_fold(items@, Ty::Unknown, tenv.view(), ctx.fns()) == Some(t),
        r is Err ==> list_fold(items@, Ty::Unknown, tenv.view(), ctx.fns()) is None,
    decreases items,
{
    let mut elem_ty = Ty::Unknown;
    let mut i: usize = 0;
    assert(items@.subrange(0, items@.len() as int) =~= items@);
    while i < items.len()
        invariant
            i <= items.len(),
            list_fold(items@, Ty::Unknown, tenv.view(), ctx.fns())
                == list_fold(items@.subrange(i as int, items@.len() as int), elem_ty, tenv.view(), ctx.fns()),
        decreases items.len() - i,
    {
        let ghost sub = items@.subrange(i as int, items@.len() as int);
        assert(sub.drop_first() =~= items@.subrange(i + 1, items@.len() as int));
        assert(sub[0] == items@[i as int]);
        let t = tc_expr(&items[i], tenv, ctx)?;
        if matches!(elem_ty, Ty::Unknown) {
            elem_ty = t;
        } else if !ty_eq(&elem_ty, &t) {
            return Ok(Ty::Unknown);
        }
        i = i + 1;
    }
    assert(items@.subrange(i as int, items@.len() as int) =~= Seq::<ExprS>::empty());
    Ok(elem_ty)
}

/// The key and value types of a dict literal.
fn tc_dict(pairs: &Vec<(ExprS, ExprS)>, tenv: &TypeEnv, ctx: &ProgramContext) -> (r: SemanticResult<(Ty, Ty)>)
    ensures
        r matches Ok(t) ==> dict_fold(pairs@, Ty::Unknown, Ty::Unknown, tenv.view(), ctx.fns()) == Some(t),
        r is Err ==> dict_fold(pairs@, Ty::Unknown, Ty::Unknown, tenv.view(), ctx.fns()) is None,
    decreases pairs,
{
    let mut key_ty = Ty::Unknown;
    let mut val_ty = Ty::Unknown;
    let mut i: usize = 0;
    assert(pairs@.subrange(0, pairs@.len() as int) =~= pairs@);
    while i < pairs.len()
        invariant
            i <= pairs.len(),
            dict_fold(pairs@, Ty::Unknown, Ty::Unknown, tenv.view(), ctx.fns())
                == dict_fold(pairs@.subrange(i as int, pairs@.len() as int), key_ty, val_ty, tenv.view(), ctx.fns()),
        decreases pairs.len() - i,
    {
        let ghost sub = pairs@.subrange(i as int, pairs@.len() as int);
        assert(sub.drop_first() =~= pairs@.subrange(i + 1, pairs@.len() as int));
        assert(sub[0] == pairs@[i as int]);
        let k = tc_expr(&pairs[i].0, tenv, ctx)?;
        let v = tc_expr(&pairs[i].1, tenv, ctx)?;
        if matches!(key_ty, Ty::Unknown) {
            key_ty = k;
        } else if !ty_eq(&key_ty, &k) {
            key_ty = Ty::Unknown;
        }
        if matches!(val_ty, Ty::Unknown) {
            val_ty = v;
        } else if !ty_eq(&val_ty, &v) {
            val_ty = Ty::Unknown;
        }
        if matches!(key_ty, Ty::Unknown) && matches!(val_ty, Ty::Unknown) {
            return Ok((key_ty, val_ty));
        }
        i = i + 1;
    }
    assert(pairs@.subrange(i as int, pairs@.len() as int) =~= Seq::<(ExprS, ExprS)>::empty());
    Ok((key_ty, val_ty))
}

/// Infers the type of an expression; an error for operations on
/// incompatible types.
pub fn tc_expr(expr: &ExprS, tenv: &TypeEnv, ctx: &ProgramContext) -> (r: SemanticResult<Ty>)
    ensures
        r matches Ok(t) ==> expr_ty(*expr, tenv.view(), ctx.fns()) == Some(t),
        r is Err ==> expr_ty(*expr, tenv.view(), ctx.fns()) is None,
        expr.0 matches Expr::Binary { op, left, right } ==> match (expr_ty(*left, tenv.view(), ctx.fns()),
            expr_ty(*right, tenv.view(), ctx.fns())) {
            (Some(tl), Some(tr)) => binary_ty(op, tl, tr) is None ==> (r matches Err(e)
                && e.message@ == binary_error_text(op, tl, tr) && e.span == expr.1),
            _ => true,
        },
        expr.0 matches Expr::Unary { op, expr: inner } ==> match expr_ty(*inner, tenv.view(), ctx.fns()) {
            Some(t) => unary_ty(op, t) is None ==> (r matches Err(e)
                && e.message@ == unary_error_text(op, t) && e.span == expr.1),
            None => true,
        },
    decreases expr,
{
    let span = expr.1;
    match &expr.0 {
        Expr::Literal(lit) => Ok(match lit {
            Literal::Bool(_) => Ty::Bool,
            Literal::Int(_) => Ty::Int,
            Literal::String(_) => Ty::String,
            Literal::Float(_) => Ty::Float,
            Literal::NoneLit => Ty::NoneType,
        }),
        Expr::Variable(name) => match tenv.get(name.as_str()) {
            Some(t) => Ok(t),
            None => Ok(Ty::Unknown),
        },
        Expr::Unary { op, expr: inner } => {
            let t = tc_expr(inner, tenv, ctx)?;
            match op {
                UnaryOp::Not => expect_bool(t, span),
                _ => expect_int_or_float(t, span),
            }
        },
        Expr::Binary { op, left, right } => {
            let tl = tc_expr(left, tenv, ctx)?;
            let tr = tc_expr(right, tenv, ctx)?;
            tc_binary(*op, tl, tr, span)
        },
        Expr::Call { func_name, args } => {
            match &func_name.0 {
                Expr::Variable(name) => {
                let ghost env = tenv.view();
                let ghost fns = ctx.fns();
                match crate::builtins::lookup(name.as_str()) {
                    Some(b) => {
                        proof {
                            let i = choose|i: int| crate::builtins::is_registry_entry(b, i) && crate::builtins::registry_names()[i] == name@;
                            lemma_builtin_lookup(b, i, name@);
                            lemma_builtin_names_distinct();
                        }
                        if !b.check_arity(args.len()) {
                            let desc = b.arity.description();
                            return Err(type_error(arity_message(b.name, desc.as_str(), args.len()), span));
                        }
                        if str_eq(b.name, "print") {
                            tc_all(args, tenv, ctx)?;
                            Ok(Ty::NoneType)
                        } else if str_eq(b.name, "input") {
                            if args.len() == 1 {
                                let t = tc_expr(&args[0], tenv, ctx)?;
                                if !matches!(t, Ty::String) && !matches!(t, Ty::Unknown) {
                                    return Err(type_error(message1("TypeError: input() prompt must be a string, got ", &t), span));
                                }
                            }
                            Ok(Ty::String)
                        } else if str_eq(b.name, "len") {
                            let t = tc_expr(&args[0], tenv, ctx)?;
                            match t {
                                Ty::String | Ty::List(_) | Ty::Dict(_, _) | Ty::Unknown => Ok(Ty::Int),
                                _ => Err(type_error(message2("TypeError: object of type ", &t, " has no len()", &Ty::Unknown), span)),
                            }
                        } else if str_eq(b.name, "range") {
                            tc_range_args(args, tenv, ctx, span)?;
                            Ok(Ty::Range)
                        } else {
                            let _ = tc_expr(&args[0], tenv, ctx)?;
                            if str_eq(b.name, "int") {
                                Ok(Ty::Int)
                            } else if str_eq(b.name, "float") {
                                Ok(Ty::Float)
                            } else if str_eq(b.name, "bool") {
                                Ok(Ty::Bool)
                            } else if str_eq(b.name, "str") {
                                Ok(Ty::String)
                            } else {
                                Ok(Ty::NoneType)
                            }
                        }
                    },
                    None => {
                        proof { lemma_not_builtin(name@); }
                        match ctx.function_arity(name.as_str()) {
                            Some(n) => {
                                if args.len() != n {
                                    return Err(type_error(fn_arity_message(name.as_str(), n, args.len()), span));
                                }
                                tc_all(args, tenv, ctx)?;
                                Ok(Ty::Unknown)
                            },
                            None => {
                                tc_all(args, tenv, ctx)?;
                                Ok(Ty::Unknown)
                            },
                        }
                    },
                }
                },
                _ => {
                    let _ = tc_expr(func_name, tenv, ctx)?;
                    tc_all(args, tenv, ctx)?;
                    Ok(Ty::Unknown)
                },
            }
        },
        Expr::Attribute { object, .. } => {
            let _ = tc_expr(object, tenv, ctx)?;
            Ok(Ty::Unknown)
        },
        Expr::List(items) => {
            let t = tc_list(items, tenv, ctx)?;
            Ok(Ty::List(Box::new(t)))
        },
        Expr::Dict(pairs) => {
            let (k, v) = tc_dict(pairs, tenv, ctx)?;
            Ok(Ty::Dict(Box::new(k), Box::new(v)))
        },
        Expr::Index { object, index } => {
            let obj_ty = tc_expr(object, tenv, ctx)?;
            let idx_ty = tc_expr(index, tenv, ctx)?;
            tc_index(obj_ty, idx_ty, object.1, index.1)
        },
        Expr::Lambda { .. } => Ok(Ty::Function),
        Expr::Tuple(items) => {
            tc_all(items, tenv, ctx)?;
            Ok(Ty::Unknown)
        },
        Expr::SetLit(items) => {
            tc_all(items, tenv, ctx)?;
            Ok(Ty::Unknown)
        },
        Expr::TreeSet(items) => {
            tc_all(items, tenv, ctx)?;
            Ok(Ty::Unknown)
        },
    }
}

/// The type of a binary operation, or its error.
fn tc_binary(op: BinaryOp, tl: Ty, tr: Ty, span: Span) -> (r: SemanticResult<Ty>)
    ensures
        r matches Ok(t) ==> binary_ty(op, tl, tr) == Some(t),
        r is Err ==> binary_ty(op, tl, tr) is None,
        r matches Err(e) ==> e.message@ == binary_error_text(op, tl, tr) && e.span == span,
{
    match op {
        BinaryOp::Add => {
            if matches!(tl, Ty::String) && (matches!(tr, Ty::String) || matches!(tr, Ty::Unknown)) {
                Ok(Ty::String)
            } else if matches!(tl, Ty::Unknown) && matches!(tr, Ty::String) {
                Ok(Ty::String)
            } else {
                match expect_numeric_pair(clone_ty(&tl), clone_ty(&tr), span) {
                    Ok(t) => Ok(t),
                    Err(_) => Err(type_error(message2("TypeError: unsupported operand types for +: ", &tl, " and ", &tr), span)),
                }
            }
        },
        BinaryOp::Multiply => {
            if (matches!(tl, Ty::String) && (matches!(tr, Ty::Int) || matches!(tr, Ty::Unknown)))
                || ((matches!(tl, Ty::Int) || matches!(tl, Ty::Unknown)) && matches!(tr, Ty::String)) {
                Ok(Ty::String)
            } else {
                match expect_numeric_pair(clone_ty(&tl), clone_ty(&tr), span) {
                    Ok(t) => Ok(t),
                    Err(_) => Err(type_error(message2("TypeError: unsupported operand types for *: ", &tl, " and ", &tr), span)),
                }
            }
        },
        BinaryOp::Subtract | BinaryOp::Modulo | BinaryOp::FloorDivide => expect_numeric_pair(tl, tr, span),
        BinaryOp::Divide => {
            let _ = expect_numeric_pair(tl, tr, span)?;
            Ok(Ty::Float)
        },
        BinaryOp::Less | BinaryOp::LessEqual | BinaryOp::Greater | BinaryOp::GreaterEqual => {
            let num = expect_numeric_pair(clone_ty(&tl), clone_ty(&tr), span);
            if num.is_ok() {
                Ok(Ty::Bool)
            } else if matches!(tl, Ty::String) && (matches!(tr, Ty::String) || matches!(tr, Ty::Unknown)) {
                Ok(Ty::Bool)
            } else if matches!(tl, Ty::Unknown) && matches!(tr, Ty::String) {
                Ok(Ty::Bool)
            } else {
                Err(type_error(message2("TypeError: cannot compare ", &tl, " and ", &tr), span))
            }
        },
        BinaryOp::Equal | BinaryOp::NotEqual => {
            expect_same_or_unknown(tl, tr, span)?;
            Ok(Ty::Bool)
        },
        BinaryOp::And | BinaryOp::Or => Ok(Ty::Bool),
    }
}

/// The type of indexing, or its error.
fn tc_index(obj_ty: Ty, idx_ty: Ty, obj_span: Span, idx_span: Span) -> (r: SemanticResult<Ty>)
    ensures
        r matches Ok(t) ==> index_ty(obj_ty, idx_ty) == Some(t),
        r is Err ==> index_ty(obj_ty, idx_ty) is None,
{
    let int_or_unknown = matches!(idx_ty, Ty::Int) || matches!(idx_ty, Ty::Unknown);
    match obj_ty {
        Ty::List(elem) => {
            if !int_or_unknown {
                return Err(type_error(message1("TypeError: list indices must be integers, not ", &idx_ty), idx_span));
            }
            Ok(*elem)
        },
        Ty::Dict(key, val) => {
            if !ty_eq(&idx_ty, &key) && !matches!(idx_ty, Ty::Unknown) && !matches!(*key, Ty::Unknown) {
                return Err(type_error(message2("TypeError: dictionary key type mismatch: expected ", &key, ", got ", &idx_ty), idx_span));
            }
            Ok(*val)
        },
        Ty::String => {
            if !int_or_unknown {
                return Err(type_error(message1("TypeError: string indices must be integers, not ", &idx_ty), idx_span));
            }
            Ok(Ty::String)
        },
        Ty::Unknown => Ok(Ty::Unknown),
        _ => Err(type_error(message2("TypeError: type '", &obj_ty, "' is not subscriptable", &Ty::Unknown), obj_span)),
    }
}

/// The type a variable gets from an assignment, given the type it had.
pub open spec fn assign_ty(prev: Option<Ty>, rhs: Ty) -> Option<Ty> {
    match prev {
        None => Some(rhs),
        Some(p) => if p == Ty::Unknown {
            Some(rhs)
        } else if rhs == Ty::Unknown {
            Some(p)
        } else if p == rhs {
            Some(p)
        } else {
            None
        },
    }
}

/// The type of the loop variable when iterating over a value of type `t`.
pub open spec fn iter_elem_ty(t: Ty) -> Option<Ty> {
    match t {
        Ty::Range => Some(Ty::Int),
        Ty::List(e) => Some(*e),
        Ty::Dict(k, _) => Some(*k),
        Ty::String => Some(Ty::String),
        Ty::Unknown => Some(Ty::Unknown),
        _ => None,
    }
}

/// What checking one statement does: `e0`/`e1` are the environment before
/// and after, `r0`/`r1` the return type of the enclosing function before and
/// after, `ok` whether the type check succeeded.
pub open spec fn stmt_effect(
    s: StmtS,
    e0: EnvView,
    e1: EnvView,
    r0: Option<Ty>,
    r1: Option<Ty>,
    ok: bool,
    in_loop: bool,
    fns: Seq<(Seq<char>, usize)>,
) -> bool {
    match s.0 {
        Stmt::Break | Stmt::Continue => ok == in_loop && e1 == e0 && r1 == r0,
        Stmt::Pass | Stmt::Class { .. } => ok && e1 == e0 && r1 == r0,
        Stmt::Expr(e) => ok == (expr_ty(e, e0, fns) is Some) && e1 == e0 && r1 == r0,
        Stmt::Assign { target, value } => r1 == r0 && match target.0 {
            Expr::Variable(name) => match expr_ty(value, e0, fns) {
                None => !ok && e1 == e0,
                Some(t) => match assign_ty(env_lookup(e0, name@), t) {
                    Some(n) => ok && e1 == env_set(e0, name@, n),
                    None => !ok && e1 == e0,
                },
            },
            Expr::Attribute { .. } | Expr::Index { .. } => e1 == e0
                && ok == (expr_ty(value, e0, fns) is Some && expr_ty(target, e0, fns) is Some),
            _ => !ok && e1 == e0,
        },
        Stmt::Return(e) => e1 == e0 && match expr_ty(e, e0, fns) {
            None => !ok && r1 == r0,
            Some(t) => match r0 {
                None => ok && r1 == r0,
                Some(p) => match unify_spec(p, t) {
                    Some(n) => ok && r1 == Some(n),
                    None => !ok && r1 == r0,
                },
            },
        },
        Stmt::If { condition, .. } => (expr_ty(condition, e0, fns) != Some(Ty::Bool) ==> !ok && e1 == e0 && r1 == r0)
            && (stray_jump(s, in_loop) is Some ==> !ok && e1 == e0 && r1 == r0),
        Stmt::While { condition, .. } => e1 == e0 && (ok <==> expr_ty(condition, e0, fns) == Some(Ty::Bool))
            && (!ok ==> r1 == r0),
        Stmt::For { iterable, .. } => e1 == e0
            && (ok <==> (expr_ty(iterable, e0, fns) matches Some(t) && iter_elem_ty(t) is Some))
            && (!ok ==> r1 == r0),
        Stmt::Def { body, .. } => r1 == r0 && (ok ==> e1 == e0) && (stray_jump_block(body@, false) is Some ==> !ok),
    }
}

/// The first `break` or `continue` of a statement that stands outside any
/// loop, looking into the branches of `if` statements (loop bodies and
/// function bodies are checked where they stand): `true` for a `break`,
/// with its span.
pub open spec fn stray_jump(st: StmtS, in_loop: bool) -> Option<(bool, Span)>
    decreases st,
{
    match st.0 {
        Stmt::Break => if in_loop { None } else { Some((true, st.1)) },
        Stmt::Continue => if in_loop { None } else { Some((false, st.1)) },
        Stmt::If { then_block, elif_blocks, else_block, .. } => match stray_jump_block(then_block@, in_loop) {
            Some(j) => Some(j),
            None => match stray_jump_elifs(elif_blocks@, in_loop) {
                Some(j) => Some(j),
                None => match else_block {
                    Some(b) => stray_jump_block(b@, in_loop),
                    None => None,
                },
            },
        },
        _ => None,
    }
}

/// The first stray `break` or `continue` of a block (see `stray_jump`).
pub open spec fn stray_jump_block(ss: Seq<StmtS>, in_loop: bool) -> Option<(bool, Span)>
    decreases ss,
{
    if ss.len() == 0 {
        None
    } else {
        match stray_jump(ss[0], in_loop) {
            Some(j) => Some(j),
            None => stray_jump_block(ss.drop_first(), in_loop),
        }
    }
}

/// The first stray `break` or `continue` of `elif` blocks (see `stray_jump`).
pub open spec fn stray_jump_elifs(es: Seq<(ExprS, Vec<StmtS>)>, in_loop: bool) -> Option<(bool, Span)>
    decreases es,
{
    if es.len() == 0 {
        None
    } else {
        match stray_jump_block(es[0].1@, in_loop) {
            Some(j) => Some(j),
            None => stray_jump_elifs(es.drop_first(), in_loop),
        }
    }
}

/// A block with a stray `break` or `continue` has a statement that holds one.
proof fn lemma_stray_witness(ss: Seq<StmtS>, in_loop: bool)
    requires
        stray_jump_block(ss, in_loop) is Some,
    ensures
        exists|j: int| 0 <= j < ss.len() && (#[trigger] stray_jump(ss[j], in_loop)) is Some,
    decreases ss.len(),
{
    if stray_jump(ss[0], in_loop) is None {
        lemma_stray_witness(ss.drop_first(), in_loop);
        let j = choose|j: int| 0 <= j < ss.drop_first().len() && (#[trigger] stray_jump(ss.drop_first()[j], in_loop)) is Some;
        assert(ss[j + 1] == ss.drop_first()[j]);
    }
}

/// Checking a block outside any loop cannot pass every statement when the
/// block holds a stray `break` or `continue`.
proof fn lemma_stray_in_passed_block(ss: Seq<StmtS>, fns: Seq<(Seq<char>, usize)>)
    requires
        stray_jump_block(ss, false) is Some,
    ensures
        forall|e0: EnvView, r0: Option<Ty>, e1: EnvView, r1: Option<Ty>|
            !block_check(ss, e0, r0, e1, r1, true, fns),
{
    lemma_stray_witness(ss, false);
    let j = choose|j: int| 0 <= j < ss.len() && (#[trigger] stray_jump(ss[j], false)) is Some;
    assert forall|e0: EnvView, r0: Option<Ty>, e1: EnvView, r1: Option<Ty>|
        !block_check(ss, e0, r0, e1, r1, true, fns) by {
        if block_check(ss, e0, r0, e1, r1, true, fns) {
            let (n, es, rs, oks) = choose|n: int, es: Seq<EnvView>, rs: Seq<Option<Ty>>, oks: Seq<bool>|
                #[trigger] effect_chain(ss.subrange(0, n), es, rs, oks, false, fns)
                && 0 <= n <= ss.len()
                && es[0] == e0 && rs[0] == r0 && es.last() == e1 && rs.last() == r1
                && (forall|k: int| 0 <= k < n - 1 ==> #[trigger] oks[k])
                && (true ==> n == ss.len() && (n > 0 ==> oks[n - 1]))
                && (!true ==> n > 0 && !oks[n - 1]);
            assert(ss.subrange(0, n) =~= ss);
            assert(stmt_effect(ss[j], es[j], es[j + 1], rs[j], rs[j + 1], oks[j], false, fns));
            assert(oks[j]);
        }
    }
}

/// The message for a stray `break` (`true`) or `continue`.
pub open spec fn stray_jump_text(is_break: bool) -> Seq<char> {
    if is_break { "SyntaxError: 'break' outside loop"@ } else { "SyntaxError: 'continue' outside loop"@ }
}

/// Finds the first stray `break` or `continue` of a statement (see
/// `stray_jump`).
pub fn find_stray_jump(st: &StmtS, in_loop: bool) -> (r: Option<(bool, Span)>)
    ensures
        r == stray_jump(*st, in_loop),
    decreases st,
{
    match &st.0 {
        Stmt::Break => if in_loop { None } else { Some((true, st.1)) },
        Stmt::Continue => if in_loop { None } else { Some((false, st.1)) },
        Stmt::If { then_block, elif_blocks, else_block, .. } => {
            match find_stray_jump_block(then_block, in_loop) {
                Some(j) => Some(j),
                None => match find_stray_jump_elifs(elif_blocks, in_loop) {
                    Some(j) => Some(j),
                    None => match else_block {
                        Some(b) => find_stray_jump_block(b, in_loop),
                        None => None,
                    },
                },
            }
        },
        _ => None,
    }
}

fn find_stray_jump_block(ss: &Vec<StmtS>, in_loop: bool) -> (r: Option<(bool, Span)>)
    ensures
        r == stray_jump_block(ss@, in_loop),
    decreases ss,
{
    let mut i: usize = 0;
    assert(ss@.subrange(0, ss@.len() as int) =~= ss@);
    while i < ss.len()
        invariant
            i <= ss.len(),
            stray_jump_block(ss@, in_loop) == stray_jump_block(ss@.subrange(i as int, ss@.len() as int), in_loop),
        decreases ss.len() - i,
    {
        let ghost sub = ss@.subrange(i as int, ss@.len() as int);
        assert(sub[0] == ss@[i as int]);
        assert(sub.drop_first() =~= ss@.subrange(i + 1, ss@.len() as int));
        match find_stray_jump(&ss[i], in_loop) {
            Some(j) => {
                return Some(j);
            },
            None => {},
        }
        i = i + 1;
    }
    None
}

fn find_stray_jump_elifs(es: &Vec<(ExprS, Vec<StmtS>)>, in_loop: bool) -> (r: Option<(bool, Span)>)
    ensures
        r == stray_jump_elifs(es@, in_loop),
    decreases es,
{
    let mut i: usize = 0;
    assert(es@.subrange(0, es@.len() as int) =~= es@);
    while i < es.len()
        invariant
            i <= es.len(),
            stray_jump_elifs(es@, in_loop) == stray_jump_elifs(es@.subrange(i as int, es@.len() as int), in_loop),
        decreases es.len() - i,
    {
        let ghost sub = es@.subrange(i as int, es@.len() as int);
        assert(sub[0] == es@[i as int]);
        assert(sub.drop_first() =~= es@.subrange(i + 1, es@.len() as int));
        match find_stray_jump_block(&es[i].1, in_loop) {
            Some(j) => {
                return Some(j);
            },
            None => {},
        }
        i = i + 1;
    }
    None
}

/// Checks that a condition has type Bool.
fn ensure_bool(cond: &ExprS, tenv: &TypeEnv, ctx: &ProgramContext) -> (r: SemanticResult<()>)
    ensures
        r is Ok <==> expr_ty(*cond, tenv.view(), ctx.fns()) == Some(Ty::Bool),
{
    let t = tc_expr(cond, tenv, ctx)?;
    if !matches!(t, Ty::Bool) {
        return Err(type_error("TypeError: condition must be Bool".to_owned(), cond.1));
    }
    Ok(())
}

/// A copy of an environment.
pub fn snapshot_env(tenv: &TypeEnv) -> (r: TypeEnv)
    ensures
        r.view() == tenv.view(),
{
    tenv.snapshot()
}

/// The type of a variable, Unknown where no frame knows it.
pub fn get_var_type(env: &TypeEnv, var: &str) -> (r: Ty)
    ensures
        r == match env_lookup(env.view(), var@) {
            Some(t) => t,
            None => Ty::Unknown,
        },
{
    match env.get(var) {
        Some(t) => t,
        None => Ty::Unknown,
    }
}

/// Whether a name occurs in a list of names.
fn names_contain(v: &Vec<String>, name: &str) -> (r: bool)
    ensures
        r == crate::semantic::scope::names_of(v@).contains(name@),
{
    crate::semantic::scope::contains_name(v, name)
}

/// Adds to `out` each name of the innermost frame of `changed` whose type
/// differs from the one the innermost frame of `base` gives it.
pub fn collect_assigned(base: &TypeEnv, changed: &TypeEnv, out: &mut Vec<String>)
    requires
        base.view().len() > 0,
        changed.view().len() > 0,
    ensures
        forall|k: Seq<char>| crate::semantic::scope::names_of(final(out)@).contains(k) <==> (
            crate::semantic::scope::names_of(old(out)@).contains(k) || (
                frame_lookup(changed.view().last(), k) is Some
                && frame_lookup(changed.view().last(), k) != frame_lookup(base.view().last(), k))),
{
    let base_top = &base.frames[base.frames.len() - 1];
    let changed_top = &changed.frames[changed.frames.len() - 1];
    assert(base.view().last() == frame_view(base_top@));
    assert(changed.view().last() == frame_view(changed_top@));
    let mut j: usize = 0;
    while j < changed_top.len()
        invariant
            j <= changed_top.len(),
            base.view().last() == frame_view(base_top@),
            changed.view().last() == frame_view(changed_top@),
            forall|k: Seq<char>| crate::semantic::scope::names_of(out@).contains(k) <==> (
                crate::semantic::scope::names_of(old(out)@).contains(k) || (
                    (exists|m: int| 0 <= m < j && (#[trigger] changed_top@[m]).0@ == k)
                    && frame_lookup(changed.view().last(), k) != frame_lookup(base.view().last(), k))),
        decreases changed_top.len() - j,
    {
        let ghost out0 = out@;
        let ghost mut pushed = false;
        let name = changed_top[j].0.as_str();
        let now = frame_get(changed_top, name);
        let before = frame_get(base_top, name);
        let differ = match (&now, &before) {
            (Some(a), Some(b)) => !ty_eq(a, b),
            (None, None) => false,
            _ => true,
        };
        if differ && !names_contain(out, name) {
            proof {
                crate::semantic::scope::lemma_names_push(out@, changed_top@[j as int].0);
                pushed = true;
            }
            out.push(changed_top[j].0.clone());
        }
        proof {
            let cl = changed.view().last();
            let bl = base.view().last();
            assert(differ == (frame_lookup(cl, name@) != frame_lookup(bl, name@)));
            assert forall|k: Seq<char>| crate::semantic::scope::names_of(out@).contains(k) <==> (
                crate::semantic::scope::names_of(old(out)@).contains(k) || (
                    (exists|m: int| 0 <= m < j + 1 && (#[trigger] changed_top@[m]).0@ == k)
                    && frame_lookup(cl, k) != frame_lookup(bl, k))) by {
                let prev = exists|m: int| 0 <= m < j && (#[trigger] changed_top@[m]).0@ == k;
                let now_ex = exists|m: int| 0 <= m < j + 1 && (#[trigger] changed_top@[m]).0@ == k;
                if prev {
                    let m = choose|m: int| 0 <= m < j && (#[trigger] changed_top@[m]).0@ == k;
                    assert(0 <= m < j + 1 && changed_top@[m].0@ == k);
                }
                if now_ex {
                    let m = choose|m: int| 0 <= m < j + 1 && (#[trigger] changed_top@[m]).0@ == k;
                    if m < j {
                        assert(prev);
                    } else {
                        assert(k == name@);
                    }
                }
                if k == name@ {
                    assert(changed_top@[j as int].0@ == k);
                    assert(now_ex);
                }
                if pushed {
                    vstd::seq_lib::lemma_seq_contains_after_push(crate::semantic::scope::names_of(out0), name@, k);
                } else {
                    assert(out@ == out0);
                }
                assert(crate::semantic::scope::names_of(out0).contains(k) <==> (
                    crate::semantic::scope::names_of(old(out)@).contains(k) || (prev && frame_lookup(cl, k) != frame_lookup(bl, k))));
            }
        }
        j = j + 1;
    }
    assert forall|k: Seq<char>| frame_lookup(changed.view().last(), k) is Some
        implies (exists|m: int| 0 <= m < changed_top@.len() && (#[trigger] changed_top@[m]).0@ == k) by {
        lemma_frame_lookup_some(frame_view(changed_top@), k);
        let m = choose|m: int| 0 <= m < frame_view(changed_top@).len() && frame_view(changed_top@)[m].0 == k;
        assert(changed_top@[m].0@ == k);
    }
    assert forall|k: Seq<char>| (exists|m: int| 0 <= m < changed_top@.len() && (#[trigger] changed_top@[m]).0@ == k)
        implies frame_lookup(changed.view().last(), k) is Some by {
        let m = choose|m: int| 0 <= m < changed_top@.len() && (#[trigger] changed_top@[m]).0@ == k;
        lemma_frame_lookup_found(frame_view(changed_top@), k, m);
    }
}

proof fn lemma_frame_lookup_some(f: Seq<(Seq<char>, Ty)>, k: Seq<char>)
    requires
        frame_lookup(f, k) is Some,
    ensures
        exists|m: int| 0 <= m < f.len() && f[m].0 == k,
    decreases f.len(),
{
    if f.last().0 != k {
        lemma_frame_lookup_some(f.drop_last(), k);
        let m = choose|m: int| 0 <= m < f.drop_last().len() && f.drop_last()[m].0 == k;
        assert(f[m].0 == k);
    } else {
        assert(f[f.len() - 1].0 == k);
    }
}

proof fn lemma_frame_lookup_found(f: Seq<(Seq<char>, Ty)>, k: Seq<char>, m: int)
    requires
        0 <= m < f.len(),
        f[m].0 == k,
    ensures
        frame_lookup(f, k) is Some,
    decreases f.len(),
{
    if f.last().0 != k {
        assert(m < f.len() - 1);
        assert(f.drop_last()[m] == f[m]);
        lemma_frame_lookup_found(f.drop_last(), k, m);
    }
}

/// Whether `es`, `rs` and `oks` chain the checks of the statements `ss`:
/// checking statement `k` from environment `es[k]` and return type `rs[k]`
/// leads to `es[k + 1]`, `rs[k + 1]` with outcome `oks[k]` (as `stmt_effect`
/// states).
pub open spec fn effect_chain(ss: Seq<StmtS>, es: Seq<EnvView>, rs: Seq<Option<Ty>>, oks: Seq<bool>, in_loop: bool,
    fns: Seq<(Seq<char>, usize)>) -> bool
{
    &&& es.len() == ss.len() + 1
    &&& rs.len() == ss.len() + 1
    &&& oks.len() == ss.len()
    &&& forall|k: int| 0 <= k < ss.len() ==> stmt_effect(#[trigger] ss[k], es[k], es[k + 1], rs[k], rs[k + 1], oks[k], in_loop, fns)
}

/// Whether checking the statements of a block in order, each from where the
/// one before left off and whatever its outcome, leads from environment `e0`
/// and return type `r0` to `e1` and `r1`.
pub open spec fn block_effect(ss: Seq<StmtS>, e0: EnvView, r0: Option<Ty>, e1: EnvView, r1: Option<Ty>,
    in_loop: bool, fns: Seq<(Seq<char>, usize)>) -> bool
{
    exists|es: Seq<EnvView>, rs: Seq<Option<Ty>>, oks: Seq<bool>|
        #[trigger] effect_chain(ss, es, rs, oks, in_loop, fns)
        && es[0] == e0 && rs[0] == r0 && es.last() == e1 && rs.last() == r1
}

/// Whether checking a block's statements in order, stopping at the first
/// that fails, leads from `e0`, `r0` to `e1`, `r1`, with `ok` whether all
/// passed: the first `n` statements were checked, all but the last of them
/// passed, and the last failed unless all passed.
pub open spec fn block_check(ss: Seq<StmtS>, e0: EnvView, r0: Option<Ty>, e1: EnvView, r1: Option<Ty>, ok: bool,
    fns: Seq<(Seq<char>, usize)>) -> bool
{
    exists|n: int, es: Seq<EnvView>, rs: Seq<Option<Ty>>, oks: Seq<bool>|
        #[trigger] effect_chain(ss.subrange(0, n), es, rs, oks, false, fns)
        && 0 <= n <= ss.len()
        && es[0] == e0 && rs[0] == r0 && es.last() == e1 && rs.last() == r1
        && (forall|k: int| 0 <= k < n - 1 ==> #[trigger] oks[k])
        && (ok ==> n == ss.len() && (n > 0 ==> oks[n - 1]))
        && (!ok ==> n > 0 && !oks[n - 1])
}

/// Checks a block in `tenv`, going on past statements that fail: the
/// environment and return type collect what the statements that passed gave.
pub fn with_env(
    tenv: &mut TypeEnv,
    block: &Vec<StmtS>,
    ctx: &ProgramContext,
    current_fn_return: &mut Option<Ty>,
    in_loop: bool,
)
    requires
        old(tenv).view().len() > 0,
    ensures
        final(tenv).view().len() >= old(tenv).view().len(),
        block_effect(block@, old(tenv).view(), *old(current_fn_return), final(tenv).view(), *final(current_fn_return),
            in_loop, ctx.fns()),
    decreases block,
{
    let ghost mut es: Seq<EnvView> = seq![tenv.view()];
    let ghost mut rs: Seq<Option<Ty>> = seq![*current_fn_return];
    let ghost mut oks: Seq<bool> = Seq::empty();
    let mut i: usize = 0;
    while i < block.len()
        invariant
            i <= block.len(),
            tenv.view().len() >= old(tenv).view().len(),
            old(tenv).view().len() > 0,
            effect_chain(block@.subrange(0, i as int), es, rs, oks, in_loop, ctx.fns()),
            es[0] == old(tenv).view(),
            rs[0] == *old(current_fn_return),
            es.last() == tenv.view(),
            rs.last() == *current_fn_return,
        decreases block.len() - i,
    {
        let ghost e = tenv.view();
        let ghost r = *current_fn_return;
        let res = tc_stmt(&block[i], tenv, ctx, current_fn_return, in_loop);
        proof {
            let pre0 = block@.subrange(0, i as int);
            let pre = block@.subrange(0, i + 1);
            let es1 = es.push(tenv.view());
            let rs1 = rs.push(*current_fn_return);
            let oks1 = oks.push(res is Ok);
            assert forall|k: int| 0 <= k < pre.len() implies stmt_effect(#[trigger] pre[k], es1[k], es1[k + 1], rs1[k],
                rs1[k + 1], oks1[k], in_loop, ctx.fns()) by {
                if k < i {
                    assert(pre[k] == pre0[k]);
                    assert(stmt_effect(pre0[k], es[k], es[k + 1], rs[k], rs[k + 1], oks[k], in_loop, ctx.fns()));
                } else {
                    assert(pre[k] == block@[i as int]);
                }
            }
            es = es1;
            rs = rs1;
            oks = oks1;
        }
        i = i + 1;
    }
    assert(block@.subrange(0, i as int) =~= block@);
    assert(effect_chain(block@, es, rs, oks, in_loop, ctx.fns()));
}

/// Whether a branch that ended with environment `env` assigned the name `k`
/// (its innermost frame gives `k` a type other than `base` does).
pub open spec fn branch_assigned(base: EnvView, env: EnvView, k: Seq<char>) -> bool {
    frame_lookup(env.last(), k) is Some && frame_lookup(env.last(), k) != frame_lookup(base.last(), k)
}

/// Pairs the environment a branch of an `if` ended with and the names it
/// assigned.
fn branch_result(base: &TypeEnv, env: TypeEnv) -> (r: (TypeEnv, Vec<String>))
    requires
        base.view().len() > 0,
        env.view().len() > 0,
    ensures
        r.0 == env,
        forall|k: Seq<char>| crate::semantic::scope::names_of(r.1@).contains(k) <==> branch_assigned(base.view(), env.view(), k),
{
    proof {
        assert(crate::semantic::scope::names_of(Seq::<String>::empty()) =~= Seq::<Seq<char>>::empty());
    }
    let mut assigned: Vec<String> = Vec::new();
    collect_assigned(base, &env, &mut assigned);
    (env, assigned)
}

/// Checks the `elif` branches of an `if`: each condition must be Bool (the
/// first that is not is the error), and each block runs on a copy of `base`.
fn check_elifs(
    tenv: &TypeEnv,
    base: &TypeEnv,
    elifs: &Vec<(ExprS, Vec<StmtS>)>,
    ctx: &ProgramContext,
    current_fn_return: &mut Option<Ty>,
    in_loop: bool,
    branches: &mut Vec<(TypeEnv, Vec<String>)>,
) -> (r: SemanticResult<()>)
    requires
        base.view().len() > 0,
    ensures
        r is Ok <==> forall|k: int| 0 <= k < elifs@.len() ==> expr_ty(#[trigger] elifs@[k].0, tenv.view(), ctx.fns()) == Some(Ty::Bool),
        r is Ok ==> final(branches)@.len() == old(branches)@.len() + elifs@.len()
            && final(branches)@.subrange(0, old(branches)@.len() as int) == old(branches)@
            && exists|rs: Seq<Option<Ty>>| #![trigger rs.len()]
                rs.len() == elifs@.len() + 1 && rs[0] == *old(current_fn_return) && rs.last() == *final(current_fn_return)
                && forall|k: int| 0 <= k < elifs@.len() ==> {
                    let br = #[trigger] final(branches)@[old(branches)@.len() + k];
                    &&& block_effect(elifs@[k].1@, base.view(), rs[k], br.0.view(), rs[k + 1], in_loop, ctx.fns())
                    &&& forall|n: Seq<char>| crate::semantic::scope::names_of(br.1@).contains(n)
                        <==> branch_assigned(base.view(), br.0.view(), n)
                },
    decreases elifs,
{
    let ghost o = branches@.len();
    let ghost mut rs: Seq<Option<Ty>> = seq![*current_fn_return];
    let mut i: usize = 0;
    while i < elifs.len()
        invariant
            i <= elifs.len(),
            base.view().len() > 0,
            forall|k: int| 0 <= k < i ==> expr_ty(#[trigger] elifs@[k].0, tenv.view(), ctx.fns()) == Some(Ty::Bool),
            o == old(branches)@.len(),
            branches@.len() == o + i,
            branches@.subrange(0, o as int) == old(branches)@,
            rs.len() == i + 1,
            rs[0] == *old(current_fn_return),
            rs.last() == *current_fn_return,
            forall|k: int| 0 <= k < i ==> {
                let br = #[trigger] branches@[o + k];
                &&& block_effect(elifs@[k].1@, base.view(), rs[k], br.0.view(), rs[k + 1], in_loop, ctx.fns())
                &&& forall|n: Seq<char>| crate::semantic::scope::names_of(br.1@).contains(n)
                    <==> branch_assigned(base.view(), br.0.view(), n)
            },
        decreases elifs.len() - i,
    {
        ensure_bool(&elifs[i].0, tenv, ctx)?;
        let mut env = snapshot_env(base);
        let ghost r0 = *current_fn_return;
        with_env(&mut env, &elifs[i].1, ctx, current_fn_return, in_loop);
        let br = branch_result(base, env);
        let ghost b0 = branches@;
        branches.push(br);
        proof {
            let rs1 = rs.push(*current_fn_return);
            assert forall|k: int| 0 <= k < i + 1 implies {
                let br = #[trigger] branches@[o + k];
                &&& block_effect(elifs@[k].1@, base.view(), rs1[k], br.0.view(), rs1[k + 1], in_loop, ctx.fns())
                &&& forall|n: Seq<char>| crate::semantic::scope::names_of(br.1@).contains(n)
                    <==> branch_assigned(base.view(), br.0.view(), n)
            } by {
                if k < i {
                    assert(branches@[o + k] == b0[o + k]);
                }
            }
            assert(branches@.subrange(0, o as int) =~= b0.subrange(0, o as int));
            rs = rs1;
        }
        i = i + 1;
    }
    proof {
        assert(rs.len() == elifs@.len() + 1);
    }
    Ok(())
}

/// Checks a function body: statements in order, stopping at the first error.
fn tc_block(
    body: &Vec<StmtS>,
    tenv: &mut TypeEnv,
    ctx: &ProgramContext,
    current_fn_return: &mut Option<Ty>,
) -> (r: SemanticResult<()>)
    requires
        old(tenv).view().len() > 0,
    ensures
        final(tenv).view().len() >= old(tenv).view().len(),
        r is Ok ==> final(tenv).view().len() == old(tenv).view().len()
            && final(tenv).view().drop_last() == old(tenv).view().drop_last(),
        block_check(body@, old(tenv).view(), *old(current_fn_return), final(tenv).view(), *final(current_fn_return),
            r is Ok, ctx.fns()),
    decreases body,
{
    let ghost mut es: Seq<EnvView> = seq![tenv.view()];
    let ghost mut rs: Seq<Option<Ty>> = seq![*current_fn_return];
    let ghost mut oks: Seq<bool> = Seq::empty();
    let mut i: usize = 0;
    while i < body.len()
        invariant
            i <= body.len(),
            tenv.view().len() == old(tenv).view().len(),
            tenv.view().drop_last() == old(tenv).view().drop_last(),
            old(tenv).view().len() > 0,
            effect_chain(body@.subrange(0, i as int), es, rs, oks, false, ctx.fns()),
            es[0] == old(tenv).view(),
            rs[0] == *old(current_fn_return),
            es.last() == tenv.view(),
            rs.last() == *current_fn_return,
            forall|k: int| 0 <= k < i ==> #[trigger] oks[k],
        decreases body.len() - i,
    {
        let res = tc_stmt(&body[i], tenv, ctx, current_fn_return, false);
        proof {
            let pre0 = body@.subrange(0, i as int);
            let pre = body@.subrange(0, i + 1);
            let es1 = es.push(tenv.view());
            let rs1 = rs.push(*current_fn_return);
            let oks1 = oks.push(res is Ok);
            assert forall|k: int| 0 <= k < pre.len() implies stmt_effect(#[trigger] pre[k], es1[k], es1[k + 1], rs1[k],
                rs1[k + 1], oks1[k], false, ctx.fns()) by {
                if k < i {
                    assert(pre[k] == pre0[k]);
                    assert(stmt_effect(pre0[k], es[k], es[k + 1], rs[k], rs[k + 1], oks[k], false, ctx.fns()));
                } else {
                    assert(pre[k] == body@[i as int]);
                }
            }
            es = es1;
            rs = rs1;
            oks = oks1;
            assert(effect_chain(body@.subrange(0, i + 1), es, rs, oks, false, ctx.fns()));
        }
        match res {
            Ok(()) => {},
            Err(e) => {
                proof {
                    assert(forall|k: int| 0 <= k < i + 1 - 1 ==> #[trigger] oks[k]);
                }
                return Err(e);
            },
        }
        i = i + 1;
    }
    assert(body@.subrange(0, i as int) =~= body@);
    assert(effect_chain(body@.subrange(0, i as int), es, rs, oks, false, ctx.fns()));
    Ok(())
}

/// After the branches of an `if`: each variable some branch assigned gets the
/// one concrete type the assigning branches agree on; branches that disagree
/// are an error.
fn merge_branches(
    tenv: &mut TypeEnv,
    branches: &Vec<(TypeEnv, Vec<String>)>,
    span: Span,
) -> (r: SemanticResult<()>)
    requires
        old(tenv).view().len() > 0,
    ensures
        final(tenv).view().len() == old(tenv).view().len(),
        final(tenv).view().drop_last() == old(tenv).view().drop_last(),
        r is Ok <==> forall|k: int| 0 <= k < union_names(branches@, branches@.len() as int).len()
            ==> merge_of(branches@, #[trigger] union_names(branches@, branches@.len() as int)[k], branches@.len() as int) is Some,
        r is Ok ==> final(tenv).view() == merge_env(old(tenv).view(), branches@, union_names(branches@, branches@.len() as int)),
{
    let ghost n = branches@.len() as int;
    let mut all_assigned: Vec<String> = Vec::new();
    let mut b: usize = 0;
    assert(crate::semantic::scope::names_of(all_assigned@) =~= union_names(branches@, 0));
    while b < branches.len()
        invariant
            b <= branches.len(),
            crate::semantic::scope::names_of(all_assigned@) == union_names(branches@, b as int),
        decreases branches.len() - b,
    {
        let names = &branches[b].1;
        let ghost acc0 = crate::semantic::scope::names_of(all_assigned@);
        let ghost ns = crate::semantic::scope::names_of(names@);
        assert(ns.subrange(0, 0) =~= Seq::<Seq<char>>::empty());
        let mut k: usize = 0;
        while k < names.len()
            invariant
                k <= names.len(),
                ns == crate::semantic::scope::names_of(names@),
                crate::semantic::scope::names_of(all_assigned@) == add_names(acc0, ns.subrange(0, k as int)),
            decreases names.len() - k,
        {
            let ghost pre = ns.subrange(0, k + 1);
            assert(pre.drop_last() =~= ns.subrange(0, k as int));
            assert(pre.last() == names@[k as int]@);
            if !names_contain(&all_assigned, names[k].as_str()) {
                let t = names[k].clone();
                proof { crate::semantic::scope::lemma_names_push(all_assigned@, t); }
                all_assigned.push(t);
            }
            k = k + 1;
        }
        assert(ns.subrange(0, k as int) =~= ns);
        b = b + 1;
    }
    let ghost vars = crate::semantic::scope::names_of(all_assigned@);
    assert(vars == union_names(branches@, n));
    assert(vars.subrange(0, 0) =~= Seq::<Seq<char>>::empty());
    let mut v: usize = 0;
    while v < all_assigned.len()
        invariant
            v <= all_assigned.len(),
            vars == crate::semantic::scope::names_of(all_assigned@),
            vars == union_names(branches@, n),
            n == branches@.len(),
            tenv.view().len() == old(tenv).view().len(),
            old(tenv).view().len() > 0,
            tenv.view().drop_last() == old(tenv).view().drop_last(),
            tenv.view() == merge_env(old(tenv).view(), branches@, vars.subrange(0, v as int)),
            forall|k: int| 0 <= k < v ==> merge_of(branches@, #[trigger] vars[k], n) is Some,
        decreases all_assigned.len() - v,
    {
        let var = all_assigned[v].as_str();
        let ghost vn = vars[v as int];
        let mut merged: Option<Ty> = None;
        let mut b: usize = 0;
        while b < branches.len()
            invariant
                b <= branches.len(),
                vn == var@,
                n == branches@.len(),
                v < vars.len(),
                vars == union_names(branches@, n),
                vn == vars[v as int],
                tenv.view().len() == old(tenv).view().len(),
                tenv.view().drop_last() == old(tenv).view().drop_last(),
                merge_of(branches@, vn, b as int) == Some(merged),
            decreases branches.len() - b,
        {
            if names_contain(&branches[b].1, var) {
                let t_b = get_var_type(&branches[b].0, var);
                if !matches!(t_b, Ty::Unknown) {
                    match &merged {
                        Some(m) => {
                            if !ty_eq(m, &t_b) {
                                proof {
                                    lemma_merge_of_none(branches@, vn, b + 1, n);
                                    assert(merge_of(branches@, union_names(branches@, n)[v as int], n) is None);
                                }
                                let mut msg = "TypeError: variable '".to_owned();
                                msg.append(var);
                                msg.append("' has incompatible types across branches");
                                return Err(type_error(msg, span));
                            }
                        },
                        None => {
                            merged = Some(t_b);
                        },
                    }
                }
            }
            b = b + 1;
        }
        let ghost pre = vars.subrange(0, v + 1);
        assert(pre.drop_last() =~= vars.subrange(0, v as int));
        assert(pre.last() == vn);
        match merged {
            Some(t) => {
                tenv.set(all_assigned[v].clone(), t);
                assert(tenv.view().drop_last() =~= old(tenv).view().drop_last());
            },
            None => {},
        }
        v = v + 1;
    }
    assert(vars.subrange(0, v as int) =~= vars);
    Ok(())
}

/// The names with each of `ns` added at the end in order, unless there
/// already.
pub open spec fn add_names(acc: Seq<Seq<char>>, ns: Seq<Seq<char>>) -> Seq<Seq<char>>
    decreases ns.len(),
{
    if ns.len() == 0 {
        acc
    } else {
        let a = add_names(acc, ns.drop_last());
        if a.contains(ns.last()) { a } else { a.push(ns.last()) }
    }
}

/// The names that the first `n` branches assigned, each once, in the order
/// they first appear.
pub open spec fn union_names(brs: Seq<(TypeEnv, Vec<String>)>, n: int) -> Seq<Seq<char>>
    decreases n,
{
    if n <= 0 {
        Seq::empty()
    } else {
        add_names(union_names(brs, n - 1), crate::semantic::scope::names_of(brs[n - 1].1@))
    }
}

/// The type the first `n` branches agree on for `var`: each branch that
/// assigned it and gives it a known type must give the same one; `None`
/// where two disagree, `Some(None)` where none gives a known type.
pub open spec fn merge_of(brs: Seq<(TypeEnv, Vec<String>)>, var: Seq<char>, n: int) -> Option<Option<Ty>>
    decreases n,
{
    if n <= 0 {
        Some(None)
    } else {
        let prev = merge_of(brs, var, n - 1);
        let t = match env_lookup(brs[n - 1].0.view(), var) { Some(t) => t, None => Ty::Unknown };
        if crate::semantic::scope::names_of(brs[n - 1].1@).contains(var) && t != Ty::Unknown {
            match prev {
                Some(Some(m)) => if m == t { prev } else { None },
                Some(None) => Some(Some(t)),
                None => None,
            }
        } else {
            prev
        }
    }
}

proof fn lemma_merge_of_none(brs: Seq<(TypeEnv, Vec<String>)>, var: Seq<char>, m: int, n: int)
    requires
        0 <= m <= n,
        merge_of(brs, var, m) is None,
    ensures
        merge_of(brs, var, n) is None,
    decreases n - m,
{
    if m < n {
        lemma_merge_of_none(brs, var, m, n - 1);
    }
}

/// The environment after giving each of `vars` in turn the type the
/// branches agree on, where they agree on a known one.
pub open spec fn merge_env(e: EnvView, brs: Seq<(TypeEnv, Vec<String>)>, vars: Seq<Seq<char>>) -> EnvView
    decreases vars.len(),
{
    if vars.len() == 0 {
        e
    } else {
        let e1 = merge_env(e, brs, vars.drop_last());
        match merge_of(brs, vars.last(), brs.len() as int) {
            Some(Some(t)) => env_set(e1, vars.last(), t),
            _ => e1,
        }
    }
}

/// Type-checks one statement, updating the environment and the return type
/// of the enclosing function.
pub fn tc_stmt(
    stmt: &StmtS,
    tenv: &mut TypeEnv,
    ctx: &ProgramContext,
    current_fn_return: &mut Option<Ty>,
    in_loop: bool,
) -> (r: SemanticResult<()>)
    requires
        old(tenv).view().len() > 0,
    ensures
        final(tenv).view().len() >= old(tenv).view().len(),
        r is Ok ==> final(tenv).view().len() == old(tenv).view().len()
            && final(tenv).view().drop_last() == old(tenv).view().drop_last(),
        stmt_effect(*stmt, old(tenv).view(), final(tenv).view(), *old(current_fn_return),
            *final(current_fn_return), r is Ok, in_loop, ctx.fns()),
        stmt.0 matches Stmt::If { condition, .. } && expr_ty(condition, old(tenv).view(), ctx.fns()) == Some(Ty::Bool)
            ==> match stray_jump(*stmt, in_loop) {
                Some((b, sp)) => r matches Err(e) && e.message@ == stray_jump_text(b) && e.span == sp,
                None => true,
            },
        (stmt.0 is Break || stmt.0 is Continue) && !in_loop ==> (r matches Err(e)
            && e.message@ == stray_jump_text(stmt.0 is Break) && e.span == stmt.1),
        stmt.0 matches Stmt::Assign { target, value } ==> (target.0 matches Expr::Variable(name)
            ==> match (expr_ty(value, old(tenv).view(), ctx.fns()), env_lookup(old(tenv).view(), name@)) {
                (Some(t), Some(p)) => assign_ty(Some(p), t) is None ==> (r matches Err(e)
                    && e.message@ == "TypeError: cannot assign value of type "@ + ty_text(t)
                        + " to variable of type "@ + ty_text(p)
                    && e.span == value.1),
                _ => true,
            }),
    decreases stmt,
{
    let span = stmt.1;
    match &stmt.0 {
        Stmt::Break => {
            if !in_loop {
                return Err(type_error("SyntaxError: 'break' outside loop".to_owned(), span));
            }
            Ok(())
        },
        Stmt::Continue => {
            if !in_loop {
                return Err(type_error("SyntaxError: 'continue' outside loop".to_owned(), span));
            }
            Ok(())
        },
        Stmt::Pass => Ok(()),
        Stmt::Class { .. } => Ok(()),
        Stmt::Assign { target, value } => {
            let rhs = tc_expr(value, tenv, ctx)?;
            match &target.0 {
                Expr::Variable(name) => {
                    let prev = tenv.get(name.as_str());
                    let new_ty = match prev {
                        None => rhs,
                        Some(p) => {
                            if matches!(p, Ty::Unknown) {
                                rhs
                            } else if matches!(rhs, Ty::Unknown) {
                                p
                            } else if ty_eq(&p, &rhs) {
                                p
                            } else {
                                return Err(type_error(message2(
                                    "TypeError: cannot assign value of type ", &rhs,
                                    " to variable of type ", &p), value.1));
                            }
                        },
                    };
                    tenv.set(name.clone(), new_ty);
                    assert(tenv.view().drop_last() =~= old(tenv).view().drop_last());
                    Ok(())
                },
                Expr::Attribute { .. } | Expr::Index { .. } => {
                    let _ = tc_expr(target, tenv, ctx)?;
                    Ok(())
                },
                _ => Err(type_error("Invalid assignment target".to_owned(), target.1)),
            }
        },
        Stmt::Expr(e) => {
            let _ = tc_expr(e, tenv, ctx)?;
            Ok(())
        },
        Stmt::Return(e) => {
            let t = tc_expr(e, tenv, ctx)?;
            match current_fn_return {
                Some(prev) => {
                    let old_ty = clone_ty(prev);
                    match unify_return(clone_ty(&old_ty), clone_ty(&t)) {
                        Some(n) => {
                            *current_fn_return = Some(n);
                            Ok(())
                        },
                        None => Err(type_error(message2(
                            "TypeError: inconsistent return types in function: ", &old_ty, " vs ", &t), e.1)),
                    }
                },
                None => Ok(()),
            }
        },
        Stmt::If { condition, then_block, elif_blocks, else_block } => {
            ensure_bool(condition, tenv, ctx)?;
            match find_stray_jump(stmt, in_loop) {
                Some((is_break, sp)) => {
                    let m = if is_break {
                        "SyntaxError: 'break' outside loop".to_owned()
                    } else {
                        "SyntaxError: 'continue' outside loop".to_owned()
                    };
                    return Err(type_error(m, sp));
                },
                None => {},
            }
            let base = snapshot_env(tenv);
            let mut branches: Vec<(TypeEnv, Vec<String>)> = Vec::new();
            let mut then_env = snapshot_env(&base);
            with_env(&mut then_env, then_block, ctx, current_fn_return, in_loop);
            branches.push(branch_result(&base, then_env));
            check_elifs(tenv, &base, elif_blocks, ctx, current_fn_return, in_loop, &mut branches)?;
            match else_block {
                Some(block) => {
                    let mut else_env = snapshot_env(&base);
                    with_env(&mut else_env, block, ctx, current_fn_return, in_loop);
                    branches.push(branch_result(&base, else_env));
                },
                None => {},
            }
            merge_branches(tenv, &branches, condition.1)
        },
        Stmt::While { condition, body } => {
            ensure_bool(condition, tenv, ctx)?;
            let mut loop_env = snapshot_env(tenv);
            with_env(&mut loop_env, body, ctx, current_fn_return, true);
            Ok(())
        },
        Stmt::For { var, iterable, body } => {
            let iterable_ty = tc_expr(iterable, tenv, ctx)?;
            let loop_var_ty = match &iterable_ty {
                Ty::Range => Ty::Int,
                Ty::List(e) => clone_ty(e),
                Ty::Dict(k, _) => clone_ty(k),
                Ty::String => Ty::String,
                Ty::Unknown => Ty::Unknown,
                _ => {
                    return Err(type_error(message2("TypeError: type '", &iterable_ty, "' is not iterable", &Ty::Unknown), iterable.1));
                },
            };
            let mut loop_env = snapshot_env(tenv);
            loop_env.set(var.clone(), loop_var_ty);
            with_env(&mut loop_env, body, ctx, current_fn_return, true);
            Ok(())
        },
        Stmt::Def { params, body, .. } => {
            let ghost env0 = tenv.view();
            tenv.push();
            let mut p: usize = 0;
            while p < params.len()
                invariant
                    p <= params.len(),
                    tenv.view().len() == env0.len() + 1,
                    tenv.view().drop_last() == env0,
                decreases params.len() - p,
            {
                tenv.set(params[p].clone(), Ty::Unknown);
                assert(tenv.view().drop_last() =~= env0);
                p = p + 1;
            }
            let mut fn_return_ty: Option<Ty> = Some(Ty::Unknown);
            tc_block(body, tenv, ctx, &mut fn_return_ty)?;
            proof {
                if stray_jump_block(body@, false) is Some {
                    lemma_stray_in_passed_block(body@, ctx.fns());
                }
            }
            assert(tenv.view().drop_last() == env0);
            tenv.pop();
            Ok(())
        },
    }
}

/// What checking one module-level statement does to the environment and
/// to the return type (`None` where the return type is no longer known):
/// `Some(Some(..))` when the type check passes, `Some(None)` when it fails,
/// `None` where `stmt_effect` does not settle it (an `if` with a Bool
/// condition, a function definition, a `return` after a loop).
pub open spec fn tc_step(s: StmtS, e0: EnvView, r0: Option<Option<Ty>>, fns: Seq<(Seq<char>, usize)>)
    -> Option<Option<(EnvView, Option<Option<Ty>>)>>
{
    match s.0 {
        Stmt::Break | Stmt::Continue => Some(None),
        Stmt::Pass | Stmt::Class { .. } => Some(Some((e0, r0))),
        Stmt::Expr(e) => if expr_ty(e, e0, fns) is Some { Some(Some((e0, r0))) } else { Some(None) },
        Stmt::Assign { target, value } => match target.0 {
            Expr::Variable(name) => match expr_ty(value, e0, fns) {
                None => Some(None),
                Some(t) => match assign_ty(env_lookup(e0, name@), t) {
                    Some(n) => Some(Some((env_set(e0, name@, n), r0))),
                    None => Some(None),
                },
            },
            Expr::Attribute { .. } | Expr::Index { .. } =>
                if expr_ty(value, e0, fns) is Some && expr_ty(target, e0, fns) is Some { Some(Some((e0, r0))) } else { Some(None) },
            _ => Some(None),
        },
        Stmt::Return(e) => match expr_ty(e, e0, fns) {
            None => Some(None),
            Some(t) => match r0 {
                None => None,
                Some(None) => Some(Some((e0, r0))),
                Some(Some(p)) => match unify_spec(p, t) {
                    Some(n) => Some(Some((e0, Some(Some(n))))),
                    None => Some(None),
                },
            },
        },
        Stmt::If { condition, .. } => if expr_ty(condition, e0, fns) != Some(Ty::Bool) || stray_jump(s, false) is Some {
            Some(None)
        } else {
            None
        },
        Stmt::While { condition, .. } =>
            if expr_ty(condition, e0, fns) == Some(Ty::Bool) { Some(Some((e0, None))) } else { Some(None) },
        Stmt::For { iterable, .. } =>
            if expr_ty(iterable, e0, fns) matches Some(t) && iter_elem_ty(t) is Some { Some(Some((e0, None))) } else { Some(None) },
        Stmt::Def { body, .. } => if stray_jump_block(body@, false) is Some { Some(None) } else { None },
    }
}

/// The outcome of checking the first `n` statements of a program, each as
/// `tc_step` states it: a failure or an unsettled statement ends it.
pub open spec fn tc_run(program: Seq<StmtS>, n: int, fns: Seq<(Seq<char>, usize)>) -> Option<Option<(EnvView, Option<Option<Ty>>)>>
    decreases n,
{
    if n <= 0 {
        Some(Some((seq![Seq::<(Seq<char>, Ty)>::empty()], Some(Some(Ty::Unknown)))))
    } else {
        match tc_run(program, n - 1, fns) {
            Some(Some((e, r))) => tc_step(program[n - 1], e, r, fns),
            o => o,
        }
    }
}

proof fn lemma_tc_run_absorbs(program: Seq<StmtS>, m: int, n: int, fns: Seq<(Seq<char>, usize)>)
    requires
        0 <= m <= n,
        !(tc_run(program, m, fns) matches Some(Some(_))),
    ensures
        tc_run(program, n, fns) == tc_run(program, m, fns),
    decreases n - m,
{
    if m < n {
        lemma_tc_run_absorbs(program, m, n - 1, fns);
    }
}

/// Type-checks a program, module statements first to last; the first error
/// stops the type check.
pub fn typecheck_program(program: &Vec<StmtS>, ctx: &ProgramContext) -> (r: SemanticResult<()>)
    ensures
        program@.len() == 0 ==> r is Ok,
        tc_run(program@, program@.len() as int, ctx.fns()) matches Some(Some(_)) ==> r is Ok,
        tc_run(program@, program@.len() as int, ctx.fns()) matches Some(None) ==> r is Err,
{
    let mut tenv = TypeEnv::new();
    let mut ret: Option<Ty> = Some(Ty::Unknown);
    let ghost n = program@.len() as int;
    let ghost fns = ctx.fns();
    let ghost settled = tc_run(program@, n, fns) is Some;
    let mut i: usize = 0;
    while i < program.len()
        invariant
            i <= program.len(),
            n == program@.len(),
            fns == ctx.fns(),
            tenv.view().len() == 1,
            settled == (tc_run(program@, n, fns) is Some),
            settled ==> (tc_run(program@, i as int, fns) matches Some(Some((e, rs)))
                && e == tenv.view() && (rs matches Some(x) ==> x == ret)),
        decreases program.len() - i,
    {
        let ghost e0 = tenv.view();
        let ghost r0 = ret;
        proof {
            if settled && !(tc_run(program@, i + 1, fns) is Some) {
                lemma_tc_run_absorbs(program@, i + 1, n, fns);
            }
        }
        let step = tc_stmt(&program[i], &mut tenv, ctx, &mut ret, false);
        match step {
            Ok(()) => {},
            Err(e) => {
                proof {
                    if settled {
                        lemma_tc_run_absorbs(program@, i + 1, n, fns);
                    }
                }
                return Err(e);
            },
        }
        i = i + 1;
    }
    Ok(())
}

/// Giving a name a type and then looking the name up gives that type back;
/// other names keep the types they had.
pub proof fn law_env_get_after_set(env: EnvView, name: Seq<char>, t: Ty, other: Seq<char>)
    requires
        env.len() > 0,
    ensures
        env_lookup(env_set(env, name, t), name) == Some(t),
        other != name ==> env_lookup(env_set(env, name, t), other) == env_lookup(env, other),
{
    let e2 = env_set(env, name, t);
    let top = env.last().push((name, t));
    assert(e2.last() == top);
    assert(top.drop_last() =~= env.last());
    assert(e2.drop_last() =~= env.drop_last());
}

/// Opening a frame and closing it again leaves the environment as it was,
/// and a fresh frame hides no name of the frames around it.
pub proof fn law_env_pop_undoes_push(env: EnvView, name: Seq<char>)
    ensures
        env.push(Seq::empty()).drop_last() == env,
        env_lookup(env.push(Seq::empty()), name) == env_lookup(env, name),
{
    assert(env.push(Seq::empty()).drop_last() =~= env);
}

/// Unifying return types does not depend on their order, and an unknown
/// type gives way to any other.
pub proof fn law_unify_symmetric(a: Ty, b: Ty)
    ensures
        unify_spec(a, b) == unify_spec(b, a),
        unify_spec(Ty::Unknown, a) == Some(a),
        unify_spec(a, a) == Some(a),
{
}

} // verus!
