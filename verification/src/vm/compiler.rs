//! The compiler from syntax trees to bytecode.

use vstd::prelude::*;
use crate::ast::{BinaryOp, Expr, ExprS, Literal, MethodDef, Stmt, StmtS, UnaryOp};
use crate::builtins::str_eq;
use crate::vm::bytecode::{ClassDef, FunctionCode, Instruction, Module, Value};
use crate::vm::machine::{module_run, lemma_main_line_run, Vm, below2, line_run, line_step, lemma_line_run_append, div_spec, instr_wf, module_wf, neg_spec, rem_spec, top2, RelOp};
use crate::vm::values::eq_spec;
use crate::vm::values::str_lt;
use crate::semantic::scope::{names_of, lemma_names_push};

verus! {

/// The jumps of one loop that wait for its end and its start.
#[derive(Debug, Clone)]
pub struct LoopContext {
    pub break_jumps: Vec<usize>,
    pub continue_jumps: Vec<usize>,
}

impl LoopContext {
    pub fn new() -> (r: Self)
        ensures
            r.break_jumps@.len() == 0,
            r.continue_jumps@.len() == 0,
    {
        LoopContext { break_jumps: Vec::new(), continue_jumps: Vec::new() }
    }
}

/// Whether every instruction of `code` refers only to entries of `m`, and
/// every jump of it lands inside it.
pub open spec fn code_wf(m: Module, code: Seq<Instruction>) -> bool {
    &&& forall|k: int| 0 <= k < code.len() ==> #[trigger] instr_wf(m, code[k])
    &&& jumps_land(code)
}

/// Whether an instruction at index `k` of code of length `n`, if it is a
/// jump, lands at an instruction of the code or just past its end.
pub open spec fn lands(ins: Instruction, k: int, n: int) -> bool {
    match ins {
        Instruction::Jump(off) => 0 <= k + 1 + off <= n,
        Instruction::JumpIfFalse(off) => 0 <= k + 1 + off <= n,
        Instruction::JumpIfTrue(off) => 0 <= k + 1 + off <= n,
        _ => true,
    }
}

/// Whether every jump of `code` lands inside it (see `lands`).
pub open spec fn jumps_land(code: Seq<Instruction>) -> bool {
    forall|k: int| 0 <= k < code.len() ==> #[trigger] lands(code[k], k, code.len() as int)
}

/// A jump at `pos` pointed at `target`, both within code of length `n`,
/// lands inside it, also where its offset is held to the range of `i32`.
proof fn lemma_rel_lands(target: int, pos: int, n: int)
    requires
        0 <= target <= n,
        0 <= pos < n,
    ensures
        0 <= pos + 1 + rel_spec(target, pos) <= n,
{
}

/// `m1` has at least the entries of `m0`.
pub open spec fn grows(m0: Module, m1: Module) -> bool {
    &&& m0.string_pool@.len() <= m1.string_pool@.len()
    &&& m0.consts@.len() <= m1.consts@.len()
    &&& m0.symbols@.len() <= m1.symbols@.len()
    &&& m0.functions@.len() <= m1.functions@.len()
    &&& table_grows(m0.symbols@, m1.symbols@)
    &&& (names_distinct(m0.symbols@) ==> names_distinct(m1.symbols@))
    &&& (m0.globals@.len() == m0.symbols@.len() ==> m1.globals@.len() == m1.symbols@.len())
    &&& (all_land(m0) ==> all_land(m1))
}

/// Whether the jumps of every function of a module land inside its code.
pub open spec fn all_land(m: Module) -> bool {
    forall|f: int| 0 <= f < m.functions@.len() ==> #[trigger] jumps_land(m.functions@[f].code@)
}

/// Whether no name occurs twice in a symbol table.
pub open spec fn names_distinct(syms: Seq<String>) -> bool {
    forall|i: int, j: int| 0 <= i < j < syms.len() ==> syms[i]@ != syms[j]@
}

pub proof fn lemma_instr_grows(m0: Module, m1: Module, ins: Instruction)
    requires
        instr_wf(m0, ins),
        grows(m0, m1),
    ensures
        instr_wf(m1, ins),
{
}

pub proof fn lemma_code_grows(m0: Module, m1: Module, code: Seq<Instruction>)
    requires
        code_wf(m0, code),
        grows(m0, m1),
    ensures
        code_wf(m1, code),
{
    assert forall|k: int| 0 <= k < code.len() implies #[trigger] instr_wf(m1, code[k]) by {
        lemma_instr_grows(m0, m1, code[k]);
    }
}

/// The relative offset from the instruction after `from` to `target`,
/// within the range of `i32`.
pub open spec fn rel_spec(target: int, from: int) -> i32 {
    let d = target - (from + 1);
    if d > i32::MAX { i32::MAX } else if d < i32::MIN { i32::MIN } else { d as i32 }
}

fn rel(target: usize, from: usize) -> (r: i32)
    ensures
        r == rel_spec(target as int, from as int),
{
    let t = target as u64;
    let f = from as u64;
    if t > f {
        let d = t - f - 1;
        if d > 0x7fff_ffffu64 { 0x7fff_ffff } else { d as i32 }
    } else {
        let d = f - t;
        if d >= 0x8000_0000u64 { -0x8000_0000 } else { -(d as i64 + 1) as i32 }
    }
}

/// Sets the offset of a jump.
pub fn patch_rel(ins: &mut Instruction, rel: i32)
    requires
        matches!(*old(ins), Instruction::Jump(_) | Instruction::JumpIfFalse(_) | Instruction::JumpIfTrue(_)),
    ensures
        match *old(ins) {
            Instruction::Jump(_) => *final(ins) == Instruction::Jump(rel),
            Instruction::JumpIfFalse(_) => *final(ins) == Instruction::JumpIfFalse(rel),
            _ => *final(ins) == Instruction::JumpIfTrue(rel),
        },
{
    match ins {
        Instruction::Jump(_) => {
            *ins = Instruction::Jump(rel);
        },
        Instruction::JumpIfFalse(_) => {
            *ins = Instruction::JumpIfFalse(rel);
        },
        _ => {
            *ins = Instruction::JumpIfTrue(rel);
        },
    }
}

/// Sets the offset of the jump that ends a branch of an `if` chain.
pub fn patch_chain(ins: &mut Instruction, rel: i32)
    requires
        matches!(*old(ins), Instruction::Jump(_) | Instruction::JumpIfFalse(_) | Instruction::JumpIfTrue(_)),
    ensures
        match *old(ins) {
            Instruction::Jump(_) => *final(ins) == Instruction::Jump(rel),
            Instruction::JumpIfFalse(_) => *final(ins) == Instruction::JumpIfFalse(rel),
            _ => *final(ins) == Instruction::JumpIfTrue(rel),
        },
{
    patch_rel(ins, rel);
}

/// Points the jump at `pos` of `code`, if there is one, at `target`.
fn patch_at(code: &mut Vec<Instruction>, pos: usize, target: usize)
    ensures
        final(code)@.len() == old(code)@.len(),
        forall|k: int| 0 <= k < old(code)@.len() && k != pos ==> final(code)@[k] == old(code)@[k],
        pos < old(code)@.len() ==> match old(code)@[pos as int] {
            Instruction::Jump(_) => final(code)@[pos as int] == Instruction::Jump(rel_spec(target as int, pos as int)),
            Instruction::JumpIfFalse(_) => final(code)@[pos as int] == Instruction::JumpIfFalse(rel_spec(target as int, pos as int)),
            Instruction::JumpIfTrue(_) => final(code)@[pos as int] == Instruction::JumpIfTrue(rel_spec(target as int, pos as int)),
            _ => final(code)@[pos as int] == old(code)@[pos as int],
        },
{
    if pos < code.len() {
        let r = rel(target, pos);
        let new_ins = match &code[pos] {
            Instruction::Jump(_) => Some(Instruction::Jump(r)),
            Instruction::JumpIfFalse(_) => Some(Instruction::JumpIfFalse(r)),
            Instruction::JumpIfTrue(_) => Some(Instruction::JumpIfTrue(r)),
            _ => None,
        };
        match new_ins {
            Some(i) => {
                code.set(pos, i);
            },
            None => {},
        }
    }
}

proof fn lemma_patch_wf(m: Module, c0: Seq<Instruction>, c1: Seq<Instruction>, pos: int)
    requires
        code_wf(m, c0),
        c1.len() == c0.len(),
        forall|k: int| 0 <= k < c0.len() && k != pos ==> c1[k] == c0[k],
        0 <= pos < c0.len() ==> (c1[pos] is Jump || c1[pos] is JumpIfFalse || c1[pos] is JumpIfTrue || c1[pos] == c0[pos]),
        0 <= pos < c0.len() ==> lands(c1[pos], pos, c1.len() as int),
    ensures
        code_wf(m, c1),
{
    assert forall|k: int| 0 <= k < c1.len() implies #[trigger] instr_wf(m, c1[k]) by {
        if k != pos {
            assert(instr_wf(m, c0[k]));
        } else {
            assert(instr_wf(m, c0[k]));
        }
    }
    assert forall|k: int| 0 <= k < c1.len() implies #[trigger] lands(c1[k], k, c1.len() as int) by {
        if k != pos {
            assert(lands(c0[k], k, c0.len() as int));
        }
    }
}

/// The id of a builtin function, by name.
pub fn builtin_id(name: &str) -> (r: Option<u8>)
    ensures
        r matches Some(id) ==> exists|i: int| 0 <= i < 9 && crate::builtins::registry_names()[i] == name@
            && crate::builtins::registry_ids()[i] == id,
        r is None ==> forall|i: int| 0 <= i < 9 ==> crate::builtins::registry_names()[i] != name@,
{
    match crate::builtins::lookup(name) {
        Some(b) => {
            proof {
                let i = choose|i: int| crate::builtins::is_registry_entry(b, i) && crate::builtins::registry_names()[i] == name@;
                assert(0 <= i < 9 && crate::builtins::registry_names()[i] == name@ && crate::builtins::registry_ids()[i] == b.builtin_id);
            }
            Some(b.builtin_id)
        },
        None => None,
    }
}

/// The slot recorded last for a name in a local slot table.
pub open spec fn slot_lookup(locals: Seq<(String, u16)>, n: Seq<char>) -> Option<u16>
    decreases locals.len(),
{
    if locals.len() == 0 {
        None
    } else if locals.last().0@ == n {
        Some(locals.last().1)
    } else {
        slot_lookup(locals.drop_last(), n)
    }
}

/// Looks a name up in a local slot table (the entry recorded last wins).
fn local_slot(locals: &Vec<(String, u16)>, name: &str) -> (r: Option<u16>)
    ensures
        r == slot_lookup(locals@, name@),
{
    let mut i = locals.len();
    assert(locals@.subrange(0, i as int) =~= locals@);
    while i > 0
        invariant
            i <= locals.len(),
            slot_lookup(locals@, name@) == slot_lookup(locals@.subrange(0, i as int), name@),
        decreases i,
    {
        let ghost pre = locals@.subrange(0, i as int);
        assert(pre.drop_last() =~= locals@.subrange(0, i - 1));
        assert(pre.last() == locals@[i - 1]);
        if str_eq(locals[i - 1].0.as_str(), name) {
            return Some(locals[i - 1].1);
        }
        i = i - 1;
    }
    assert(locals@.subrange(0, 0) =~= Seq::<(String, u16)>::empty());
    None
}

/// The names with `n` added at the end unless it is there already.
pub open spec fn with_name(v: Seq<Seq<char>>, n: Seq<char>) -> Seq<Seq<char>> {
    if v.contains(n) { v } else { v.push(n) }
}

/// The names without any occurrence of `n`, in their order.
pub open spec fn without_name(v: Seq<Seq<char>>, n: Seq<char>) -> Seq<Seq<char>>
    decreases v.len(),
{
    if v.len() == 0 {
        v
    } else {
        let r = without_name(v.drop_last(), n);
        if v.last() == n { r } else { r.push(v.last()) }
    }
}

/// The names without any of `ns`, removed one after another.
pub open spec fn without_names(v: Seq<Seq<char>>, ns: Seq<Seq<char>>) -> Seq<Seq<char>>
    decreases ns.len(),
{
    if ns.len() == 0 { v } else { without_name(without_names(v, ns.drop_last()), ns.last()) }
}

/// The names collected from `e` after the names `v`: each variable read is
/// added once, in the order the expression is walked, and a lambda removes
/// its parameters from all that was collected so far.
pub open spec fn referenced(v: Seq<Seq<char>>, e: ExprS) -> Seq<Seq<char>>
    decreases e, 0nat,
{
    match e.0 {
        Expr::Variable(n) => with_name(v, n@),
        Expr::Binary { left, right, .. } => referenced(referenced(v, *left), *right),
        Expr::Unary { expr, .. } => referenced(v, *expr),
        Expr::Call { func_name, args } => referenced_list(referenced(v, *func_name), args@),
        Expr::Attribute { object, .. } => referenced(v, *object),
        Expr::List(items) => referenced_list(v, items@),
        Expr::Dict(pairs) => referenced_pairs(v, pairs@),
        Expr::Index { object, index } => referenced(referenced(v, *object), *index),
        Expr::Lambda { params, body } => without_names(referenced(v, *body), names_of(params@)),
        Expr::Literal(_) => v,
        Expr::Tuple(items) => referenced_list(v, items@),
        Expr::SetLit(items) => referenced_list(v, items@),
        Expr::TreeSet(items) => referenced_list(v, items@),
    }
}

/// `referenced` over expressions one after another.
pub open spec fn referenced_list(v: Seq<Seq<char>>, items: Seq<ExprS>) -> Seq<Seq<char>>
    decreases items, 1nat,
{
    if items.len() == 0 {
        v
    } else {
        referenced(referenced_list(v, items.subrange(0, items.len() - 1)), items[items.len() - 1])
    }
}

/// `referenced` over keys and values, pair after pair.
pub open spec fn referenced_pairs(v: Seq<Seq<char>>, pairs: Seq<(ExprS, ExprS)>) -> Seq<Seq<char>>
    decreases pairs, 1nat,
{
    if pairs.len() == 0 {
        v
    } else {
        let p = pairs[pairs.len() - 1];
        referenced(referenced(referenced_pairs(v, pairs.subrange(0, pairs.len() - 1)), p.0), p.1)
    }
}

fn push_unique(v: &mut Vec<String>, s: &str)
    ensures
        names_of(final(v)@) == with_name(names_of(old(v)@), s@),
{
    if !crate::semantic::scope::contains_name(v, s) {
        let t = s.to_owned();
        proof { lemma_names_push(v@, t); }
        v.push(t);
    }
}

fn remove_name(v: &mut Vec<String>, s: &str)
    ensures
        names_of(final(v)@) == without_name(names_of(old(v)@), s@),
{
    let mut out: Vec<String> = Vec::new();
    let mut i: usize = 0;
    while i < v.len()
        invariant
            i <= v.len(),
            names_of(out@) == without_name(names_of(v@.subrange(0, i as int)), s@),
        decreases v.len() - i,
    {
        let ghost pre = names_of(v@.subrange(0, i as int));
        assert(names_of(v@.subrange(0, i + 1)) =~= pre.push(v@[i as int]@));
        assert(pre.push(v@[i as int]@).drop_last() =~= pre);
        if !str_eq(v[i].as_str(), s) {
            let c = v[i].clone();
            proof { lemma_names_push(out@, c); }
            out.push(c);
        }
        i = i + 1;
    }
    assert(v@.subrange(0, v@.len() as int) =~= v@);
    *v = out;
}

/// Every name a lambda body reads; the parameters of a nested lambda are
/// then removed from what was collected.
pub fn collect_referenced_vars(expr: &ExprS, vars: &mut Vec<String>)
    ensures
        names_of(final(vars)@) == referenced(names_of(old(vars)@), *expr),
    decreases expr,
{
    match &expr.0 {
        Expr::Variable(name) => push_unique(vars, name.as_str()),
        Expr::Binary { left, right, .. } => {
            collect_referenced_vars(left, vars);
            collect_referenced_vars(right, vars);
        },
        Expr::Unary { expr: inner, .. } => collect_referenced_vars(inner, vars),
        Expr::Call { func_name, args } => {
            collect_referenced_vars(func_name, vars);
            collect_referenced_list(args, vars);
        },
        Expr::Attribute { object, .. } => collect_referenced_vars(object, vars),
        Expr::List(items) => collect_referenced_list(items, vars),
        Expr::Dict(pairs) => collect_referenced_pairs(pairs, vars),
        Expr::Index { object, index } => {
            collect_referenced_vars(object, vars);
            collect_referenced_vars(index, vars);
        },
        Expr::Lambda { params, body } => {
            collect_referenced_vars(body, vars);
            let ghost after_body = names_of(vars@);
            let mut k: usize = 0;
            while k < params.len()
                invariant
                    k <= params.len(),
                    names_of(vars@) == without_names(after_body, names_of(params@.subrange(0, k as int))),
                decreases params.len() - k,
            {
                let ghost ps = names_of(params@.subrange(0, k as int));
                assert(names_of(params@.subrange(0, k + 1)) =~= ps.push(params@[k as int]@));
                assert(ps.push(params@[k as int]@).drop_last() =~= ps);
                remove_name(vars, params[k].as_str());
                k = k + 1;
            }
            assert(params@.subrange(0, params@.len() as int) =~= params@);
        },
        Expr::Literal(_) => {},
        Expr::Tuple(items) => collect_referenced_list(items, vars),
        Expr::SetLit(items) => collect_referenced_list(items, vars),
        Expr::TreeSet(items) => collect_referenced_list(items, vars),
    }
}

fn collect_referenced_pairs(pairs: &Vec<(ExprS, ExprS)>, vars: &mut Vec<String>)
    ensures
        names_of(final(vars)@) == referenced_pairs(names_of(old(vars)@), pairs@),
    decreases pairs,
{
    let mut i: usize = 0;
    while i < pairs.len()
        invariant
            i <= pairs.len(),
            names_of(vars@) == referenced_pairs(names_of(old(vars)@), pairs@.subrange(0, i as int)),
        decreases pairs.len() - i,
    {
        assert(pairs@.subrange(0, i + 1).subrange(0, i as int) =~= pairs@.subrange(0, i as int));
        collect_referenced_vars(&pairs[i].0, vars);
        collect_referenced_vars(&pairs[i].1, vars);
        i = i + 1;
    }
    assert(pairs@.subrange(0, pairs@.len() as int) =~= pairs@);
}

fn collect_referenced_list(items: &Vec<ExprS>, vars: &mut Vec<String>)
    ensures
        names_of(final(vars)@) == referenced_list(names_of(old(vars)@), items@),
    decreases items,
{
    let mut i: usize = 0;
    while i < items.len()
        invariant
            i <= items.len(),
            names_of(vars@) == referenced_list(names_of(old(vars)@), items@.subrange(0, i as int)),
        decreases items.len() - i,
    {
        assert(items@.subrange(0, i + 1).subrange(0, i as int) =~= items@.subrange(0, i as int));
        collect_referenced_vars(&items[i], vars);
        i = i + 1;
    }
    assert(items@.subrange(0, items@.len() as int) =~= items@);
}

/// Whether names are in order by `text_lt`: none comes before one before it.
pub open spec fn names_sorted(s: Seq<Seq<char>>) -> bool {
    forall|a: int, b: int| 0 <= a < b < s.len() ==> !crate::vm::values::text_lt(#[trigger] s[b], #[trigger] s[a])
}

/// `text_lt` is asymmetric.
proof fn lemma_text_lt_asym(a: Seq<char>, b: Seq<char>)
    ensures
        crate::vm::values::text_lt(a, b) ==> !crate::vm::values::text_lt(b, a),
    decreases a.len(),
{
    if a.len() > 0 && b.len() > 0 && a[0] == b[0] {
        lemma_text_lt_asym(a.drop_first(), b.drop_first());
    }
}

proof fn lemma_char_u32(c: char)
    ensures
        (c as u32) as int == c as int,
{
    assert(0 <= c as int <= 0x10FFFF);
}

/// Not being before is transitive for `text_lt`.
proof fn lemma_text_le_trans(x: Seq<char>, y: Seq<char>, z: Seq<char>)
    ensures
        crate::vm::values::text_lt(z, x) ==> crate::vm::values::text_lt(z, y) || crate::vm::values::text_lt(y, x),
    decreases x.len(),
{
    if z.len() > 0 && x.len() > 0 && y.len() > 0 {
        if z[0] == x[0] && y[0] == x[0] {
            lemma_text_le_trans(x.drop_first(), y.drop_first(), z.drop_first());
        } else {
            lemma_char_u32(z[0]);
            lemma_char_u32(x[0]);
            lemma_char_u32(y[0]);
        }
    }
}

/// Sorts names by their characters' code points.
fn sort_names(v: &mut Vec<String>)
    ensures
        final(v)@.to_multiset() == old(v)@.to_multiset(),
        names_of(final(v)@).to_multiset() == names_of(old(v)@).to_multiset(),
        names_sorted(names_of(final(v)@)),
{
    let n = v.len();
    if n == 0 {
        return;
    }
    let mut i: usize = 1;
    while i < n
        invariant
            v@.len() == n,
            1 <= i <= n,
            v@.to_multiset() == old(v)@.to_multiset(),
            names_of(v@).to_multiset() == names_of(old(v)@).to_multiset(),
            forall|a: int, b: int| 0 <= a < b < i ==> !crate::vm::values::text_lt(#[trigger] v@[b]@, #[trigger] v@[a]@),
        decreases n - i,
    {
        let mut j = i;
        while j > 0
            invariant
                j <= i,
                i < n,
                v@.len() == n,
                v@.to_multiset() == old(v)@.to_multiset(),
                names_of(v@).to_multiset() == names_of(old(v)@).to_multiset(),
                forall|a: int, b: int| 0 <= a < b <= i && a != j && b != j
                    ==> !crate::vm::values::text_lt(#[trigger] v@[b]@, #[trigger] v@[a]@),
                forall|b: int| j < b <= i ==> crate::vm::values::text_lt(v@[j as int]@, #[trigger] v@[b]@),
                forall|b: int| j < b <= i ==> !crate::vm::values::text_lt(#[trigger] v@[b]@, v@[j as int]@),
            ensures
                v@.len() == n,
                v@.to_multiset() == old(v)@.to_multiset(),
                names_of(v@).to_multiset() == names_of(old(v)@).to_multiset(),
                forall|a: int, b: int| 0 <= a < b <= i ==> !crate::vm::values::text_lt(#[trigger] v@[b]@, #[trigger] v@[a]@),
            decreases j,
        {
            if str_lt(v[j].as_str(), v[j - 1].as_str()) {
                let ghost w = v@;
                let mut a = String::new();
                v.set_and_swap(j, &mut a);
                v.set_and_swap(j - 1, &mut a);
                v.set(j, a);
                proof {
                    assert(v@ == w.update(j as int, w[j - 1]).update(j - 1, w[j as int]));
                    let w1 = w.update(j as int, w[j - 1]);
                    vstd::seq_lib::to_multiset_update(w, j as int, w[j - 1]);
                    vstd::seq_lib::to_multiset_update(w1, j - 1, w[j as int]);
                    assert(w1[j - 1] == w[j - 1]);
                    assert(v@.to_multiset() =~= w.to_multiset()) by {
                        broadcast use vstd::multiset::group_multiset_axioms, vstd::seq_lib::to_multiset_contains;
                        assert(w.to_multiset().contains(w[j as int]));
                    }
                    let nw = names_of(w);
                    let nw1 = nw.update(j as int, nw[j - 1]);
                    assert(names_of(v@) =~= nw1.update(j - 1, nw[j as int]));
                    vstd::seq_lib::to_multiset_update(nw, j as int, nw[j - 1]);
                    vstd::seq_lib::to_multiset_update(nw1, j - 1, nw[j as int]);
                    assert(names_of(v@).to_multiset() =~= nw.to_multiset()) by {
                        broadcast use vstd::multiset::group_multiset_axioms, vstd::seq_lib::to_multiset_contains;
                        assert(nw.to_multiset().contains(nw[j as int]));
                    }
                    lemma_text_lt_asym(w[j as int]@, w[j - 1]@);
                }
                j = j - 1;
            } else {
                proof {
                    let mv = v@[j as int]@;
                    assert forall|a: int, b: int| 0 <= a < b <= i implies !crate::vm::values::text_lt(#[trigger] v@[b]@, #[trigger] v@[a]@) by {
                        if b == j {
                            if a < j - 1 {
                                lemma_text_le_trans(v@[a]@, v@[j - 1]@, mv);
                            }
                        } else if a == j {
                            lemma_text_lt_asym(mv, v@[b]@);
                        }
                    }
                }
                break;
            }
        }
        proof {
            assert forall|a: int, b: int| 0 <= a < b < i + 1 implies !crate::vm::values::text_lt(#[trigger] v@[b]@, #[trigger] v@[a]@) by {
                assert(b <= i);
            }
        }
        i = i + 1;
    }
    assert(names_sorted(names_of(v@))) by {
        assert forall|a: int, b: int| 0 <= a < b < names_of(v@).len() implies
            !crate::vm::values::text_lt(#[trigger] names_of(v@)[b], #[trigger] names_of(v@)[a]) by {
            assert(names_of(v@)[b] == v@[b]@);
            assert(names_of(v@)[a] == v@[a]@);
        }
    }
}

/// The names a lambda must capture: those its body reads, other than its
/// parameters, that are locals of the enclosing function (none at module
/// level), sorted.
pub fn collect_free_vars(body: &ExprS, params: &Vec<String>, parent_locals: Option<&Vec<(String, u16)>>) -> (r: Vec<String>)
    ensures
        parent_locals is None ==> r@.len() == 0,
        parent_locals matches Some(locals) ==> names_sorted(names_of(r@))
            && names_of(r@).to_multiset() == captured(without_names(referenced(Seq::empty(), *body), names_of(params@)),
                locals@).to_multiset(),
{
    let mut referenced: Vec<String> = Vec::new();
    assert(names_of(referenced@) =~= Seq::<Seq<char>>::empty());
    collect_referenced_vars(body, &mut referenced);
    let ghost r0 = names_of(referenced@);
    assert(names_of(params@).subrange(0, 0) =~= Seq::<Seq<char>>::empty());
    let mut k: usize = 0;
    while k < params.len()
        invariant
            k <= params.len(),
            names_of(referenced@) == without_names(r0, names_of(params@).subrange(0, k as int)),
        decreases params.len() - k,
    {
        remove_name(&mut referenced, params[k].as_str());
        proof {
            let pre = names_of(params@).subrange(0, k + 1);
            assert(pre.drop_last() =~= names_of(params@).subrange(0, k as int));
            assert(pre.last() == params@[k as int]@);
        }
        k = k + 1;
    }
    assert(names_of(params@).subrange(0, k as int) =~= names_of(params@));
    let ghost cand = names_of(referenced@);
    let mut free: Vec<String> = Vec::new();
    match parent_locals {
        Some(locals) => {
            assert(names_of(free@) =~= captured(cand.subrange(0, 0), locals@));
            let mut i: usize = 0;
            while i < referenced.len()
                invariant
                    i <= referenced.len(),
                    cand == names_of(referenced@),
                    names_of(free@) == captured(cand.subrange(0, i as int), locals@),
                decreases referenced.len() - i,
            {
                let ghost pre = cand.subrange(0, i + 1);
                assert(pre.drop_last() =~= cand.subrange(0, i as int));
                assert(pre.last() == referenced@[i as int]@);
                if local_slot(locals, referenced[i].as_str()).is_some() {
                    let t = referenced[i].clone();
                    proof { lemma_names_push(free@, t); }
                    free.push(t);
                }
                i = i + 1;
            }
            assert(cand.subrange(0, i as int) =~= cand);
            sort_names(&mut free);
        },
        None => {},
    }
    free
}

/// The names among `s` that have a slot in `locals`, in order.
pub open spec fn captured(s: Seq<Seq<char>>, locals: Seq<(String, u16)>) -> Seq<Seq<char>>
    decreases s.len(),
{
    if s.len() == 0 {
        Seq::empty()
    } else if slot_lookup(locals, s.last()) is Some {
        captured(s.drop_last(), locals).push(s.last())
    } else {
        captured(s.drop_last(), locals)
    }
}

/// The names seen after walking a statement from `seen`: each name it
/// binds (assignment target, definition, class, loop variable, at any depth
/// of blocks) is added at the end when new.
pub open spec fn walk_stmt(seen: Seq<Seq<char>>, st: StmtS) -> Seq<Seq<char>>
    decreases st,
{
    match st.0 {
        Stmt::Assign { target, .. } => match target.0 {
            Expr::Variable(n) => with_name(seen, n@),
            _ => seen,
        },
        Stmt::Def { name, .. } => with_name(seen, name@),
        Stmt::Class { name, .. } => with_name(seen, name@),
        Stmt::If { then_block, elif_blocks, else_block, .. } => {
            let s2 = walk_elifs(walk_block(seen, then_block@), elif_blocks@);
            match else_block {
                Some(b) => walk_block(s2, b@),
                None => s2,
            }
        },
        Stmt::While { body, .. } => walk_block(seen, body@),
        Stmt::For { var, body, .. } => walk_block(with_name(seen, var@), body@),
        _ => seen,
    }
}

/// The names seen after walking a block's statements in order.
pub open spec fn walk_block(seen: Seq<Seq<char>>, ss: Seq<StmtS>) -> Seq<Seq<char>>
    decreases ss,
{
    if ss.len() == 0 { seen } else { walk_block(walk_stmt(seen, ss[0]), ss.drop_first()) }
}

/// The names seen after walking the blocks of `elif` branches in order.
pub open spec fn walk_elifs(seen: Seq<Seq<char>>, es: Seq<(ExprS, Vec<StmtS>)>) -> Seq<Seq<char>>
    decreases es,
{
    if es.len() == 0 { seen } else { walk_elifs(walk_block(seen, es[0].1@), es.drop_first()) }
}

/// The names a function body binds (see `semantic::resolve::block_locals`).
fn walk_locals(body: &Vec<StmtS>, seen: &mut Vec<String>)
    ensures
        names_of(final(seen)@) == walk_block(names_of(old(seen)@), body@),
    decreases body,
{
    assert(body@.subrange(0, body@.len() as int) =~= body@);
    let mut i: usize = 0;
    while i < body.len()
        invariant
            i <= body.len(),
            walk_block(names_of(old(seen)@), body@) == walk_block(names_of(seen@), body@.subrange(i as int, body@.len() as int)),
        decreases body.len() - i,
    {
        let ghost sub = body@.subrange(i as int, body@.len() as int);
        assert(sub.drop_first() =~= body@.subrange(i + 1, body@.len() as int));
        assert(sub[0] == body@[i as int]);
        walk_stmt_locals(&body[i], seen);
        i = i + 1;
    }
    assert(body@.subrange(i as int, body@.len() as int) =~= Seq::<StmtS>::empty());
}

fn walk_stmt_locals(st: &StmtS, seen: &mut Vec<String>)
    ensures
        names_of(final(seen)@) == walk_stmt(names_of(old(seen)@), *st),
    decreases st,
{
    match &st.0 {
        Stmt::Assign { target, .. } => {
            match &target.0 {
                Expr::Variable(name) => push_unique(seen, name.as_str()),
                _ => {},
            }
        },
        Stmt::Def { name, .. } => push_unique(seen, name.as_str()),
        Stmt::Class { name, .. } => push_unique(seen, name.as_str()),
        Stmt::If { then_block, elif_blocks, else_block, .. } => {
            walk_locals(then_block, seen);
            walk_elif_locals(elif_blocks, seen);
            match else_block {
                Some(b) => walk_locals(b, seen),
                None => {},
            }
        },
        Stmt::While { body, .. } => walk_locals(body, seen),
        Stmt::For { var, body, .. } => {
            push_unique(seen, var.as_str());
            walk_locals(body, seen);
        },
        _ => {},
    }
}

fn walk_elif_locals(elifs: &Vec<(ExprS, Vec<StmtS>)>, seen: &mut Vec<String>)
    ensures
        names_of(final(seen)@) == walk_elifs(names_of(old(seen)@), elifs@),
    decreases elifs,
{
    assert(elifs@.subrange(0, elifs@.len() as int) =~= elifs@);
    let mut i: usize = 0;
    while i < elifs.len()
        invariant
            i <= elifs.len(),
            walk_elifs(names_of(old(seen)@), elifs@) == walk_elifs(names_of(seen@), elifs@.subrange(i as int, elifs@.len() as int)),
        decreases elifs.len() - i,
    {
        let ghost sub = elifs@.subrange(i as int, elifs@.len() as int);
        assert(sub.drop_first() =~= elifs@.subrange(i + 1, elifs@.len() as int));
        assert(sub[0] == elifs@[i as int]);
        walk_locals(&elifs[i].1, seen);
        i = i + 1;
    }
    assert(elifs@.subrange(i as int, elifs@.len() as int) =~= Seq::<(ExprS, Vec<StmtS>)>::empty());
}

/// A slot table by the text of its names.
pub open spec fn slots_view(m: Seq<(String, u16)>) -> Seq<(Seq<char>, u16)> {
    m.map_values(|p: (String, u16)| (p.0@, p.1))
}

/// The slots of the parameters: each in order, as far as slots go.
pub open spec fn param_slots(params: Seq<String>) -> Seq<(Seq<char>, u16)> {
    Seq::new(if params.len() < 0xffff { params.len() } else { 0xffff }, |j: int| (params[j]@, j as u16))
}

/// The slot table with a slot added at the end for each name that has none
/// yet, in order, while there is room.
pub open spec fn add_slots(m: Seq<(Seq<char>, u16)>, names: Seq<Seq<char>>) -> Seq<(Seq<char>, u16)>
    decreases names.len(),
{
    if names.len() == 0 {
        m
    } else {
        let fresh = forall|j: int| 0 <= j < m.len() ==> (#[trigger] m[j]).0 != names[0];
        let m1 = if fresh && m.len() < 0xffff { m.push((names[0], m.len() as u16)) } else { m };
        add_slots(m1, names.drop_first())
    }
}

proof fn lemma_slot_lookup_none(m: Seq<(String, u16)>, n: Seq<char>)
    ensures
        slot_lookup(m, n) is None <==> forall|j: int| 0 <= j < m.len() ==> (#[trigger] m[j]).0@ != n,
    decreases m.len(),
{
    if m.len() > 0 {
        lemma_slot_lookup_none(m.drop_last(), n);
        assert forall|j: int| 0 <= j < m.len() - 1 implies m.drop_last()[j] == m[j] by {}
        assert(m.last() == m[m.len() - 1]);
    }
}

/// The local slots of a function: the parameters first, in order, then the
/// other names its body binds.
pub fn collect_locals(params: &Vec<String>, body: &Vec<StmtS>) -> (r: Vec<(String, u16)>)
    ensures
        r@.len() <= 0xffff,
        slots_view(r@) == add_slots(param_slots(params@), walk_block(names_of(params@), body@)),
{
    let mut map: Vec<(String, u16)> = Vec::new();
    let mut i: usize = 0;
    while i < params.len() && i < 0xffff
        invariant
            map@.len() == i,
            i <= 0xffff,
            i <= params@.len(),
            slots_view(map@) == Seq::new(i as nat, |j: int| (params@[j]@, j as u16)),
        decreases params.len() - i,
    {
        let ghost prev = map@;
        let ghost i0 = i as int;
        map.push((params[i].clone(), i as u16));
        proof {
            assert forall|j: int| 0 <= j <= i0 implies #[trigger] slots_view(map@)[j] == (params@[j]@, j as u16) by {
                if j < i0 {
                    assert(map@[j] == prev[j]);
                    assert(slots_view(prev)[j] == Seq::new(i0 as nat, |j: int| (params@[j]@, j as u16))[j]);
                } else {
                    assert(map@[j] == (params@[i0], i0 as u16));
                }
            }
        }
        i = i + 1;
        assert(slots_view(map@) =~= Seq::new(i as nat, |j: int| (params@[j]@, j as u16)));
    }
    assert(slots_view(map@) =~= param_slots(params@));
    let mut seen = crate::parser::clone_strings(params);
    walk_locals(body, &mut seen);
    let ghost names = names_of(seen@);
    assert(names.subrange(0, names.len() as int) =~= names);
    let mut k: usize = 0;
    while k < seen.len()
        invariant
            k <= seen.len(),
            map@.len() <= 0xffff,
            names == names_of(seen@),
            add_slots(param_slots(params@), walk_block(names_of(params@), body@))
                == add_slots(slots_view(map@), names.subrange(k as int, names.len() as int)),
        decreases seen.len() - k,
    {
        let ghost sub = names.subrange(k as int, names.len() as int);
        assert(sub.drop_first() =~= names.subrange(k + 1, names.len() as int));
        assert(sub[0] == seen@[k as int]@);
        let ghost mv = slots_view(map@);
        proof {
            lemma_slot_lookup_none(map@, seen@[k as int]@);
            assert forall|j: int| 0 <= j < map@.len() implies #[trigger] mv[j].0 == map@[j].0@ by {}
        }
        let ghost fresh = forall|j: int| 0 <= j < mv.len() ==> (#[trigger] mv[j]).0 != sub[0];
        let ghost m1 = if fresh && mv.len() < 0xffff { mv.push((sub[0], mv.len() as u16)) } else { mv };
        assert(add_slots(mv, sub) == add_slots(m1, sub.drop_first()));
        if local_slot(&map, seen[k].as_str()).is_none() && map.len() < 0xffff {
            let idx = map.len() as u16;
            map.push((seen[k].clone(), idx));
            assert(fresh);
            assert(slots_view(map@) =~= mv.push((seen@[k as int]@, mv.len() as u16)));
        } else {
            proof {
                if mv.len() < 0xffff {
                    let j = choose|j: int| 0 <= j < map@.len() && (#[trigger] map@[j]).0@ == seen@[k as int]@;
                    assert(mv[j].0 == sub[0]);
                }
            }
        }
        assert(slots_view(map@) == m1);
        k = k + 1;
    }
    assert(names.subrange(k as int, names.len() as int) =~= Seq::<Seq<char>>::empty());
    map
}

/// Whether `break` and `continue` stand only inside loops of the same
/// function, and every assignment target is a name, an attribute or an
/// index: the statements the compiler accepts.
pub open spec fn compilable(st: StmtS, in_loop: bool) -> bool
    decreases st,
{
    match st.0 {
        Stmt::Break | Stmt::Continue => in_loop,
        Stmt::Assign { target, .. } => target.0 is Variable || target.0 is Attribute || target.0 is Index,
        Stmt::If { then_block, elif_blocks, else_block, .. } => block_compilable(then_block@, in_loop)
            && elifs_compilable(elif_blocks@, in_loop)
            && match else_block {
                Some(b) => block_compilable(b@, in_loop),
                None => true,
            },
        Stmt::While { body, .. } => block_compilable(body@, true),
        Stmt::For { body, .. } => block_compilable(body@, true),
        Stmt::Def { body, .. } => block_compilable(body@, false),
        Stmt::Class { methods, .. } => methods_compilable(methods@),
        _ => true,
    }
}

pub open spec fn block_compilable(ss: Seq<StmtS>, in_loop: bool) -> bool
    decreases ss,
{
    if ss.len() == 0 { true } else { compilable(ss[0], in_loop) && block_compilable(ss.drop_first(), in_loop) }
}

pub open spec fn elifs_compilable(es: Seq<(ExprS, Vec<StmtS>)>, in_loop: bool) -> bool
    decreases es,
{
    if es.len() == 0 { true } else { block_compilable(es[0].1@, in_loop) && elifs_compilable(es.drop_first(), in_loop) }
}

pub open spec fn methods_compilable(ms: Seq<MethodDef>) -> bool
    decreases ms,
{
    if ms.len() == 0 { true } else { block_compilable(ms[0].body@, false) && methods_compilable(ms.drop_first()) }
}

/// Appends an instruction that refers only to entries of `m`.
fn push_ins(fun: &mut FunctionCode, ins: Instruction, Ghost(m): Ghost<Module>)
    requires
        code_wf(m, old(fun).code@),
        instr_wf(m, ins),
        lands(ins, old(fun).code@.len() as int, old(fun).code@.len() as int + 1),
    ensures
        code_wf(m, final(fun).code@),
        final(fun).code@ == old(fun).code@.push(ins),
        final(fun).name_sym == old(fun).name_sym,
        final(fun).arity == old(fun).arity,
        final(fun).num_locals == old(fun).num_locals,
{
    fun.code.push(ins);
    assert forall|k: int| 0 <= k < fun.code@.len() implies #[trigger] instr_wf(m, fun.code@[k]) by {
        if k < old(fun).code@.len() {
            assert(fun.code@[k] == old(fun).code@[k]);
        }
    }
    assert forall|k: int| 0 <= k < fun.code@.len() implies #[trigger] lands(fun.code@[k], k, fun.code@.len() as int) by {
        if k < old(fun).code@.len() {
            assert(fun.code@[k] == old(fun).code@[k]);
            assert(lands(old(fun).code@[k], k, old(fun).code@.len() as int));
        }
    }
}

/// The code with the jump at `pos` pointed at `target`; an instruction there
/// that is no jump, or a position past the end, leaves it as it is.
pub open spec fn patched(code: Seq<Instruction>, pos: int, target: int) -> Seq<Instruction> {
    if 0 <= pos < code.len() {
        match code[pos] {
            Instruction::Jump(_) => code.update(pos, Instruction::Jump(rel_spec(target, pos))),
            Instruction::JumpIfFalse(_) => code.update(pos, Instruction::JumpIfFalse(rel_spec(target, pos))),
            Instruction::JumpIfTrue(_) => code.update(pos, Instruction::JumpIfTrue(rel_spec(target, pos))),
            _ => code,
        }
    } else {
        code
    }
}

/// The code with each jump at the positions `ps` pointed at `target`, in
/// order.
pub open spec fn patched_all(code: Seq<Instruction>, ps: Seq<usize>, target: int) -> Seq<Instruction>
    decreases ps.len(),
{
    if ps.len() == 0 {
        code
    } else {
        patched(patched_all(code, ps.drop_last(), target), ps.last() as int, target)
    }
}

/// Points the jump at `pos` of a function's code at `target`.
fn patch_fun(fun: &mut FunctionCode, pos: usize, target: usize, Ghost(m): Ghost<Module>)
    requires
        code_wf(m, old(fun).code@),
        target <= old(fun).code@.len(),
    ensures
        code_wf(m, final(fun).code@),
        final(fun).code@.len() == old(fun).code@.len(),
        final(fun).code@ == patched(old(fun).code@, pos as int, target as int),
        final(fun).name_sym == old(fun).name_sym,
        final(fun).arity == old(fun).arity,
        final(fun).num_locals == old(fun).num_locals,
{
    let ghost c0 = fun.code@;
    patch_at(&mut fun.code, pos, target);
    proof {
        if pos < c0.len() {
            lemma_rel_lands(target as int, pos as int, c0.len() as int);
        }
        lemma_patch_wf(m, c0, fun.code@, pos as int);
    }
    assert(fun.code@ =~= patched(c0, pos as int, target as int));
}

/// The id of a string in the pool, adding it when new.
fn get_or_add_string(module: &mut Module, s: String) -> (r: u32)
    requires
        module_wf(*old(module)),
    ensures
        (r as int) < final(module).string_pool@.len(),
        module_wf(*final(module)),
        grows(*old(module), *final(module)),
        final(module).functions == old(module).functions,
        final(module).classes == old(module).classes,
{
    let mut i: usize = 0;
    while i < module.string_pool.len()
        invariant
            i <= module.string_pool@.len(),
            *module == *old(module),
            module_wf(*module),
        decreases module.string_pool@.len() - i,
    {
        if str_eq(module.string_pool[i].as_str(), s.as_str()) && i <= 0xffff_ffff {
            return i as u32;
        }
        i = i + 1;
    }
    if module.string_pool.len() > 0xffff_ffff {
        return 0;
    }
    let id = module.string_pool.len() as u32;
    let ghost m0 = *module;
    module.string_pool.push(s);
    proof { lemma_wf_grows(m0, *module); }
    id
}

/// A module keeps its well-formedness when only its pools grow.
proof fn lemma_wf_grows(m0: Module, m1: Module)
    requires
        module_wf(m0),
        grows(m0, m1),
        m1.functions == m0.functions,
        m1.classes == m0.classes,
    ensures
        module_wf(m1),
{
    assert forall|f: int, k: int| 0 <= f < m1.functions@.len() && 0 <= k < m1.functions@[f].code@.len()
        implies #[trigger] instr_wf(m1, m1.functions@[f].code@[k]) by {
        assert(instr_wf(m0, m0.functions@[f].code@[k]));
    }
}

/// The compiler: the module being built and the loops being compiled.
pub struct Compiler {
    pub module: Module,
    pub loop_stack: Vec<LoopContext>,
}

impl Compiler {
    /// A compiler with an empty module.
    pub fn new() -> (c: Self)
        ensures
            module_wf(c.module),
            c.module.functions@.len() == 0,
            c.module.symbols@.len() == 0,
            c.module.globals@.len() == 0,
            c.loop_stack@.len() == 0,
    {
        Compiler { module: Module::new(), loop_stack: Vec::new() }
    }

    /// A compiler that goes on from an earlier session: its symbols and
    /// functions are kept, so that their ids stay valid.
    pub fn with_context(symbol_names: Vec<String>, existing_functions: Vec<FunctionCode>) -> (c: Self)
        ensures
            c.module.symbols == symbol_names,
            c.module.functions == existing_functions,
            c.module.globals@ == Seq::new(symbol_names@.len(), |i: int| None::<Value>),
            c.module.consts@.len() == 0,
            c.module.string_pool@.len() == 0,
            c.module.classes@.len() == 0,
            c.module.types@.len() == 5,
            c.loop_stack@.len() == 0,
    {
        let mut module = Module::new();
        let n = symbol_names.len();
        module.symbols = symbol_names;
        let mut globals: Vec<Option<Value>> = Vec::new();
        let mut i: usize = 0;
        while i < n
            invariant
                i <= n,
                globals@ == Seq::new(i as nat, |k: int| None::<Value>),
            decreases n - i,
        {
            globals.push(None);
            i = i + 1;
            assert(globals@ =~= Seq::new(i as nat, |k: int| None::<Value>));
        }
        module.globals = globals;
        module.functions = existing_functions;
        Compiler { module, loop_stack: Vec::new() }
    }

    /// The symbol id of a name, adding the name (and its global slot) when
    /// new. Ids stop growing at 65535.
    pub fn intern(&mut self, s: &str) -> (r: u16)
        requires
            module_wf(old(self).module),
        ensures
            (r as int) < final(self).module.symbols@.len(),
            module_wf(final(self).module),
            grows(old(self).module, final(self).module),
            final(self).module.functions == old(self).module.functions,
            final(self).module.classes == old(self).module.classes,
            final(self).loop_stack == old(self).loop_stack,
            old(self).module.symbols@.len() <= 0xffff ==> r as int == sym_of(final(self).module.symbols@, s@)
                && table_grows(old(self).module.symbols@, final(self).module.symbols@)
                && final(self).module.symbols@.len() <= old(self).module.symbols@.len() + 1
                && (fresh_globals(old(self).module) ==> fresh_globals(final(self).module)),
    {
        let mut i: usize = 0;
        while i < self.module.symbols.len()
            invariant
                i <= self.module.symbols@.len(),
                *self == *old(self),
                module_wf(self.module),
                self.module.symbols@.len() <= 0xffff ==> forall|j: int| 0 <= j < i ==> self.module.symbols@[j]@ != s@,
            decreases self.module.symbols@.len() - i,
        {
            if str_eq(self.module.symbols[i].as_str(), s) && i <= 0xffff {
                proof {
                    if self.module.symbols@.len() <= 0xffff {
                        lemma_sym_index_is(self.module.symbols@, s@, 0, i as int);
                    }
                }
                return i as u16;
            }
            i = i + 1;
        }
        if self.module.symbols.len() > 0xffff {
            return 0xffff;
        }
        let id = self.module.symbols.len() as u16;
        let ghost m0 = self.module;
        let t = s.to_owned();
        proof {
            lemma_sym_index_found(m0.symbols@, s@, 0);
            lemma_sym_of_push(m0.symbols@, t);
        }
        self.module.symbols.push(t);
        self.module.globals.push(None);
        proof {
            lemma_wf_grows(m0, self.module);
        }
        id
    }

    pub fn sym_id(&mut self, s: &str) -> (r: u16)
        requires
            module_wf(old(self).module),
        ensures
            (r as int) < final(self).module.symbols@.len(),
            module_wf(final(self).module),
            grows(old(self).module, final(self).module),
            final(self).module.functions == old(self).module.functions,
            final(self).module.classes == old(self).module.classes,
            final(self).loop_stack == old(self).loop_stack,
    {
        self.intern(s)
    }

    /// The id of the first function with the given name, or of a new empty
    /// function reserved for it.
    pub fn resolve_function_id(&mut self, name: &str) -> (r: usize)
        requires
            module_wf(old(self).module),
            old(self).module.functions@.len() > 0,
        ensures
            r < final(self).module.functions@.len(),
            module_wf(final(self).module),
            grows(old(self).module, final(self).module),
            final(self).module.classes == old(self).module.classes,
            final(self).loop_stack == old(self).loop_stack,
            resolves_function(old(self).module, final(self).module, name@, r as int),
    {
        if str_eq(name, "__main__") {
            return 0;
        }
        let mut i: usize = 0;
        while i < self.module.functions.len()
            invariant
                i <= self.module.functions@.len(),
                *self == *old(self),
                module_wf(self.module),
                name@ != "__main__"@,
                forall|j: int| 0 <= j < i ==> !fn_named(self.module, j, name@),
            decreases self.module.functions@.len() - i,
        {
            let sym = self.module.functions[i].name_sym as usize;
            if sym < self.module.symbols.len() && str_eq(self.module.symbols[sym].as_str(), name) {
                assert(fn_named(self.module, i as int, name@));
                return i;
            }
            i = i + 1;
        }
        let ghost m_before = self.module;
        let name_sym = self.intern(name);
        proof {
            if m_before.symbols@.len() <= 0xffff {
                lemma_sym_index_found(self.module.symbols@, name@, 0);
            }
        }
        let id = self.module.functions.len();
        let ghost m0 = self.module;
        self.module.functions.push(FunctionCode { name_sym, arity: 0, num_locals: 0, code: vec![Instruction::Return] });
        assert(self.module.functions@.drop_last() =~= m0.functions@);
        assert(instr_wf(self.module, self.module.functions@.last().code@[0]));
        proof { lemma_add_function(m0, self.module); }
        assert(self.module.functions@[id as int].code@ =~= seq![Instruction::Return]);
        assert(!(exists|j: int| 0 <= j < old(self).module.functions@.len() && fn_named(old(self).module, j, name@)));
        assert(m_before.symbols@.len() <= 0xffff ==> fn_named(self.module, id as int, name@));
        id
    }
}

/// The code of pure expressions one after another.
pub open spec fn list_code(items: Seq<ExprS>) -> Seq<Instruction>
    decreases items.len(),
{
    if items.len() == 0 { Seq::empty() } else { list_code(items.drop_last()) + postfix_code(items.last()) }
}

/// Whether each key and value is an expression `pure_expr` covers.
pub open spec fn pairs_pure(ps: Seq<(ExprS, ExprS)>) -> bool {
    forall|k: int| 0 <= k < ps.len() ==> pure_expr(#[trigger] ps[k].0) && pure_expr(ps[k].1)
}

/// The code of pure key/value pairs one after another, each key before its
/// value.
pub open spec fn pairs_code(ps: Seq<(ExprS, ExprS)>) -> Seq<Instruction>
    decreases ps.len(),
{
    if ps.len() == 0 {
        Seq::empty()
    } else {
        pairs_code(ps.drop_last()) + postfix_code(ps.last().0) + postfix_code(ps.last().1)
    }
}

/// The code of pure statements one after another.
pub open spec fn block_code(ss: Seq<StmtS>) -> Seq<Instruction>
    decreases ss.len(),
{
    if ss.len() == 0 { Seq::empty() } else { block_code(ss.drop_last()) + stmt_code(ss.last()) }
}

/// Whether `code` is what a function body compiles to: it ends by returning
/// (its first local before that with `returns_self`), and a body of pure
/// statements compiles to their code before that end.
pub open spec fn compiled_body(code: Seq<Instruction>, body: Seq<StmtS>, returns_self: bool) -> bool {
    let tail = if returns_self { seq![Instruction::LoadLocal(0), Instruction::Return] } else { seq![Instruction::Return] };
    &&& code.len() >= tail.len()
    &&& code.subrange(code.len() - tail.len(), code.len() as int) == tail
    &&& (forall|k: int| 0 <= k < body.len() ==> #[trigger] pure_stmt(body[k])) ==> code == block_code(body) + tail
}

/// The names of methods, each once, in the order they first appear.
pub open spec fn method_names(ms: Seq<MethodDef>) -> Seq<Seq<char>>
    decreases ms.len(),
{
    if ms.len() == 0 { Seq::empty() } else { with_name(method_names(ms.drop_last()), ms.last().name@) }
}

/// The names of a method table's entries.
pub open spec fn table_names(t: Seq<(String, u16)>) -> Seq<Seq<char>> {
    t.map_values(|p: (String, u16)| p.0@)
}

/// Whether the `elif` branches are pure: each condition an expression and
/// each block of statements that `pure_expr` / `pure_stmt` cover.
pub open spec fn elifs_pure(es: Seq<(ExprS, Vec<StmtS>)>) -> bool {
    forall|k: int| 0 <= k < es.len() ==> pure_expr(#[trigger] es[k].0)
        && forall|m: int| 0 <= m < es[k].1@.len() ==> #[trigger] pure_stmt(es[k].1@[m])
}

/// The code after emitting pure `elif` branches onto `code`, with the jump
/// at `j` ending the branch before, and the jump that ends the last branch:
/// each branch is its condition, a jump past it when false, its block, and
/// a jump to the end; the jump before is pointed past the new branch's
/// block.
pub open spec fn elifs_emit(code: Seq<Instruction>, es: Seq<(ExprS, Vec<StmtS>)>, j: int) -> (Seq<Instruction>, int)
    decreases es.len(),
{
    if es.len() == 0 {
        (code, j)
    } else {
        let c1 = code + postfix_code(es[0].0);
        let jf = c1.len() as int;
        let c2 = c1.push(Instruction::JumpIfFalse(0)) + block_code(es[0].1@);
        let ja = c2.len() as int;
        let c3 = c2.push(Instruction::Jump(0));
        let c4 = patched(patched(c3, jf, c3.len() as int), j, ja);
        elifs_emit(c4, es.drop_first(), ja)
    }
}

/// Whether function `i` of a module carries the name `name`.
pub open spec fn fn_named(m: Module, i: int, name: Seq<char>) -> bool {
    (m.functions@[i].name_sym as int) < m.symbols@.len() && m.symbols@[m.functions@[i].name_sym as int]@ == name
}

/// What looking a function up by name does, from module `m0` to `m1` with
/// the id `r`: `__main__` is function 0; a name that some function carries
/// gives the first such function; any other name adds an empty function
/// (one `Return`) for it at the end.
pub open spec fn resolves_function(m0: Module, m1: Module, name: Seq<char>, r: int) -> bool {
    if name == "__main__"@ {
        r == 0 && m1 == m0
    } else if exists|i: int| 0 <= i < m0.functions@.len() && fn_named(m0, i, name) {
        &&& 0 <= r < m0.functions@.len()
        &&& fn_named(m0, r, name)
        &&& forall|j: int| 0 <= j < r ==> !fn_named(m0, j, name)
        &&& m1 == m0
    } else {
        &&& r == m0.functions@.len()
        &&& m1.functions@.len() == m0.functions@.len() + 1
        &&& m1.functions@[r].code@ == seq![Instruction::Return]
        &&& m1.functions@[r].arity == 0
        &&& m1.functions@[r].num_locals == 0
        &&& m0.symbols@.len() <= 0xffff ==> fn_named(m1, r, name)
    }
}

/// Adding a function with well-formed code keeps a module well-formed.
proof fn lemma_add_function(m0: Module, m1: Module)
    requires
        module_wf(m0),
        m1.functions@.len() == m0.functions@.len() + 1,
        m1.functions@.drop_last() == m0.functions@,
        code_wf(m1, m1.functions@.last().code@),
        m1.string_pool@.len() >= m0.string_pool@.len(),
        m1.consts@.len() >= m0.consts@.len(),
        table_grows(m0.symbols@, m1.symbols@),
        names_distinct(m0.symbols@) ==> names_distinct(m1.symbols@),
        m0.globals@.len() == m0.symbols@.len() ==> m1.globals@.len() == m1.symbols@.len(),
        m1.classes == m0.classes,
    ensures
        module_wf(m1),
        grows(m0, m1),
{
    assert forall|f: int, k: int| 0 <= f < m1.functions@.len() && 0 <= k < m1.functions@[f].code@.len()
        implies #[trigger] instr_wf(m1, m1.functions@[f].code@[k]) by {
        if f < m0.functions@.len() {
            assert(m1.functions@[f] == m0.functions@[f]);
            assert(instr_wf(m0, m0.functions@[f].code@[k]));
        } else {
            assert(m1.functions@[f] == m1.functions@.last());
        }
    }
    if all_land(m0) {
        assert forall|f: int| 0 <= f < m1.functions@.len() implies #[trigger] jumps_land(m1.functions@[f].code@) by {
            if f < m0.functions@.len() {
                assert(m1.functions@[f] == m0.functions@[f]);
                assert(jumps_land(m0.functions@[f].code@));
            } else {
                assert(m1.functions@[f] == m1.functions@.last());
            }
        }
    }
}

/// Replacing the code of a function by well-formed code keeps a module
/// well-formed.
proof fn lemma_set_function(m0: Module, m1: Module, fid: int)
    requires
        module_wf(m0),
        0 <= fid < m0.functions@.len(),
        m1.functions@.len() == m0.functions@.len(),
        forall|f: int| 0 <= f < m0.functions@.len() && f != fid ==> m1.functions@[f] == m0.functions@[f],
        code_wf(m0, m1.functions@[fid].code@),
        m1.string_pool == m0.string_pool,
        m1.consts == m0.consts,
        m1.symbols == m0.symbols,
        m1.globals == m0.globals,
        m1.classes == m0.classes,
    ensures
        module_wf(m1),
        grows(m0, m1),
        code_wf(m1, m1.functions@[fid].code@),
{
    assert forall|f: int, k: int| 0 <= f < m1.functions@.len() && 0 <= k < m1.functions@[f].code@.len()
        implies #[trigger] instr_wf(m1, m1.functions@[f].code@[k]) by {
        if f != fid {
            assert(instr_wf(m0, m0.functions@[f].code@[k]));
        } else {
            assert(instr_wf(m0, m1.functions@[fid].code@[k]));
        }
    }
    if all_land(m0) {
        assert forall|f: int| 0 <= f < m1.functions@.len() implies #[trigger] jumps_land(m1.functions@[f].code@) by {
            if f != fid {
                assert(jumps_land(m0.functions@[f].code@));
            }
        }
    }
}

/// What every emitting step keeps: the module stays well-formed and only
/// grows, and the code being built refers only to its entries.
pub open spec fn emit_post(m0: Module, m1: Module, code: Seq<Instruction>) -> bool {
    &&& module_wf(m1)
    &&& grows(m0, m1)
    &&& code_wf(m1, code)
    &&& m1.functions@.len() > 0
}

fn small_id(x: usize) -> (r: u16)
    ensures
        r as int <= x,
        r == (if x > 0xffff { 0xffff } else { x }),
{
    if x > 0xffff { 0xffff } else { x as u16 }
}

fn count_u8(x: usize) -> (r: u8)
    ensures
        r == x % 256,
{
    (x % 256) as u8
}

fn lambda_name(id: usize) -> (s: String)
    ensures
        s@ == "<lambda#"@ + crate::text::decimal_digits(id as nat) + ">"@,
{
    let mut s = "<lambda#".to_owned();
    let t = crate::text::u64_to_string(id as u64);
    s.append(t.as_str());
    s.append(">");
    s
}

impl Compiler {
    /// `intern`, keeping the code being built well-formed.
    fn intern_for(&mut self, s: &str, fun: &FunctionCode) -> (r: u16)
        requires
            module_wf(old(self).module),
            code_wf(old(self).module, fun.code@),
            old(self).module.functions@.len() > 0,
        ensures
            (r as int) < final(self).module.symbols@.len(),
            emit_post(old(self).module, final(self).module, fun.code@),
            final(self).loop_stack == old(self).loop_stack,
            final(self).module.functions == old(self).module.functions,
            old(self).module.symbols@.len() <= 0xffff ==> r as int == sym_of(final(self).module.symbols@, s@)
                && table_grows(old(self).module.symbols@, final(self).module.symbols@)
                && final(self).module.symbols@.len() <= old(self).module.symbols@.len() + 1
                && (fresh_globals(old(self).module) ==> fresh_globals(final(self).module)),
    {
        let ghost m0 = self.module;
        let r = self.intern(s);
        proof { lemma_code_grows(m0, self.module, fun.code@); }
        r
    }

    /// The string id of a literal, keeping the code being built well-formed.
    fn string_for(&mut self, s: String, fun: &FunctionCode) -> (r: u32)
        requires
            module_wf(old(self).module),
            code_wf(old(self).module, fun.code@),
            old(self).module.functions@.len() > 0,
        ensures
            (r as int) < final(self).module.string_pool@.len(),
            emit_post(old(self).module, final(self).module, fun.code@),
            final(self).loop_stack == old(self).loop_stack,
    {
        let ghost m0 = self.module;
        let r = get_or_add_string(&mut self.module, s);
        proof { lemma_code_grows(m0, self.module, fun.code@); }
        r
    }

    /// `resolve_function_id`, keeping the code being built well-formed.
    fn function_for(&mut self, name: &str, fun: &FunctionCode) -> (r: usize)
        requires
            module_wf(old(self).module),
            code_wf(old(self).module, fun.code@),
            old(self).module.functions@.len() > 0,
        ensures
            r < final(self).module.functions@.len(),
            emit_post(old(self).module, final(self).module, fun.code@),
            final(self).loop_stack == old(self).loop_stack,
            resolves_function(old(self).module, final(self).module, name@, r as int),
    {
        let ghost m0 = self.module;
        let r = self.resolve_function_id(name);
        proof { lemma_code_grows(m0, self.module, fun.code@); }
        r
    }

    /// Loads a variable: a local slot where the function has one, else the
    /// global.
    fn emit_load_var(&mut self, name: &str, fun: &mut FunctionCode, locals: Option<&Vec<(String, u16)>>)
        requires
            module_wf(old(self).module),
            code_wf(old(self).module, old(fun).code@),
            old(self).module.functions@.len() > 0,
        ensures
            old(fun).code@.len() <= final(fun).code@.len(),
            emit_post(old(self).module, final(self).module, final(fun).code@),
            final(self).loop_stack == old(self).loop_stack,
            locals is None && old(self).module.symbols@.len() <= 0xffff ==>
                final(fun).code@ == old(fun).code@.push(Instruction::LoadGlobal(sym_of(final(self).module.symbols@, name@) as u16))
                && 0 <= sym_of(final(self).module.symbols@, name@) <= 0xffff
                && table_grows(old(self).module.symbols@, final(self).module.symbols@)
                && final(self).module.symbols@.len() <= old(self).module.symbols@.len() + 1
                && (fresh_globals(old(self).module) ==> fresh_globals(final(self).module)),
    {
        let slot = match locals {
            Some(l) => local_slot(l, name),
            None => None,
        };
        match slot {
            Some(ix) => push_ins(fun, Instruction::LoadLocal(ix), Ghost(self.module)),
            None => {
                let gid = self.intern_for(name, fun);
                push_ins(fun, Instruction::LoadGlobal(gid), Ghost(self.module));
            },
        }
    }

    /// Stores into a variable: a local slot where the function has one,
    /// else the global.
    fn emit_store_var(&mut self, name: &str, fun: &mut FunctionCode, locals: Option<&Vec<(String, u16)>>)
        requires
            module_wf(old(self).module),
            code_wf(old(self).module, old(fun).code@),
            old(self).module.functions@.len() > 0,
        ensures
            old(fun).code@.len() <= final(fun).code@.len(),
            emit_post(old(self).module, final(self).module, final(fun).code@),
            final(self).loop_stack == old(self).loop_stack,
            locals is None && old(self).module.symbols@.len() <= 0xffff ==>
                final(fun).code@ == old(fun).code@.push(Instruction::StoreGlobal(sym_of(final(self).module.symbols@, name@) as u16))
                && 0 <= sym_of(final(self).module.symbols@, name@) <= 0xffff
                && table_grows(old(self).module.symbols@, final(self).module.symbols@)
                && final(self).module.symbols@.len() <= old(self).module.symbols@.len() + 1
                && (fresh_globals(old(self).module) ==> fresh_globals(final(self).module)),
    {
        let slot = match locals {
            Some(l) => local_slot(l, name),
            None => None,
        };
        match slot {
            Some(ix) => push_ins(fun, Instruction::StoreLocal(ix), Ghost(self.module)),
            None => {
                let gid = self.intern_for(name, fun);
                push_ins(fun, Instruction::StoreGlobal(gid), Ghost(self.module));
            },
        }
    }

    fn emit_list(&mut self, items: &Vec<ExprS>, fun: &mut FunctionCode, locals: Option<&Vec<(String, u16)>>)
        requires
            module_wf(old(self).module),
            code_wf(old(self).module, old(fun).code@),
            old(self).module.functions@.len() > 0,
        ensures
            old(fun).code@.len() <= final(fun).code@.len(),
            emit_post(old(self).module, final(self).module, final(fun).code@),
            final(self).loop_stack == old(self).loop_stack,
            (forall|k: int| 0 <= k < items@.len() ==> #[trigger] pure_expr(items@[k]))
                ==> final(fun).code@ == old(fun).code@ + list_code(items@),
        decreases items,
    {
        let ghost pure = forall|k: int| 0 <= k < items@.len() ==> #[trigger] pure_expr(items@[k]);
        assert(old(fun).code@ + list_code(items@.subrange(0, 0)) =~= old(fun).code@);
        let mut i: usize = 0;
        while i < items.len()
            invariant
                old(fun).code@.len() <= fun.code@.len(),
                i <= items.len(),
                emit_post(old(self).module, self.module, fun.code@),
                self.loop_stack == old(self).loop_stack,
                pure == (forall|k: int| 0 <= k < items@.len() ==> #[trigger] pure_expr(items@[k])),
                pure ==> fun.code@ == old(fun).code@ + list_code(items@.subrange(0, i as int)),
            decreases items.len() - i,
        {
            let ghost c1 = fun.code@;
            self.emit_expr(&items[i], fun, locals);
            proof {
                let pre = items@.subrange(0, i + 1);
                assert(pre.drop_last() =~= items@.subrange(0, i as int));
                assert(pre.last() == items@[i as int]);
                if pure {
                    assert(pure_expr(items@[i as int]));
                    assert(fun.code@ =~= old(fun).code@ + list_code(pre));
                }
            }
            i = i + 1;
        }
        assert(items@.subrange(0, i as int) =~= items@);
    }

    fn emit_pairs(&mut self, pairs: &Vec<(ExprS, ExprS)>, fun: &mut FunctionCode, locals: Option<&Vec<(String, u16)>>)
        requires
            module_wf(old(self).module),
            code_wf(old(self).module, old(fun).code@),
            old(self).module.functions@.len() > 0,
        ensures
            old(fun).code@.len() <= final(fun).code@.len(),
            emit_post(old(self).module, final(self).module, final(fun).code@),
            final(self).loop_stack == old(self).loop_stack,
            pairs_pure(pairs@)
                ==> final(fun).code@ == old(fun).code@ + pairs_code(pairs@),
        decreases pairs,
    {
        let ghost pure = pairs_pure(pairs@);
        assert(old(fun).code@ + pairs_code(pairs@.subrange(0, 0)) =~= old(fun).code@);
        let mut i: usize = 0;
        while i < pairs.len()
            invariant
                old(fun).code@.len() <= fun.code@.len(),
                i <= pairs.len(),
                emit_post(old(self).module, self.module, fun.code@),
                self.loop_stack == old(self).loop_stack,
                pure == pairs_pure(pairs@),
                pure ==> fun.code@ == old(fun).code@ + pairs_code(pairs@.subrange(0, i as int)),
            decreases pairs.len() - i,
        {
            let ghost c1 = fun.code@;
            self.emit_expr(&pairs[i].0, fun, locals);
            self.emit_expr(&pairs[i].1, fun, locals);
            proof {
                let pre = pairs@.subrange(0, i + 1);
                assert(pre.drop_last() =~= pairs@.subrange(0, i as int));
                assert(pre.last() == pairs@[i as int]);
                if pure {
                    assert(pure_expr(pairs@[i as int].0) && pure_expr(pairs@[i as int].1));
                    assert(fun.code@ =~= old(fun).code@ + pairs_code(pre));
                }
            }
            i = i + 1;
        }
        assert(pairs@.subrange(0, i as int) =~= pairs@);
    }

    /// Whether a class of that name has been compiled.
    fn is_class(&self, name: &str) -> (r: bool)
        ensures
            r == exists|c: int| 0 <= c < self.module.classes@.len() && (#[trigger] self.module.classes@[c]).name@ == name@,
    {
        let mut i: usize = 0;
        while i < self.module.classes.len()
            invariant
                i <= self.module.classes@.len(),
                forall|c: int| 0 <= c < i ==> (#[trigger] self.module.classes@[c]).name@ != name@,
            decreases self.module.classes@.len() - i,
        {
            if str_eq(self.module.classes[i].name.as_str(), name) {
                return true;
            }
            i = i + 1;
        }
        false
    }

    /// Whether a function defined by `def` (not a lambda) has that name.
    fn is_def_function(&self, name: &str) -> (r: bool)
        ensures
            r == exists|f: int| 0 <= f < self.module.functions@.len() && #[trigger] fn_named(self.module, f, name@)
                && !crate::vm::native::occurs_at(name@, "<lambda#"@, 0),
    {
        let mut i: usize = 0;
        while i < self.module.functions.len()
            invariant
                i <= self.module.functions@.len(),
                forall|f: int| 0 <= f < i ==> !(#[trigger] fn_named(self.module, f, name@)
                    && !crate::vm::native::occurs_at(name@, "<lambda#"@, 0)),
            decreases self.module.functions@.len() - i,
        {
            let sym = self.module.functions[i].name_sym as usize;
            if sym < self.module.symbols.len() {
                let s = self.module.symbols[sym].as_str();
                if str_eq(s, name) && !crate::vm::native::starts_with(s, "<lambda#") {
                    assert(fn_named(self.module, i as int, name@));
                    return true;
                }
            }
            i = i + 1;
        }
        false
    }

    /// Compiles an expression that leaves its value on the stack.
    #[verifier::spinoff_prover]
    #[verifier::rlimit(60)]
    pub fn emit_expr(&mut self, expr: &ExprS, fun: &mut FunctionCode, locals: Option<&Vec<(String, u16)>>)
        requires
            module_wf(old(self).module),
            code_wf(old(self).module, old(fun).code@),
            old(self).module.functions@.len() > 0,
        ensures
            old(fun).code@.len() <= final(fun).code@.len(),
            emit_post(old(self).module, final(self).module, final(fun).code@),
            final(self).loop_stack == old(self).loop_stack,
            pure_expr(*expr) ==> final(fun).code@ == old(fun).code@ + postfix_code(*expr),
            expr.0 matches Expr::Binary { op, left, right } ==> ((op == BinaryOp::And || op == BinaryOp::Or)
                && pure_expr(*left) && pure_expr(*right) ==> final(fun).code@ == old(fun).code@
                    + short_circuit_code(op == BinaryOp::And, postfix_code(*left), postfix_code(*right))),
            locals is None && var_expr(*expr) && old(self).module.symbols@.len() + names_count(*expr) <= 0xffff ==> (
                final(fun).code@ == old(fun).code@ + var_code(*expr, final(self).module.symbols@)
                && names_known(*expr, final(self).module.symbols@)
                && table_grows(old(self).module.symbols@, final(self).module.symbols@)
                && final(self).module.symbols@.len() <= old(self).module.symbols@.len() + names_count(*expr)
                && (fresh_globals(old(self).module) ==> fresh_globals(final(self).module))),
        decreases expr,
    {
        let ghost c0 = fun.code@;
        let ghost syms0 = self.module.symbols@;
        match &expr.0 {
            Expr::Literal(Literal::Int(i)) => {
                push_ins(fun, Instruction::ConstI64(*i), Ghost(self.module));
                assert(fun.code@ =~= c0 + postfix_code(*expr));
            },
            Expr::Literal(Literal::Float(t)) => push_ins(fun, Instruction::ConstF64(t.clone()), Ghost(self.module)),
            Expr::Literal(Literal::Bool(b)) => {
                if *b {
                    push_ins(fun, Instruction::True, Ghost(self.module));
                } else {
                    push_ins(fun, Instruction::False, Ghost(self.module));
                }
                assert(fun.code@ =~= c0 + postfix_code(*expr));
            },
            Expr::Literal(Literal::String(t)) => {
                let id = self.string_for(t.clone(), fun);
                push_ins(fun, Instruction::ConstStr(id), Ghost(self.module));
            },
            Expr::Literal(Literal::NoneLit) => {
                push_ins(fun, Instruction::PushNone, Ghost(self.module));
                assert(fun.code@ =~= c0 + postfix_code(*expr));
            },
            Expr::Variable(name) => self.emit_load_var(name.as_str(), fun, locals),
            Expr::Unary { op, expr: inner } => {
                self.emit_expr(inner, fun, locals);
                let ghost c1 = fun.code@;
                assert(locals is None && var_expr(*expr) && syms0.len() + names_count(*expr) <= 0xffff
                    ==> c1 == c0 + var_code(**inner, self.module.symbols@));
                let ins = match op {
                    UnaryOp::Not => Instruction::Not,
                    UnaryOp::Negate => Instruction::Neg,
                    UnaryOp::Pos => Instruction::Pos,
                };
                push_ins(fun, ins, Ghost(self.module));
                proof {
                    if pure_expr(*expr) {
                        assert(c1 == c0 + postfix_code(**inner));
                        assert(fun.code@ =~= c0 + postfix_code(*expr));
                    }
                }
            },
            Expr::Binary { op, left, right } => {
                match op {
                    BinaryOp::And | BinaryOp::Or => {
                        let is_and = matches!(op, BinaryOp::And);
                        self.emit_expr(left, fun, locals);
                        let ghost c1 = fun.code@;
                        let j_first = fun.code.len();
                        push_ins(fun, if is_and { Instruction::JumpIfFalse(0) } else { Instruction::JumpIfTrue(0) }, Ghost(self.module));
                        self.emit_expr(right, fun, locals);
                        let ghost c2 = fun.code@;
                        let j_end = fun.code.len();
                        push_ins(fun, Instruction::Jump(0), Ghost(self.module));
                        let l_short = fun.code.len();
                        patch_fun(fun, j_first, l_short, Ghost(self.module));
                        push_ins(fun, if is_and { Instruction::False } else { Instruction::True }, Ghost(self.module));
                        let l_end = fun.code.len();
                        patch_fun(fun, j_end, l_end, Ghost(self.module));
                        proof {
                            if pure_expr(**left) && pure_expr(**right) {
                                let l = postfix_code(**left);
                                let r = postfix_code(**right);
                                assert(c1 == c0 + l);
                                assert(c2 == c1.push(if is_and { Instruction::JumpIfFalse(0) } else { Instruction::JumpIfTrue(0) }) + r);
                                assert(fun.code@ =~= c0 + short_circuit_code(is_and, l, r));
                            }
                        }
                    },
                    _ => {
                        self.emit_expr(left, fun, locals);
                        let ghost c1 = fun.code@;
                        let ghost syms1 = self.module.symbols@;
                        self.emit_expr(right, fun, locals);
                        let ghost c2 = fun.code@;
                        proof {
                            if locals is None && var_expr(*expr) && syms0.len() + names_count(*expr) <= 0xffff {
                                lemma_var_code_prefix(**left, syms1, self.module.symbols@);
                            }
                        }
                        let ins = match op {
                            BinaryOp::Add => Instruction::Add,
                            BinaryOp::Subtract => Instruction::Sub,
                            BinaryOp::Multiply => Instruction::Mul,
                            BinaryOp::Divide => Instruction::TrueDiv,
                            BinaryOp::FloorDivide => Instruction::Div,
                            BinaryOp::Modulo => Instruction::Mod,
                            BinaryOp::Equal => Instruction::Eq,
                            BinaryOp::NotEqual => Instruction::Ne,
                            BinaryOp::Less => Instruction::Lt,
                            BinaryOp::LessEqual => Instruction::Le,
                            BinaryOp::Greater => Instruction::Gt,
                            _ => Instruction::Ge,
                        };
                        push_ins(fun, ins, Ghost(self.module));
                        proof {
                            if pure_expr(*expr) {
                                assert(ins == binary_instr(*op));
                                assert(c2 == c0 + postfix_code(**left) + postfix_code(**right));
                                assert(fun.code@ =~= c0 + postfix_code(*expr));
                            }
                        }
                    },
                }
            },
            Expr::Call { func_name, args } => {
                match &func_name.0 {
                    Expr::Attribute { object, attr } => {
                        self.emit_expr(object, fun, locals);
                        self.emit_list(args, fun, locals);
                        let sym = self.intern_for(attr.as_str(), fun);
                        push_ins(fun, Instruction::CallMethod(sym, count_u8(args.len())), Ghost(self.module));
                        return;
                    },
                    Expr::Variable(name) => {
                        match builtin_id(name.as_str()) {
                            Some(bid) => {
                                self.emit_list(args, fun, locals);
                                push_ins(fun, Instruction::CallBuiltin(bid, count_u8(args.len())), Ghost(self.module));
                                return;
                            },
                            None => {},
                        }
                        if !self.is_class(name.as_str()) && self.is_def_function(name.as_str()) {
                            let fid = self.function_for(name.as_str(), fun);
                            self.emit_list(args, fun, locals);
                            let id = small_id(fid);
                            push_ins(fun, Instruction::Call(id, count_u8(args.len())), Ghost(self.module));
                            return;
                        }
                    },
                    _ => {},
                }
                self.emit_expr(func_name, fun, locals);
                self.emit_list(args, fun, locals);
                push_ins(fun, Instruction::CallValue(count_u8(args.len())), Ghost(self.module));
            },
            Expr::Attribute { object, attr } => {
                self.emit_expr(object, fun, locals);
                let sym = self.intern_for(attr.as_str(), fun);
                push_ins(fun, Instruction::LoadAttr(sym), Ghost(self.module));
            },
            Expr::List(items) => {
                self.emit_list(items, fun, locals);
                push_ins(fun, Instruction::BuildList(small_id(items.len())), Ghost(self.module));
            },
            Expr::Dict(pairs) => {
                self.emit_pairs(pairs, fun, locals);
                push_ins(fun, Instruction::BuildDict(small_id(pairs.len())), Ghost(self.module));
            },
            Expr::Index { object, index } => {
                self.emit_expr(object, fun, locals);
                self.emit_expr(index, fun, locals);
                push_ins(fun, Instruction::LoadIndex, Ghost(self.module));
            },
            Expr::Lambda { params, body } => {
                let name = lambda_name(self.module.functions.len());
                let name_sym = self.intern_for(name.as_str(), fun);
                let free_vars = collect_free_vars(body, params, locals);
                let mut lambda_locals: Vec<(String, u16)> = Vec::new();
                let mut i: usize = 0;
                while i < params.len()
                    invariant
                        old(fun).code@.len() <= fun.code@.len(),
                        i <= params.len(),
                    decreases params.len() - i,
                {
                    lambda_locals.push((params[i].clone(), small_id(i)));
                    i = i + 1;
                }
                let offset = params.len();
                let mut j: usize = 0;
                while j < free_vars.len()
                    invariant
                        old(fun).code@.len() <= fun.code@.len(),
                        j <= free_vars.len(),
                    decreases free_vars.len() - j,
                {
                    let slot = if j <= 0xffff && offset <= 0xffff - j { small_id(offset + j) } else { 0xffff };
                    lambda_locals.push((free_vars[j].clone(), slot));
                    j = j + 1;
                }
                let num_locals = if free_vars.len() <= 0xffff && params.len() <= 0xffff - free_vars.len() {
                    small_id(params.len() + free_vars.len())
                } else {
                    0xffff
                };
                let arity = count_u8(params.len());
                let fid = self.module.functions.len();
                let ghost m0 = self.module;
                self.module.functions.push(FunctionCode { name_sym, arity, num_locals, code: vec![Instruction::Return] });
                assert(self.module.functions@.drop_last() =~= m0.functions@);
                assert(instr_wf(self.module, self.module.functions@.last().code@[0]));
                proof {
                    lemma_add_function(m0, self.module);
                    lemma_code_grows(m0, self.module, fun.code@);
                }
                let mut lambda_fun = FunctionCode { name_sym, arity, num_locals, code: Vec::new() };
                let ghost m1 = self.module;
                self.emit_expr(body, &mut lambda_fun, Some(&lambda_locals));
                push_ins(&mut lambda_fun, Instruction::Return, Ghost(self.module));
                let ghost m2 = self.module;
                let ghost lcode = lambda_fun.code@;
                proof { lemma_code_grows(m1, m2, fun.code@); }
                self.module.functions.set(fid, lambda_fun);
                proof {
                    assert(self.module.functions@[fid as int].code@ == lcode);
                    lemma_set_function(m2, self.module, fid as int);
                    lemma_code_grows(m2, self.module, lcode);
                    lemma_code_grows(m2, self.module, fun.code@);
                }
                let mut k: usize = 0;
                while k < free_vars.len()
                    invariant
                        old(fun).code@.len() <= fun.code@.len(),
                        k <= free_vars.len(),
                        emit_post(old(self).module, self.module, fun.code@),
                        fid < self.module.functions@.len(),
                        self.loop_stack == old(self).loop_stack,
                    decreases free_vars.len() - k,
                {
                    let slot = match locals {
                        Some(l) => local_slot(l, free_vars[k].as_str()),
                        None => None,
                    };
                    match slot {
                        Some(ix) => push_ins(fun, Instruction::LoadLocal(ix), Ghost(self.module)),
                        None => {},
                    }
                    k = k + 1;
                }
                push_ins(fun, Instruction::MakeClosure(small_id(fid), count_u8(free_vars.len())), Ghost(self.module));
            },
            Expr::Tuple(items) => {
                self.emit_list(items, fun, locals);
                push_ins(fun, Instruction::BuildList(small_id(items.len())), Ghost(self.module));
            },
            Expr::SetLit(items) => {
                self.emit_list(items, fun, locals);
                push_ins(fun, Instruction::BuildList(small_id(items.len())), Ghost(self.module));
            },
            Expr::TreeSet(items) => {
                self.emit_list(items, fun, locals);
                push_ins(fun, Instruction::BuildList(small_id(items.len())), Ghost(self.module));
            },
        }
    }
}

fn for_iter_name(pos: usize) -> (s: String)
    ensures
        s@ == "__for_iter_"@ + crate::text::decimal_digits(pos as nat) + "__"@,
{
    let mut s = "__for_iter_".to_owned();
    let t = crate::text::u64_to_string(pos as u64);
    s.append(t.as_str());
    s.append("__");
    s
}

/// Adding a class whose methods are functions of the module keeps it
/// well-formed.
#[verifier::spinoff_prover]
proof fn lemma_set_class(m0: Module, m1: Module, cid: int)
    requires
        module_wf(m0),
        0 <= cid < m1.classes@.len(),
        m1.classes@.len() == m0.classes@.len() || (m1.classes@.len() == m0.classes@.len() + 1 && cid == m0.classes@.len()),
        forall|c: int| 0 <= c < m0.classes@.len() && c != cid ==> m1.classes@[c] == m0.classes@[c],
        forall|j: int| 0 <= j < m1.classes@[cid].methods@.len() ==> (#[trigger] m1.classes@[cid].methods@[j]).1 < m1.functions@.len(),
        m1.functions == m0.functions,
        grows(m0, m1),
    ensures
        module_wf(m1),
{
    assert forall|f: int, k: int| 0 <= f < m1.functions@.len() && 0 <= k < m1.functions@[f].code@.len()
        implies #[trigger] instr_wf(m1, m1.functions@[f].code@[k]) by {
        assert(instr_wf(m0, m0.functions@[f].code@[k]));
    }
    assert forall|c: int, j: int| 0 <= c < m1.classes@.len() && 0 <= j < m1.classes@[c].methods@.len()
        implies (#[trigger] m1.classes@[c].methods@[j]).1 < m1.functions@.len() by {
        if c != cid {
            assert(m1.classes@[c] == m0.classes@[c]);
            assert(m1.classes@[c].methods@[j] == m0.classes@[c].methods@[j]);
            assert(m0.classes@[c].methods@[j].1 < m0.functions@.len());
        }
    }
}

impl Compiler {
    fn emit_block(&mut self, block: &Vec<StmtS>, fun: &mut FunctionCode, locals: Option<&Vec<(String, u16)>>)
        requires
            module_wf(old(self).module),
            code_wf(old(self).module, old(fun).code@),
            old(self).module.functions@.len() > 0,
        ensures
            old(fun).code@.len() <= final(fun).code@.len(),
            emit_post(old(self).module, final(self).module, final(fun).code@),
            final(self).loop_stack@.len() == old(self).loop_stack@.len(),
            (forall|k: int| 0 <= k < block@.len() ==> #[trigger] pure_stmt(block@[k]))
                ==> final(fun).code@ == old(fun).code@ + block_code(block@),
        decreases block,
    {
        let ghost pure = forall|k: int| 0 <= k < block@.len() ==> #[trigger] pure_stmt(block@[k]);
        assert(old(fun).code@ + block_code(block@.subrange(0, 0)) =~= old(fun).code@);
        let mut i: usize = 0;
        while i < block.len()
            invariant
                old(fun).code@.len() <= fun.code@.len(),
                i <= block.len(),
                emit_post(old(self).module, self.module, fun.code@),
                self.loop_stack@.len() == old(self).loop_stack@.len(),
                pure == (forall|k: int| 0 <= k < block@.len() ==> #[trigger] pure_stmt(block@[k])),
                pure ==> fun.code@ == old(fun).code@ + block_code(block@.subrange(0, i as int)),
            decreases block.len() - i,
        {
            let ghost c1 = fun.code@;
            self.emit_stmt(&block[i], fun, locals);
            proof {
                let pre = block@.subrange(0, i + 1);
                assert(pre.drop_last() =~= block@.subrange(0, i as int));
                assert(pre.last() == block@[i as int]);
                if pure {
                    assert(pure_stmt(block@[i as int]));
                    assert(fun.code@ =~= old(fun).code@ + block_code(pre));
                }
            }
            i = i + 1;
        }
        assert(block@.subrange(0, i as int) =~= block@);
    }

    /// The `elif` branches of an `if`: each jumps past the rest when taken;
    /// `j_end` is the jump that ends the branch before. Returns the last
    /// such jump.
    fn emit_elifs(&mut self, elifs: &Vec<(ExprS, Vec<StmtS>)>, fun: &mut FunctionCode, locals: Option<&Vec<(String, u16)>>, j_end: usize) -> (r: usize)
        requires
            module_wf(old(self).module),
            code_wf(old(self).module, old(fun).code@),
            old(self).module.functions@.len() > 0,
        ensures
            old(fun).code@.len() <= final(fun).code@.len(),
            emit_post(old(self).module, final(self).module, final(fun).code@),
            final(self).loop_stack@.len() == old(self).loop_stack@.len(),
            elifs@.len() == 0 ==> r == j_end && final(fun).code@ == old(fun).code@,
            elifs_pure(elifs@) ==> elifs_emit(old(fun).code@, elifs@, j_end as int) == (final(fun).code@, r as int),
        decreases elifs,
    {
        let ghost pure = elifs_pure(elifs@);
        assert(elifs@.subrange(0, elifs@.len() as int) =~= elifs@);
        let mut j_end_acc = j_end;
        let mut i: usize = 0;
        while i < elifs.len()
            invariant
                old(fun).code@.len() <= fun.code@.len(),
                i <= elifs.len(),
                emit_post(old(self).module, self.module, fun.code@),
                self.loop_stack@.len() == old(self).loop_stack@.len(),
                i == 0 ==> j_end_acc == j_end && fun.code@ == old(fun).code@,
                pure == elifs_pure(elifs@),
                pure ==> elifs_emit(old(fun).code@, elifs@, j_end as int)
                    == elifs_emit(fun.code@, elifs@.subrange(i as int, elifs@.len() as int), j_end_acc as int),
            decreases elifs.len() - i,
        {
            let ghost sub = elifs@.subrange(i as int, elifs@.len() as int);
            let ghost c0 = fun.code@;
            proof {
                assert(sub.drop_first() =~= elifs@.subrange(i + 1, elifs@.len() as int));
                assert(sub[0] == elifs@[i as int]);
            }
            self.emit_expr(&elifs[i].0, fun, locals);
            let j_elif_false = fun.code.len();
            push_ins(fun, Instruction::JumpIfFalse(0), Ghost(self.module));
            self.emit_block(&elifs[i].1, fun, locals);
            let j_after_elif = fun.code.len();
            push_ins(fun, Instruction::Jump(0), Ghost(self.module));
            let after_elif_start = fun.code.len();
            patch_fun(fun, j_elif_false, after_elif_start, Ghost(self.module));
            patch_fun(fun, j_end_acc, j_after_elif, Ghost(self.module));
            proof {
                if pure {
                    assert(pure_expr(elifs@[i as int].0));
                    assert forall|m: int| 0 <= m < elifs@[i as int].1@.len() implies #[trigger] pure_stmt(elifs@[i as int].1@[m]) by {
                        assert(pure_expr(elifs@[i as int].0)
                            && forall|m2: int| 0 <= m2 < elifs@[i as int].1@.len() ==> #[trigger] pure_stmt(elifs@[i as int].1@[m2]));
                    }
                }
            }
            j_end_acc = j_after_elif;
            i = i + 1;
        }
        j_end_acc
    }

    /// Points the jumps that a loop collected at its end and its start.
    fn patch_loop(&mut self, fun: &mut FunctionCode, ctx: &LoopContext, start: usize, end: usize)
        requires
            code_wf(old(self).module, old(fun).code@),
            start <= end <= old(fun).code@.len(),
        ensures
            final(fun).code@.len() == old(fun).code@.len(),
            code_wf(final(self).module, final(fun).code@),
            *final(self) == *old(self),
            final(fun).code@ == patched_all(patched_all(old(fun).code@, ctx.break_jumps@, end as int),
                ctx.continue_jumps@, start as int),
            final(fun).name_sym == old(fun).name_sym,
            final(fun).arity == old(fun).arity,
            final(fun).num_locals == old(fun).num_locals,
    {
        let ghost c0 = fun.code@;
        assert(ctx.break_jumps@.subrange(0, 0) =~= Seq::<usize>::empty());
        let mut b: usize = 0;
        while b < ctx.break_jumps.len()
            invariant
                b <= ctx.break_jumps.len(),
                code_wf(self.module, fun.code@),
                *self == *old(self),
                fun.code@.len() == old(fun).code@.len(),
                start <= end <= fun.code@.len(),
                fun.code@ == patched_all(c0, ctx.break_jumps@.subrange(0, b as int), end as int),
                fun.name_sym == old(fun).name_sym,
                fun.arity == old(fun).arity,
                fun.num_locals == old(fun).num_locals,
            decreases ctx.break_jumps.len() - b,
        {
            patch_fun(fun, ctx.break_jumps[b], end, Ghost(self.module));
            assert(ctx.break_jumps@.subrange(0, b + 1).drop_last() =~= ctx.break_jumps@.subrange(0, b as int));
            b = b + 1;
        }
        assert(ctx.break_jumps@.subrange(0, b as int) =~= ctx.break_jumps@);
        let ghost c1 = fun.code@;
        assert(ctx.continue_jumps@.subrange(0, 0) =~= Seq::<usize>::empty());
        let mut c: usize = 0;
        while c < ctx.continue_jumps.len()
            invariant
                c <= ctx.continue_jumps.len(),
                code_wf(self.module, fun.code@),
                *self == *old(self),
                fun.code@.len() == old(fun).code@.len(),
                start <= end <= fun.code@.len(),
                fun.code@ == patched_all(c1, ctx.continue_jumps@.subrange(0, c as int), start as int),
                fun.name_sym == old(fun).name_sym,
                fun.arity == old(fun).arity,
                fun.num_locals == old(fun).num_locals,
            decreases ctx.continue_jumps.len() - c,
        {
            patch_fun(fun, ctx.continue_jumps[c], start, Ghost(self.module));
            assert(ctx.continue_jumps@.subrange(0, c + 1).drop_last() =~= ctx.continue_jumps@.subrange(0, c as int));
            c = c + 1;
        }
        assert(ctx.continue_jumps@.subrange(0, c as int) =~= ctx.continue_jumps@);
    }

    /// Records a `break` or `continue` jump of the innermost loop.
    fn record_loop_jump(&mut self, fun: &mut FunctionCode, is_break: bool)
        requires
            module_wf(old(self).module),
            code_wf(old(self).module, old(fun).code@),
            old(self).module.functions@.len() > 0,
        ensures
            old(fun).code@.len() <= final(fun).code@.len(),
            emit_post(old(self).module, final(self).module, final(fun).code@),
            final(self).loop_stack@.len() == old(self).loop_stack@.len(),
            final(self).module == old(self).module,
            old(self).loop_stack@.len() == 0 ==> final(fun).code@ == old(fun).code@
                && final(self).loop_stack@ == old(self).loop_stack@,
            old(self).loop_stack@.len() > 0 ==> final(fun).code@ == old(fun).code@.push(Instruction::Jump(0))
                && final(self).loop_stack@.drop_last() == old(self).loop_stack@.drop_last()
                && final(self).loop_stack@.last().break_jumps@ == (if is_break {
                    old(self).loop_stack@.last().break_jumps@.push(old(fun).code@.len() as usize)
                } else {
                    old(self).loop_stack@.last().break_jumps@
                })
                && final(self).loop_stack@.last().continue_jumps@ == (if is_break {
                    old(self).loop_stack@.last().continue_jumps@
                } else {
                    old(self).loop_stack@.last().continue_jumps@.push(old(fun).code@.len() as usize)
                }),
    {
        if self.loop_stack.len() > 0 {
            let mut ctx = self.loop_stack.pop().unwrap();
            if is_break {
                ctx.break_jumps.push(fun.code.len());
            } else {
                ctx.continue_jumps.push(fun.code.len());
            }
            self.loop_stack.push(ctx);
            push_ins(fun, Instruction::Jump(0), Ghost(self.module));
        }
    }

    /// Compiles one statement.
    pub fn emit_stmt(&mut self, stmt: &StmtS, fun: &mut FunctionCode, locals: Option<&Vec<(String, u16)>>)
        requires
            module_wf(old(self).module),
            code_wf(old(self).module, old(fun).code@),
            old(self).module.functions@.len() > 0,
        ensures
            old(fun).code@.len() <= final(fun).code@.len(),
            emit_post(old(self).module, final(self).module, final(fun).code@),
            final(self).loop_stack@.len() == old(self).loop_stack@.len(),
            (stmt.0 is Continue || stmt.0 is Break) && old(self).loop_stack@.len() > 0 ==> ({
                let pos = old(fun).code@.len() as usize;
                let before = old(self).loop_stack@.last();
                let after = final(self).loop_stack@.last();
                &&& final(fun).code@ == old(fun).code@.push(Instruction::Jump(0))
                &&& final(self).loop_stack@.drop_last() == old(self).loop_stack@.drop_last()
                &&& stmt.0 is Continue ==> after.continue_jumps@ == before.continue_jumps@.push(pos)
                    && after.break_jumps@ == before.break_jumps@
                &&& stmt.0 is Break ==> after.break_jumps@ == before.break_jumps@.push(pos)
                    && after.continue_jumps@ == before.continue_jumps@
            }),
            pure_stmt(*stmt) ==> final(fun).code@ == old(fun).code@ + stmt_code(*stmt),
            locals is None && var_stmt(*stmt) && old(self).module.symbols@.len() + stmt_names_count(*stmt) <= 0xffff ==> (
                final(fun).code@ == old(fun).code@ + var_stmt_code(*stmt, final(self).module.symbols@)
                && stmt_names_known(*stmt, final(self).module.symbols@)
                && table_grows(old(self).module.symbols@, final(self).module.symbols@)
                && final(self).module.symbols@.len() <= old(self).module.symbols@.len() + stmt_names_count(*stmt)
                && (fresh_globals(old(self).module) ==> fresh_globals(final(self).module))),
        decreases stmt,
    {
        let ghost c0 = fun.code@;
        let ghost syms0 = self.module.symbols@;
        match &stmt.0 {
            Stmt::Break => self.record_loop_jump(fun, true),
            Stmt::Continue => self.record_loop_jump(fun, false),
            Stmt::Pass => {},
            Stmt::Assign { target, value } => {
                match &target.0 {
                    Expr::Variable(name) => {
                        self.emit_expr(value, fun, locals);
                        let ghost syms1 = self.module.symbols@;
                        self.emit_store_var(name.as_str(), fun, locals);
                        proof {
                            if locals is None && var_stmt(*stmt) && syms0.len() + stmt_names_count(*stmt) <= 0xffff {
                                lemma_var_code_prefix(*value, syms1, self.module.symbols@);
                            }
                        }
                    },
                    Expr::Attribute { object, attr } => {
                        self.emit_expr(object, fun, locals);
                        self.emit_expr(value, fun, locals);
                        let sym = self.intern_for(attr.as_str(), fun);
                        push_ins(fun, Instruction::StoreAttr(sym), Ghost(self.module));
                    },
                    Expr::Index { object, index } => {
                        self.emit_expr(object, fun, locals);
                        self.emit_expr(index, fun, locals);
                        self.emit_expr(value, fun, locals);
                        push_ins(fun, Instruction::StoreIndex, Ghost(self.module));
                    },
                    _ => {},
                }
            },
            Stmt::Expr(e) => {
                self.emit_expr(e, fun, locals);
                push_ins(fun, Instruction::Pop, Ghost(self.module));
                proof {
                    if pure_stmt(*stmt) {
                        assert(fun.code@ =~= c0 + stmt_code(*stmt));
                    }
                }
            },
            Stmt::Return(e) => {
                self.emit_expr(e, fun, locals);
                push_ins(fun, Instruction::Return, Ghost(self.module));
            },
            Stmt::If { condition, then_block, elif_blocks, else_block } => {
                self.emit_expr(condition, fun, locals);
                let j_if_false = fun.code.len();
                push_ins(fun, Instruction::JumpIfFalse(0), Ghost(self.module));
                self.emit_block(then_block, fun, locals);
                let j_end = fun.code.len();
                push_ins(fun, Instruction::Jump(0), Ghost(self.module));
                let else_start = fun.code.len();
                patch_fun(fun, j_if_false, else_start, Ghost(self.module));
                let j_end_acc = self.emit_elifs(elif_blocks, fun, locals, j_end);
                match else_block {
                    Some(block) => self.emit_block(block, fun, locals),
                    None => {},
                }
                let end = fun.code.len();
                patch_fun(fun, j_end_acc, end, Ghost(self.module));
            },
            Stmt::While { condition, body } => {
                self.loop_stack.push(LoopContext::new());
                let loop_start = fun.code.len();
                self.emit_expr(condition, fun, locals);
                let j_break = fun.code.len();
                push_ins(fun, Instruction::JumpIfFalse(0), Ghost(self.module));
                self.emit_block(body, fun, locals);
                let cur = fun.code.len();
                proof { lemma_rel_lands(loop_start as int, cur as int, cur + 1); }
                push_ins(fun, Instruction::Jump(rel(loop_start, cur)), Ghost(self.module));
                let end = fun.code.len();
                patch_fun(fun, j_break, end, Ghost(self.module));
                let ctx = self.loop_stack.pop().unwrap();
                self.patch_loop(fun, &ctx, loop_start, end);
            },
            Stmt::For { var, iterable, body } => {
                self.loop_stack.push(LoopContext::new());
                self.emit_expr(iterable, fun, locals);
                let iter_method = self.intern_for("__iter__", fun);
                push_ins(fun, Instruction::CallMethod(iter_method, 0), Ghost(self.module));
                let temp_name = for_iter_name(fun.code.len());
                let temp_sym = self.intern_for(temp_name.as_str(), fun);
                push_ins(fun, Instruction::StoreGlobal(temp_sym), Ghost(self.module));
                let loop_start = fun.code.len();
                push_ins(fun, Instruction::LoadGlobal(temp_sym), Ghost(self.module));
                let has_next = self.intern_for("__has_next__", fun);
                push_ins(fun, Instruction::CallMethod(has_next, 0), Ghost(self.module));
                let j_break = fun.code.len();
                push_ins(fun, Instruction::JumpIfFalse(0), Ghost(self.module));
                push_ins(fun, Instruction::LoadGlobal(temp_sym), Ghost(self.module));
                let next_method = self.intern_for("__next__", fun);
                push_ins(fun, Instruction::CallMethod(next_method, 0), Ghost(self.module));
                self.emit_store_var(var.as_str(), fun, locals);
                self.emit_block(body, fun, locals);
                let cur = fun.code.len();
                proof { lemma_rel_lands(loop_start as int, cur as int, cur + 1); }
                push_ins(fun, Instruction::Jump(rel(loop_start, cur)), Ghost(self.module));
                let end = fun.code.len();
                patch_fun(fun, j_break, end, Ghost(self.module));
                let ctx = self.loop_stack.pop().unwrap();
                self.patch_loop(fun, &ctx, loop_start, end);
            },
            Stmt::Def { name, params, body } => {
                let name_sym = self.intern_for(name.as_str(), fun);
                let _ = self.compile_function(name_sym, params, body, false, fun);
            },
            Stmt::Class { name, methods, .. } => {
                let class_id = self.module.classes.len();
                let ghost m0 = self.module;
                self.module.classes.push(ClassDef { name: name.clone(), methods: Vec::new() });
                proof {
                    lemma_set_class(m0, self.module, class_id as int);
                    lemma_code_grows(m0, self.module, fun.code@);
                }
                let method_map = self.compile_methods(methods, fun);
                if class_id < self.module.classes.len() {
                    let ghost m1 = self.module;
                    self.module.classes.set(class_id, ClassDef { name: name.clone(), methods: method_map });
                    proof {
                        lemma_set_class(m1, self.module, class_id as int);
                        lemma_code_grows(m1, self.module, fun.code@);
                    }
                }
                let name_sym = self.intern_for(name.as_str(), fun);
                let const_id = self.module.consts.len();
                let ghost m2 = self.module;
                self.module.consts.push(Value::Class(small_id(class_id)));
                proof {
                    lemma_wf_grows(m2, self.module);
                    lemma_code_grows(m2, self.module, fun.code@);
                }
                if const_id <= 0xffff_ffff {
                    push_ins(fun, Instruction::LoadConst(const_id as u32), Ghost(self.module));
                    push_ins(fun, Instruction::StoreGlobal(name_sym), Ghost(self.module));
                }
            },
        }
    }

    /// Compiles the methods of a class; gives each name's function id (a
    /// later method of the same name wins).
    fn compile_methods(&mut self, methods: &Vec<MethodDef>, fun: &FunctionCode) -> (r: Vec<(String, u16)>)
        requires
            module_wf(old(self).module),
            code_wf(old(self).module, fun.code@),
            old(self).module.functions@.len() > 0,
        ensures
            emit_post(old(self).module, final(self).module, fun.code@),
            final(self).loop_stack@.len() == old(self).loop_stack@.len(),
            forall|j: int| 0 <= j < r@.len() ==> (#[trigger] r@[j]).1 < final(self).module.functions@.len(),
            table_names(r@) == method_names(methods@),
        decreases methods,
    {
        let mut map: Vec<(String, u16)> = Vec::new();
        let mut i: usize = 0;
        assert(table_names(map@) =~= method_names(methods@.subrange(0, 0)));
        while i < methods.len()
            invariant
                i <= methods.len(),
                emit_post(old(self).module, self.module, fun.code@),
                self.loop_stack@.len() == old(self).loop_stack@.len(),
                forall|j: int| 0 <= j < map@.len() ==> (#[trigger] map@[j]).1 < self.module.functions@.len(),
                table_names(map@) == method_names(methods@.subrange(0, i as int)),
            decreases methods.len() - i,
        {
            let fid = self.compile_method(&methods[i], fun);
            let ghost names0 = table_names(map@);
            let ghost n = methods@[i as int].name@;
            let mut k: usize = 0;
            let mut found = false;
            while k < map.len()
                invariant
                    k <= map.len(),
                    i < methods.len(),
                    n == methods@[i as int].name@,
                    forall|j: int| 0 <= j < map@.len() ==> (#[trigger] map@[j]).1 < self.module.functions@.len(),
                    (fid as int) < self.module.functions@.len(),
                    table_names(map@) == names0,
                    found <==> exists|j: int| 0 <= j < k && names0[j] == n,
                decreases map.len() - k,
            {
                if str_eq(map[k].0.as_str(), methods[i].name.as_str()) {
                    let ghost before = map@;
                    map.set(k, (methods[i].name.clone(), fid));
                    assert(table_names(map@) =~= table_names(before));
                    found = true;
                }
                proof {
                    assert(names0[k as int] == map@[k as int].0@);
                    if found && !(exists|j: int| 0 <= j < k && names0[j] == n) {
                        assert(names0[k as int] == n);
                    }
                }
                k = k + 1;
            }
            proof {
                if found {
                    let j = choose|j: int| 0 <= j < k && names0[j] == n;
                    assert(names0.contains(n));
                } else {
                    assert(!names0.contains(n)) by {
                        if names0.contains(n) {
                            let j = choose|j: int| 0 <= j < names0.len() && names0[j] == n;
                            assert(exists|j2: int| 0 <= j2 < k && names0[j2] == n);
                        }
                    }
                }
            }
            if !found {
                let ghost before = map@;
                map.push((methods[i].name.clone(), fid));
                assert(table_names(map@) =~= names0.push(n));
            }
            proof {
                let pre = methods@.subrange(0, i + 1);
                assert(pre.drop_last() =~= methods@.subrange(0, i as int));
                assert(pre.last() == methods@[i as int]);
            }
            i = i + 1;
        }
        assert(methods@.subrange(0, i as int) =~= methods@);
        map
    }

    /// Compiles a method to a function of its own; `__init__` returns `self`.
    pub fn compile_method(&mut self, method: &MethodDef, fun: &FunctionCode) -> (r: u16)
        requires
            module_wf(old(self).module),
            code_wf(old(self).module, fun.code@),
            old(self).module.functions@.len() > 0,
        ensures
            (r as int) < final(self).module.functions@.len(),
            emit_post(old(self).module, final(self).module, fun.code@),
            final(self).loop_stack@.len() == old(self).loop_stack@.len(),
            r as int == (if old(self).module.functions@.len() > 0xffff { 0xffff } else { old(self).module.functions@.len() as int }),
            old(self).module.functions@.len() <= 0xffff ==> {
                let f = final(self).module.functions@[r as int];
                &&& f.arity as int == method.params@.len() % 256
                &&& f.num_locals as int == add_slots(param_slots(method.params@),
                        walk_block(names_of(method.params@), method.body@)).len()
                &&& compiled_body(f.code@, method.body@, method.name@ == "__init__"@)
            },
        decreases method,
    {
        let name_sym = self.intern_for(method.name.as_str(), fun);
        let is_init = str_eq(method.name.as_str(), "__init__");
        let fid = self.compile_function(name_sym, &method.params, &method.body, is_init, fun);
        small_id(fid)
    }

    /// Compiles a function body to a new function with the given name:
    /// its locals are the parameters and the names it binds. With
    /// `returns_self` it returns its first local when it runs off its end.
    fn compile_function(&mut self, name_sym: u16, params: &Vec<String>, body: &Vec<StmtS>, returns_self: bool, fun: &FunctionCode) -> (r: usize)
        requires
            module_wf(old(self).module),
            code_wf(old(self).module, fun.code@),
            old(self).module.functions@.len() > 0,
        ensures
            r < final(self).module.functions@.len(),
            emit_post(old(self).module, final(self).module, fun.code@),
            final(self).loop_stack@.len() == old(self).loop_stack@.len(),
            r == old(self).module.functions@.len(),
            final(self).module.functions@[r as int].name_sym == name_sym,
            final(self).module.functions@[r as int].arity as int == params@.len() % 256,
            final(self).module.functions@[r as int].num_locals as int
                == add_slots(param_slots(params@), walk_block(names_of(params@), body@)).len(),
            compiled_body(final(self).module.functions@[r as int].code@, body@, returns_self),
        decreases body,
    {
        let local_map = collect_locals(params, body);
        let num_locals = small_id(local_map.len());
        let arity = count_u8(params.len());
        let fid = self.module.functions.len();
        let ghost m0 = self.module;
        self.module.functions.push(FunctionCode { name_sym, arity, num_locals, code: vec![Instruction::Return] });
        assert(self.module.functions@.drop_last() =~= m0.functions@);
        assert(instr_wf(self.module, self.module.functions@.last().code@[0]));
        proof {
            lemma_add_function(m0, self.module);
            lemma_code_grows(m0, self.module, fun.code@);
        }
        let mut f = FunctionCode { name_sym, arity, num_locals, code: Vec::new() };
        let ghost m1 = self.module;
        let ghost pure = forall|k: int| 0 <= k < body@.len() ==> #[trigger] pure_stmt(body@[k]);
        assert(block_code(body@.subrange(0, 0)) =~= f.code@);
        let mut i: usize = 0;
        while i < body.len()
            invariant
                i <= body.len(),
                emit_post(m1, self.module, f.code@),
                grows(old(self).module, m1),
                code_wf(m1, fun.code@),
                fid < self.module.functions@.len(),
                self.loop_stack@.len() == old(self).loop_stack@.len(),
                pure == (forall|k: int| 0 <= k < body@.len() ==> #[trigger] pure_stmt(body@[k])),
                pure ==> f.code@ == block_code(body@.subrange(0, i as int)),
            decreases body.len() - i,
        {
            let ghost c1 = f.code@;
            self.emit_stmt(&body[i], &mut f, Some(&local_map));
            proof {
                let pre = body@.subrange(0, i + 1);
                assert(pre.drop_last() =~= body@.subrange(0, i as int));
                assert(pre.last() == body@[i as int]);
                if pure {
                    assert(pure_stmt(body@[i as int]));
                    assert(f.code@ =~= block_code(pre));
                }
            }
            i = i + 1;
        }
        assert(body@.subrange(0, i as int) =~= body@);
        let ghost cb = f.code@;
        if returns_self {
            push_ins(&mut f, Instruction::LoadLocal(0), Ghost(self.module));
        }
        push_ins(&mut f, Instruction::Return, Ghost(self.module));
        let ghost m2 = self.module;
        let ghost fcode = f.code@;
        proof {
            lemma_code_grows(m1, m2, fun.code@);
            let tail = if returns_self { seq![Instruction::LoadLocal(0), Instruction::Return] } else { seq![Instruction::Return] };
            assert(fcode =~= cb + tail);
            assert(fcode.subrange(fcode.len() - tail.len(), fcode.len() as int) =~= tail);
            assert(compiled_body(fcode, body@, returns_self));
        }
        let f = FunctionCode { name_sym, arity, num_locals, code: f.code };
        assert(f.code@ == fcode);
        assert(code_wf(m2, f.code@));
        self.module.functions.set(fid, f);
        proof {
            lemma_set_function(m2, self.module, fid as int);
            lemma_code_grows(m2, self.module, fcode);
            lemma_code_grows(m2, self.module, fun.code@);
        }
        fid
    }

    /// Compiles a program: its statements form function 0, `__main__`,
    /// which returns None at its end.
    pub fn compile(self, program: &Vec<StmtS>) -> (m: Module)
        requires
            module_wf(self.module),
        ensures
            module_wf(m),
            m.functions@.len() > self.module.functions@.len(),
            m.functions@[0].arity == 0,
            m.functions@[0].code@.len() > 0,
            m.functions@[0].code@.last() == Instruction::Return,
            (m.functions@[0].name_sym as int) < m.symbols@.len(),
            table_grows(self.module.symbols@, m.symbols@),
            jumps_land(m.functions@[0].code@),
            all_land(self.module) ==> all_land(m),
            names_distinct(self.module.symbols@) ==> names_distinct(m.symbols@),
            self.module.globals@.len() == self.module.symbols@.len() ==> m.globals@.len() == m.symbols@.len(),
            self.module.symbols@.len() <= 0xffff ==> m.symbols@[m.functions@[0].name_sym as int]@ == "__main__"@,
            self.module.symbols@.len() == 0 ==> m.functions@[0].name_sym == 0,
            (forall|k: int| 0 <= k < program@.len() ==> #[trigger] pure_stmt(program@[k]))
                ==> m.functions@[0].code@ == program_code(program@, program@.len() as int).push(Instruction::Return),
            fresh_globals(self.module) && self.module.symbols@.len() + 1 + program_names_count(program@, program@.len() as int) <= 0xffff
                && (forall|k: int| 0 <= k < program@.len() ==> #[trigger] var_stmt(program@[k]))
                ==> m.functions@[0].code@ == var_program_code(program@, program@.len() as int, m.symbols@).push(Instruction::Return)
                    && program_names_known(program@, program@.len() as int, m.symbols@)
                    && fresh_globals(m),
    {
        let ghost allvar = fresh_globals(self.module)
            && self.module.symbols@.len() + 1 + program_names_count(program@, program@.len() as int) <= 0xffff
            && (forall|k: int| 0 <= k < program@.len() ==> #[trigger] var_stmt(program@[k]));
        let mut c = self;
        let main_sym = c.intern("__main__");
        proof {
            if self.module.symbols@.len() <= 0xffff {
                lemma_sym_index_found(c.module.symbols@, "__main__"@, 0);
            }
        }
        let ghost start = c.module.symbols@.len();
        assert(allvar ==> start <= self.module.symbols@.len() + 1 && fresh_globals(c.module));
        let ghost m0 = c.module;
        c.module.functions.push(FunctionCode { name_sym: main_sym, arity: 0, num_locals: 0, code: Vec::new() });
        assert(c.module.functions@.drop_last() =~= m0.functions@);
        proof { lemma_add_function(m0, c.module); }
        let mut main = FunctionCode { name_sym: main_sym, arity: 0, num_locals: 0, code: Vec::new() };
        let ghost nf0 = self.module.functions@.len();
        let mut i: usize = 0;
        while i < program.len()
            invariant
                i <= program.len(),
                module_wf(c.module),
                code_wf(c.module, main.code@),
                c.module.functions@.len() > nf0,
                (main_sym as int) < c.module.symbols@.len(),
                table_grows(self.module.symbols@, c.module.symbols@),
                names_distinct(self.module.symbols@) ==> names_distinct(c.module.symbols@),
                self.module.globals@.len() == self.module.symbols@.len()
                    ==> c.module.globals@.len() == c.module.symbols@.len(),
                self.module.symbols@.len() <= 0xffff ==> c.module.symbols@[main_sym as int]@ == "__main__"@,
                self.module.symbols@.len() == 0 ==> main_sym == 0,
                all_land(self.module) ==> all_land(c.module),
                (forall|k: int| 0 <= k < program@.len() ==> #[trigger] pure_stmt(program@[k]))
                    ==> main.code@ == program_code(program@, i as int),
                allvar == (fresh_globals(self.module)
                    && self.module.symbols@.len() + 1 + program_names_count(program@, program@.len() as int) <= 0xffff
                    && (forall|k: int| 0 <= k < program@.len() ==> #[trigger] var_stmt(program@[k]))),
                allvar ==> start <= self.module.symbols@.len() + 1,
                allvar ==> main.code@ == var_program_code(program@, i as int, c.module.symbols@)
                    && program_names_known(program@, i as int, c.module.symbols@)
                    && c.module.symbols@.len() <= start + program_names_count(program@, i as int)
                    && fresh_globals(c.module),
            decreases program.len() - i,
        {
            let ghost syms1 = c.module.symbols@;
            proof {
                if allvar {
                    lemma_names_count_mono(program@, i + 1, program@.len() as int);
                    assert(var_stmt(program@[i as int]));
                }
            }
            c.emit_stmt(&program[i], &mut main, None);
            proof {
                if allvar {
                    lemma_program_code_prefix(program@, i as int, syms1, c.module.symbols@);
                    assert forall|k: int| 0 <= k < i + 1 implies #[trigger] stmt_names_known(program@[k], c.module.symbols@) by {
                        if k < i {
                            assert(stmt_names_known(program@[k], syms1));
                            lemma_stmt_code_prefix(program@[k], syms1, c.module.symbols@);
                        }
                    }
                }
            }
            i = i + 1;
        }
        push_ins(&mut main, Instruction::Return, Ghost(c.module));
        let ghost m1 = c.module;
        let ghost mcode = main.code@;
        let main = FunctionCode { name_sym: main_sym, arity: 0, num_locals: 0, code: main.code };
        c.module.functions.set(0, main);
        proof {
            lemma_set_function(m1, c.module, 0);
            lemma_code_grows(m1, c.module, mcode);
        }
        c.module
    }
}

/// Compiles a program to a module.
pub fn compile_to_module(program: &Vec<StmtS>) -> (m: Module)
    ensures
        module_wf(m),
        m.functions@.len() > 0,
        m.functions@[0].arity == 0,
        m.functions@[0].code@.len() > 0,
        m.functions@[0].code@.last() == Instruction::Return,
        (m.functions@[0].name_sym as int) < m.symbols@.len(),
        m.functions@[0].name_sym == 0,
        m.symbols@[0]@ == "__main__"@,
        jumps_land(m.functions@[0].code@),
        all_land(m),
        names_distinct(m.symbols@),
        m.globals@.len() == m.symbols@.len(),
        (forall|k: int| 0 <= k < program@.len() ==> #[trigger] pure_stmt(program@[k]))
            ==> m.functions@[0].code@ == program_code(program@, program@.len() as int).push(Instruction::Return),
        1 + program_names_count(program@, program@.len() as int) <= 0xffff
            && (forall|k: int| 0 <= k < program@.len() ==> #[trigger] var_stmt(program@[k]))
            ==> m.functions@[0].code@ == var_program_code(program@, program@.len() as int, m.symbols@).push(Instruction::Return)
                && program_names_known(program@, program@.len() as int, m.symbols@)
                && fresh_globals(m),
{
    let c = Compiler::new();
    c.compile(program)
}

/// The expressions that compile to instructions which only compute on the
/// stack: integer, boolean and None literals, `not`, unary minus, and the
/// arithmetic and comparison operators other than `/`.
pub open spec fn pure_expr(e: ExprS) -> bool
    decreases e,
{
    match e.0 {
        Expr::Literal(Literal::Int(_)) | Expr::Literal(Literal::Bool(_)) | Expr::Literal(Literal::NoneLit) => true,
        Expr::Unary { op, expr } => (op == UnaryOp::Not || op == UnaryOp::Negate) && pure_expr(*expr),
        Expr::Binary { op, left, right } => op != BinaryOp::And && op != BinaryOp::Or && op != BinaryOp::Divide
            && pure_expr(*left) && pure_expr(*right),
        _ => false,
    }
}

/// The code of `l and r` (`is_and`) or `l or r` from the code of its
/// operands: after `l`, a jump that skips `r` when `l` settles the result
/// (false for `and`, true for `or`) to where that result is pushed, and
/// after `r` a jump over that push.
pub open spec fn short_circuit_code(is_and: bool, l: Seq<Instruction>, r: Seq<Instruction>) -> Seq<Instruction> {
    let skip = rel_spec(r.len() as int + 1, -1);
    l + seq![if is_and { Instruction::JumpIfFalse(skip) } else { Instruction::JumpIfTrue(skip) }] + r
        + seq![Instruction::Jump(rel_spec(1, -1)), if is_and { Instruction::False } else { Instruction::True }]
}

/// The instruction of a binary operator.
pub open spec fn binary_instr(op: BinaryOp) -> Instruction {
    match op {
        BinaryOp::Add => Instruction::Add,
        BinaryOp::Subtract => Instruction::Sub,
        BinaryOp::Multiply => Instruction::Mul,
        BinaryOp::Divide => Instruction::TrueDiv,
        BinaryOp::FloorDivide => Instruction::Div,
        BinaryOp::Modulo => Instruction::Mod,
        BinaryOp::Equal => Instruction::Eq,
        BinaryOp::NotEqual => Instruction::Ne,
        BinaryOp::Less => Instruction::Lt,
        BinaryOp::LessEqual => Instruction::Le,
        BinaryOp::Greater => Instruction::Gt,
        BinaryOp::GreaterEqual => Instruction::Ge,
        BinaryOp::And | BinaryOp::Or => Instruction::Pop,
    }
}

/// The code of a pure expression: its operands in order, then its
/// operator (postfix order).
pub open spec fn postfix_code(e: ExprS) -> Seq<Instruction>
    decreases e,
{
    match e.0 {
        Expr::Literal(Literal::Int(i)) => seq![Instruction::ConstI64(i)],
        Expr::Literal(Literal::Bool(b)) => if b { seq![Instruction::True] } else { seq![Instruction::False] },
        Expr::Literal(Literal::NoneLit) => seq![Instruction::PushNone],
        Expr::Unary { op, expr } => postfix_code(*expr).push(if op == UnaryOp::Not { Instruction::Not } else { Instruction::Neg }),
        Expr::Binary { op, left, right } => (postfix_code(*left) + postfix_code(*right)).push(binary_instr(op)),
        _ => Seq::empty(),
    }
}

/// How many stack slots evaluating a pure expression takes at most.
pub open spec fn expr_depth(e: ExprS) -> nat
    decreases e,
{
    match e.0 {
        Expr::Unary { expr, .. } => expr_depth(*expr),
        Expr::Binary { left, right, .. } => {
            let a = expr_depth(*left);
            let b = expr_depth(*right) + 1;
            if a >= b { a } else { b }
        },
        _ => 1,
    }
}

/// The value of a binary operator on two values that are integers,
/// booleans or None.
pub open spec fn binary_value(op: BinaryOp, a: Value, b: Value) -> Option<Value> {
    match op {
        BinaryOp::Equal => Some(Value::Bool(eq_spec(a, b))),
        BinaryOp::NotEqual => Some(Value::Bool(!eq_spec(a, b))),
        BinaryOp::Less => match crate::vm::machine::rel_spec(RelOp::Lt, a, b) { Some(x) => Some(Value::Bool(x)), None => None },
        BinaryOp::LessEqual => match crate::vm::machine::rel_spec(RelOp::Le, a, b) { Some(x) => Some(Value::Bool(x)), None => None },
        BinaryOp::Greater => match crate::vm::machine::rel_spec(RelOp::Gt, a, b) { Some(x) => Some(Value::Bool(x)), None => None },
        BinaryOp::GreaterEqual => match crate::vm::machine::rel_spec(RelOp::Ge, a, b) { Some(x) => Some(Value::Bool(x)), None => None },
        _ => match (a, b) {
            (Value::Int(x), Value::Int(y)) => match op {
                BinaryOp::Add => Some(Value::Int(x.wrapping_add(y))),
                BinaryOp::Subtract => Some(Value::Int(x.wrapping_sub(y))),
                BinaryOp::Multiply => Some(Value::Int(x.wrapping_mul(y))),
                BinaryOp::FloorDivide => if y == 0 { None } else { Some(Value::Int(div_spec(x, y))) },
                BinaryOp::Modulo => if y == 0 { None } else { Some(Value::Int(rem_spec(x, y))) },
                _ => None,
            },
            _ => None,
        },
    }
}

/// Whether a value is an integer, a boolean or None.
pub open spec fn plain_value(v: Value) -> bool {
    v is Int || v is Bool || v is NoneVal
}

/// A statement that evaluates a pure expression and drops its value.
pub open spec fn pure_stmt(st: StmtS) -> bool {
    st.0 matches Stmt::Expr(e) && pure_expr(e)
}

/// The code of an expression statement: the expression, then `Pop`.
pub open spec fn stmt_code(st: StmtS) -> Seq<Instruction> {
    match st.0 {
        Stmt::Expr(e) => postfix_code(e).push(Instruction::Pop),
        _ => Seq::empty(),
    }
}

/// The code of the first `n` statements of a program, one after another.
pub open spec fn program_code(p: Seq<StmtS>, n: int) -> Seq<Instruction>
    decreases n,
{
    if n <= 0 { Seq::empty() } else { program_code(p, n - 1) + stmt_code(p[n - 1]) }
}

/// The table `b` is `a` with names added at its end.
pub open spec fn table_grows(a: Seq<String>, b: Seq<String>) -> bool {
    a.len() <= b.len() && forall|i: int| 0 <= i < a.len() ==> #[trigger] b[i] == a[i]
}

/// A module whose globals are one unset slot per symbol.
pub open spec fn fresh_globals(m: Module) -> bool {
    &&& m.globals@.len() == m.symbols@.len()
    &&& forall|i: int| 0 <= i < m.globals@.len() ==> m.globals@[i] is None
}

/// The first index from `i` on where the symbol table holds `n`, or -1.
pub open spec fn sym_index(syms: Seq<String>, n: Seq<char>, i: int) -> int
    decreases syms.len() - i,
{
    if i < 0 || i >= syms.len() {
        -1
    } else if syms[i]@ == n {
        i
    } else {
        sym_index(syms, n, i + 1)
    }
}

/// The id the compiler gives a name: the first index holding it, or -1.
pub open spec fn sym_of(syms: Seq<String>, n: Seq<char>) -> int {
    sym_index(syms, n, 0)
}

proof fn lemma_sym_index_found(syms: Seq<String>, n: Seq<char>, i: int)
    requires
        0 <= i,
    ensures
        sym_index(syms, n, i) >= 0 ==> i <= sym_index(syms, n, i) < syms.len()
            && syms[sym_index(syms, n, i)]@ == n
            && forall|j: int| i <= j < sym_index(syms, n, i) ==> syms[j]@ != n,
        sym_index(syms, n, i) < 0 ==> forall|j: int| i <= j < syms.len() ==> syms[j]@ != n,
    decreases syms.len() - i,
{
    if i < syms.len() && syms[i]@ != n {
        lemma_sym_index_found(syms, n, i + 1);
    }
}

proof fn lemma_sym_index_is(syms: Seq<String>, n: Seq<char>, i: int, k: int)
    requires
        0 <= i <= k < syms.len(),
        syms[k]@ == n,
        forall|j: int| i <= j < k ==> syms[j]@ != n,
    ensures
        sym_index(syms, n, i) == k,
    decreases k - i,
{
    if i < k {
        lemma_sym_index_is(syms, n, i + 1, k);
    }
}

/// A name's id stays when the table only grows at its end.
pub proof fn lemma_sym_of_prefix(syms: Seq<String>, syms2: Seq<String>, n: Seq<char>)
    requires
        table_grows(syms, syms2),
        sym_of(syms, n) >= 0,
    ensures
        sym_of(syms2, n) == sym_of(syms, n),
{
    lemma_sym_index_found(syms, n, 0);
    let k = sym_of(syms, n);
    assert(syms2[k] == syms[k]);
    assert forall|j: int| 0 <= j < k implies syms2[j]@ != n by {
        assert(syms2[j] == syms[j]);
    }
    lemma_sym_index_is(syms2, n, 0, k);
}

/// A name not in the table gets the next index when it is added.
proof fn lemma_sym_of_push(syms: Seq<String>, x: String)
    requires
        sym_of(syms, x@) < 0,
    ensures
        sym_of(syms.push(x), x@) == syms.len(),
{
    lemma_sym_index_found(syms, x@, 0);
    assert forall|j: int| 0 <= j < syms.len() implies syms.push(x)[j]@ != x@ by {
        assert(syms.push(x)[j] == syms[j]);
    }
    lemma_sym_index_is(syms.push(x), x@, 0, syms.len() as int);
}

/// The expressions whose code only computes on the stack and reads module
/// variables: the pure expressions, and variables.
pub open spec fn var_expr(e: ExprS) -> bool
    decreases e,
{
    match e.0 {
        Expr::Literal(Literal::Int(_)) | Expr::Literal(Literal::Bool(_)) | Expr::Literal(Literal::NoneLit) => true,
        Expr::Variable(_) => true,
        Expr::Unary { op, expr } => (op == UnaryOp::Not || op == UnaryOp::Negate) && var_expr(*expr),
        Expr::Binary { op, left, right } => op != BinaryOp::And && op != BinaryOp::Or && op != BinaryOp::Divide
            && var_expr(*left) && var_expr(*right),
        _ => false,
    }
}

/// How many variable reads an expression has: a bound on the names it adds
/// to the symbol table.
pub open spec fn names_count(e: ExprS) -> nat
    decreases e,
{
    match e.0 {
        Expr::Variable(_) => 1,
        Expr::Unary { expr, .. } => names_count(*expr),
        Expr::Binary { left, right, .. } => names_count(*left) + names_count(*right),
        _ => 0,
    }
}

/// Whether every variable the expression reads has an id in the table.
pub open spec fn names_known(e: ExprS, syms: Seq<String>) -> bool
    decreases e,
{
    match e.0 {
        Expr::Variable(n) => 0 <= sym_of(syms, n@) <= 0xffff,
        Expr::Unary { expr, .. } => names_known(*expr, syms),
        Expr::Binary { left, right, .. } => names_known(*left, syms) && names_known(*right, syms),
        _ => true,
    }
}

/// The code of such an expression with the symbol table `syms`: postfix
/// order, a variable read as a `LoadGlobal` of its id.
pub open spec fn var_code(e: ExprS, syms: Seq<String>) -> Seq<Instruction>
    decreases e,
{
    match e.0 {
        Expr::Literal(Literal::Int(i)) => seq![Instruction::ConstI64(i)],
        Expr::Literal(Literal::Bool(b)) => if b { seq![Instruction::True] } else { seq![Instruction::False] },
        Expr::Literal(Literal::NoneLit) => seq![Instruction::PushNone],
        Expr::Variable(n) => seq![Instruction::LoadGlobal(sym_of(syms, n@) as u16)],
        Expr::Unary { op, expr } => var_code(*expr, syms).push(if op == UnaryOp::Not { Instruction::Not } else { Instruction::Neg }),
        Expr::Binary { op, left, right } => (var_code(*left, syms) + var_code(*right, syms)).push(binary_instr(op)),
        _ => Seq::empty(),
    }
}

/// The code stays when the table only grows, as long as the names it reads
/// are known.
pub proof fn lemma_var_code_prefix(e: ExprS, syms: Seq<String>, syms2: Seq<String>)
    requires
        table_grows(syms, syms2),
        names_known(e, syms),
    ensures
        var_code(e, syms2) == var_code(e, syms),
        names_known(e, syms2),
    decreases e,
{
    match e.0 {
        Expr::Variable(n) => {
            lemma_sym_of_prefix(syms, syms2, n@);
        },
        Expr::Unary { expr, .. } => lemma_var_code_prefix(*expr, syms, syms2),
        Expr::Binary { left, right, .. } => {
            lemma_var_code_prefix(*left, syms, syms2);
            lemma_var_code_prefix(*right, syms, syms2);
        },
        _ => {},
    }
}

/// The value of such an expression when the module variables hold `env`:
/// reading a variable that was never assigned fails.
pub open spec fn var_value(e: ExprS, env: Map<Seq<char>, Value>) -> Option<Value>
    decreases e,
{
    match e.0 {
        Expr::Literal(Literal::Int(i)) => Some(Value::Int(i)),
        Expr::Literal(Literal::Bool(b)) => Some(Value::Bool(b)),
        Expr::Literal(Literal::NoneLit) => Some(Value::NoneVal),
        Expr::Variable(n) => if env.contains_key(n@) { Some(env[n@]) } else { None },
        Expr::Unary { op, expr } => match var_value(*expr, env) {
            None => None,
            Some(v) => if op == UnaryOp::Not {
                match v {
                    Value::Bool(b) => Some(Value::Bool(!b)),
                    Value::Int(i) => Some(Value::Bool(i == 0)),
                    _ => None,
                }
            } else {
                match v {
                    Value::Int(i) => Some(Value::Int(neg_spec(i))),
                    _ => None,
                }
            },
        },
        Expr::Binary { op, left, right } => match (var_value(*left, env), var_value(*right, env)) {
            (Some(a), Some(b)) => binary_value(op, a, b),
            _ => None,
        },
        _ => None,
    }
}

/// What a variable holds as a global slot: its value, or None when unset.
pub open spec fn slot_of(env: Map<Seq<char>, Value>, n: Seq<char>) -> Option<Value> {
    if env.contains_key(n) { Some(env[n]) } else { None }
}

/// The globals `g` hold the variables `env` under the ids of `syms`, and
/// every variable holds an integer, a boolean or None.
#[verifier::opaque]
pub open spec fn globals_hold(env: Map<Seq<char>, Value>, syms: Seq<String>, g: Seq<Option<Value>>) -> bool {
    &&& g.len() == syms.len()
    &&& forall|n: Seq<char>| #![trigger sym_of(syms, n)] sym_of(syms, n) >= 0 ==> g[sym_of(syms, n)] == slot_of(env, n)
    &&& forall|n: Seq<char>| #[trigger] env.contains_key(n) ==> plain_value(env[n]) && sym_of(syms, n) >= 0
}

/// The statements this part covers: an expression statement of such an
/// expression, or an assignment of one to a module variable.
pub open spec fn var_stmt(st: StmtS) -> bool {
    match st.0 {
        Stmt::Expr(e) => var_expr(e),
        Stmt::Assign { target, value } => target.0 is Variable && var_expr(value),
        _ => false,
    }
}

/// A bound on the names a statement adds to the symbol table.
pub open spec fn stmt_names_count(st: StmtS) -> nat {
    match st.0 {
        Stmt::Expr(e) => names_count(e),
        Stmt::Assign { value, .. } => names_count(value) + 1,
        _ => 0,
    }
}

/// Whether every name a statement reads or writes has an id in the table.
pub open spec fn stmt_names_known(st: StmtS, syms: Seq<String>) -> bool {
    match st.0 {
        Stmt::Expr(e) => names_known(e, syms),
        Stmt::Assign { target, value } => names_known(value, syms) && match target.0 {
            Expr::Variable(x) => 0 <= sym_of(syms, x@) <= 0xffff,
            _ => false,
        },
        _ => false,
    }
}

/// The code of such a statement: the expression then `Pop`, or the value
/// then a `StoreGlobal` of the variable's id.
pub open spec fn var_stmt_code(st: StmtS, syms: Seq<String>) -> Seq<Instruction> {
    match st.0 {
        Stmt::Expr(e) => var_code(e, syms).push(Instruction::Pop),
        Stmt::Assign { target, value } => match target.0 {
            Expr::Variable(x) => var_code(value, syms).push(Instruction::StoreGlobal(sym_of(syms, x@) as u16)),
            _ => Seq::empty(),
        },
        _ => Seq::empty(),
    }
}

/// What a statement does to the module variables: an expression statement
/// leaves them, an assignment sets its variable; `None` where evaluating
/// fails.
pub open spec fn var_step(st: StmtS, env: Map<Seq<char>, Value>) -> Option<Map<Seq<char>, Value>> {
    match st.0 {
        Stmt::Expr(e) => if var_value(e, env) is Some { Some(env) } else { None },
        Stmt::Assign { target, value } => match (target.0, var_value(value, env)) {
            (Expr::Variable(x), Some(v)) => Some(env.insert(x@, v)),
            _ => None,
        },
        _ => None,
    }
}

/// The module variables after the first `n` statements, from none set;
/// `None` where one of them fails.
pub open spec fn var_run(p: Seq<StmtS>, n: int) -> Option<Map<Seq<char>, Value>>
    decreases n,
{
    if n <= 0 {
        Some(Map::empty())
    } else {
        match var_run(p, n - 1) {
            Some(env) => var_step(p[n - 1], env),
            None => None,
        }
    }
}

/// The code of the first `n` statements with the symbol table `syms`.
pub open spec fn var_program_code(p: Seq<StmtS>, n: int, syms: Seq<String>) -> Seq<Instruction>
    decreases n,
{
    if n <= 0 { Seq::empty() } else { var_program_code(p, n - 1, syms) + var_stmt_code(p[n - 1], syms) }
}

/// A bound on the names the first `n` statements add to the symbol table.
pub open spec fn program_names_count(p: Seq<StmtS>, n: int) -> nat
    decreases n,
{
    if n <= 0 { 0 } else { program_names_count(p, n - 1) + stmt_names_count(p[n - 1]) }
}

/// Whether the names of the first `n` statements have ids in the table.
pub open spec fn program_names_known(p: Seq<StmtS>, n: int, syms: Seq<String>) -> bool {
    forall|k: int| 0 <= k < n ==> #[trigger] stmt_names_known(p[k], syms)
}

proof fn lemma_stmt_code_prefix(st: StmtS, syms: Seq<String>, syms2: Seq<String>)
    requires
        table_grows(syms, syms2),
        stmt_names_known(st, syms),
    ensures
        var_stmt_code(st, syms2) == var_stmt_code(st, syms),
        stmt_names_known(st, syms2),
{
    match st.0 {
        Stmt::Expr(e) => lemma_var_code_prefix(e, syms, syms2),
        Stmt::Assign { target, value } => {
            lemma_var_code_prefix(value, syms, syms2);
            match target.0 {
                Expr::Variable(x) => lemma_sym_of_prefix(syms, syms2, x@),
                _ => {},
            }
        },
        _ => {},
    }
}

proof fn lemma_program_code_prefix(p: Seq<StmtS>, n: int, syms: Seq<String>, syms2: Seq<String>)
    requires
        table_grows(syms, syms2),
        program_names_known(p, n, syms),
    ensures
        var_program_code(p, n, syms2) == var_program_code(p, n, syms),
        program_names_known(p, n, syms2),
    decreases n,
{
    if n > 0 {
        lemma_program_code_prefix(p, n - 1, syms, syms2);
        lemma_stmt_code_prefix(p[n - 1], syms, syms2);
        assert forall|k: int| 0 <= k < n implies #[trigger] stmt_names_known(p[k], syms2) by {
            lemma_stmt_code_prefix(p[k], syms, syms2);
        }
    }
}

proof fn lemma_names_count_mono(p: Seq<StmtS>, i: int, n: int)
    requires
        0 <= i <= n,
    ensures
        program_names_count(p, i) <= program_names_count(p, n),
    decreases n - i,
{
    if i < n {
        lemma_names_count_mono(p, i, n - 1);
    }
}

proof fn lemma_load_variable(n: Seq<char>, syms: Seq<String>, env: Map<Seq<char>, Value>, s: Seq<Value>,
    g: Seq<Option<Value>>, max: nat)
    requires
        0 <= sym_of(syms, n) <= 0xffff,
        globals_hold(env, syms, g),
        s.len() < max,
    ensures
        line_run(seq![Instruction::LoadGlobal(sym_of(syms, n) as u16)], s, g, max) == if env.contains_key(n) {
            Some(Some((s.push(env[n]), g)))
        } else {
            Some(None::<(Seq<Value>, Seq<Option<Value>>)>)
        },
{
    reveal(globals_hold);
    let c = seq![Instruction::LoadGlobal(sym_of(syms, n) as u16)];
    assert(c.drop_last() =~= Seq::<Instruction>::empty());
    assert(line_run(c.drop_last(), s, g, max) == Some(Some((s, g))));
    let k = sym_of(syms, n);
    lemma_sym_index_found(syms, n, 0);
    assert(g[k] == slot_of(env, n));
    assert((k as u16) as int == k);
}

proof fn lemma_var_value_plain(e: ExprS, env: Map<Seq<char>, Value>)
    requires
        var_expr(e),
        forall|n: Seq<char>| #[trigger] env.contains_key(n) ==> plain_value(env[n]),
    ensures
        var_value(e, env) matches Some(v) ==> plain_value(v),
    decreases e,
{
    match e.0 {
        Expr::Unary { expr, .. } => lemma_var_value_plain(*expr, env),
        Expr::Binary { left, right, .. } => {
            lemma_var_value_plain(*left, env);
            lemma_var_value_plain(*right, env);
        },
        Expr::Variable(n) => {
            if env.contains_key(n@) {
                assert(plain_value(env[n@]));
            }
        },
        _ => {},
    }
}

/// The code the compiler emits for an expression that reads module
/// variables computes its value: run with globals that hold the variables
/// `env`, from any stack with room for it, it pushes the value and leaves
/// the globals as they were, or fails where evaluating the expression
/// fails (a variable never assigned among them).
#[verifier::spinoff_prover]
#[verifier::rlimit(40)]
pub proof fn law_variables_expression_computes(e: ExprS, syms: Seq<String>, env: Map<Seq<char>, Value>,
    s: Seq<Value>, g: Seq<Option<Value>>, max: nat)
    requires
        var_expr(e),
        names_known(e, syms),
        globals_hold(env, syms, g),
        s.len() + expr_depth(e) <= max,
    ensures
        line_run(var_code(e, syms), s, g, max) == match var_value(e, env) {
            Some(v) => Some(Some((s.push(v), g))),
            None => Some(None::<(Seq<Value>, Seq<Option<Value>>)>),
        },
        var_value(e, env) matches Some(v) ==> plain_value(v),
    decreases e,
{
    assert(forall|n: Seq<char>| #[trigger] env.contains_key(n) ==> plain_value(env[n])) by {
        reveal(globals_hold);
    }
    lemma_var_value_plain(e, env);
    match e.0 {
        Expr::Literal(_) => {
            assert(var_code(e, syms).drop_last() =~= Seq::<Instruction>::empty());
            assert(line_run(var_code(e, syms).drop_last(), s, g, max) == Some(Some((s, g))));
        },
        Expr::Variable(n) => {
            lemma_load_variable(n@, syms, env, s, g, max);
        },
        Expr::Unary { op, expr } => {
            law_variables_expression_computes(*expr, syms, env, s, g, max);
            let c = var_code(*expr, syms);
            let last = if op == UnaryOp::Not { Instruction::Not } else { Instruction::Neg };
            assert(var_code(e, syms) == c.push(last));
            assert(c.push(last).drop_last() =~= c);
            match var_value(*expr, env) {
                Some(v) => {
                    assert(s.push(v).drop_last() =~= s);
                },
                None => {},
            }
        },
        Expr::Binary { op, left, right } => {
            law_variables_expression_computes(*left, syms, env, s, g, max);
            let cl = var_code(*left, syms);
            let cr = var_code(*right, syms);
            lemma_line_run_append(cl, cr, s, g, max);
            assert(var_code(e, syms) == (cl + cr).push(binary_instr(op)));
            assert((cl + cr).push(binary_instr(op)).drop_last() =~= cl + cr);
            match var_value(*left, env) {
                Some(a) => {
                    law_variables_expression_computes(*right, syms, env, s.push(a), g, max);
                    match var_value(*right, env) {
                        Some(b) => {
                            let t = s.push(a).push(b);
                            assert(top2(t) == (a, b));
                            assert(below2(t) =~= s);
                        },
                        None => {},
                    }
                },
                None => {},
            }
        },
        _ => {},
    }
}

/// The stack room such a statement needs.
pub open spec fn var_stmt_depth(st: StmtS) -> nat {
    match st.0 {
        Stmt::Expr(e) => expr_depth(e),
        Stmt::Assign { value, .. } => expr_depth(value),
        _ => 0,
    }
}

proof fn lemma_globals_assign(env: Map<Seq<char>, Value>, syms: Seq<String>, g: Seq<Option<Value>>, x: Seq<char>, v: Value)
    requires
        globals_hold(env, syms, g),
        0 <= sym_of(syms, x) <= 0xffff,
        plain_value(v),
    ensures
        globals_hold(env.insert(x, v), syms, g.update(sym_of(syms, x), Some(v))),
{
    reveal(globals_hold);
    let k = sym_of(syms, x);
    lemma_sym_index_found(syms, x, 0);
    let env2 = env.insert(x, v);
    let g2 = g.update(k, Some(v));
    assert forall|n: Seq<char>| #![trigger sym_of(syms, n)] sym_of(syms, n) >= 0 implies g2[sym_of(syms, n)] == slot_of(env2, n) by {
        lemma_sym_index_found(syms, n, 0);
        if n != x {
            assert(syms[sym_of(syms, n)]@ == n);
            assert(sym_of(syms, n) != k);
        }
    }
}

/// The statements this part covers, compiled, run as they say: with
/// globals that hold the variables `env`, the code of a statement ends
/// with the stack as it was and globals that hold the variables after the
/// statement (an assignment sets its variable), or fails exactly where the
/// statement fails; it never does anything the model leaves open.
pub proof fn law_variables_statement_runs(st: StmtS, syms: Seq<String>, env: Map<Seq<char>, Value>,
    s: Seq<Value>, g: Seq<Option<Value>>, max: nat)
    requires
        var_stmt(st),
        stmt_names_known(st, syms),
        globals_hold(env, syms, g),
        s.len() + var_stmt_depth(st) <= max,
    ensures
        match line_run(var_stmt_code(st, syms), s, g, max) {
            Some(Some((s2, g2))) => var_step(st, env) matches Some(env2) && s2 == s && globals_hold(env2, syms, g2),
            Some(None) => var_step(st, env) is None,
            None => false,
        },
{
    match st.0 {
        Stmt::Expr(e) => {
            law_variables_expression_computes(e, syms, env, s, g, max);
            let c = var_code(e, syms);
            lemma_line_run_append(c, seq![Instruction::Pop], s, g, max);
            assert(c.push(Instruction::Pop) =~= c + seq![Instruction::Pop]);
            assert(seq![Instruction::Pop].drop_last() =~= Seq::<Instruction>::empty());
            match var_value(e, env) {
                Some(v) => {
                    let t = s.push(v);
                    assert(t.drop_last() =~= s);
                    assert(line_run(Seq::<Instruction>::empty(), t, g, max) == Some(Some((t, g))));
                    assert(line_run(seq![Instruction::Pop], t, g, max) == line_step(Instruction::Pop, t, g, max));
                },
                None => {},
            }
        },
        Stmt::Assign { target, value } => {
            law_variables_expression_computes(value, syms, env, s, g, max);
            let x = target.0->Variable_0;
            let k = sym_of(syms, x@);
            let last = Instruction::StoreGlobal(k as u16);
            let c = var_code(value, syms);
            assert(var_stmt_code(st, syms) == c.push(last));
            lemma_line_run_append(c, seq![last], s, g, max);
            assert(c.push(last) =~= c + seq![last]);
            assert(seq![last].drop_last() =~= Seq::<Instruction>::empty());
            match var_value(value, env) {
                Some(v) => {
                    let t = s.push(v);
                    assert(t.drop_last() =~= s);
                    assert(line_run(Seq::<Instruction>::empty(), t, g, max) == Some(Some((t, g))));
                    assert(line_run(seq![last], t, g, max) == line_step(last, t, g, max));
                    assert(g.len() == syms.len()) by { reveal(globals_hold); }
                    lemma_sym_index_found(syms, x@, 0);
                    assert((k as u16) as int == k);
                    lemma_globals_assign(env, syms, g, x@, v);
                },
                None => {},
            }
        },
        _ => {},
    }
}

/// A program of such statements, compiled one after another and run from
/// an empty stack with globals that hold no variable, ends with an empty
/// stack and globals that hold the variables the statements leave, or
/// fails exactly when one of the statements fails.
#[verifier::spinoff_prover]
pub proof fn law_variables_program_runs(p: Seq<StmtS>, n: int, syms: Seq<String>, g0: Seq<Option<Value>>, max: nat)
    requires
        0 <= n <= p.len(),
        forall|k: int| 0 <= k < n ==> #[trigger] var_stmt(p[k]) && var_stmt_depth(p[k]) <= max,
        program_names_known(p, n, syms),
        globals_hold(Map::empty(), syms, g0),
    ensures
        match line_run(var_program_code(p, n, syms), Seq::empty(), g0, max) {
            Some(Some((s2, g2))) => s2.len() == 0 && (var_run(p, n) matches Some(env) && globals_hold(env, syms, g2)),
            Some(None) => var_run(p, n) is None,
            None => false,
        },
    decreases n,
{
    if n <= 0 {
        assert(var_program_code(p, n, syms) =~= Seq::<Instruction>::empty());
    } else {
        law_variables_program_runs(p, n - 1, syms, g0, max);
        let prev = var_program_code(p, n - 1, syms);
        let st = p[n - 1];
        assert(var_stmt(st) && var_stmt_depth(st) <= max);
        assert(stmt_names_known(st, syms));
        lemma_line_run_append(prev, var_stmt_code(st, syms), Seq::empty(), g0, max);
        match line_run(prev, Seq::empty(), g0, max) {
            Some(Some((s1, g1))) => {
                let env = var_run(p, n - 1).unwrap();
                assert(s1 =~= Seq::<Value>::empty());
                law_variables_statement_runs(st, syms, env, s1, g1, max);
            },
            _ => {},
        }
    }
}

/// A fresh module's globals hold no variable.
pub proof fn lemma_fresh_globals_hold(m: Module)
    requires
        fresh_globals(m),
    ensures
        globals_hold(Map::empty(), m.symbols@, m.globals@),
{
    reveal(globals_hold);
    assert forall|n: Seq<char>| #![trigger sym_of(m.symbols@, n)] sym_of(m.symbols@, n) >= 0
        implies m.globals@[sym_of(m.symbols@, n)] == slot_of(Map::empty(), n) by {
        lemma_sym_index_found(m.symbols@, n, 0);
    }
}

/// A compiled program of expression statements and assignments to module
/// variables, run by the machine from a fresh start (see `run`), finishes
/// with nothing returned and with globals that hold the variables the
/// program leaves when every statement evaluates, and fails when one of
/// them fails (reading a variable never assigned among the failures).
pub proof fn law_compiled_variables_program_runs(p: Seq<StmtS>, m: Module, vm: Vm)
    requires
        forall|k: int| 0 <= k < p.len() ==> #[trigger] var_stmt(p[k]),
        forall|k: int| 0 <= k < p.len() ==> #[trigger] var_stmt_depth(p[k]) <= vm.max_stack,
        m.functions@.len() > 0,
        m.functions@[0].code@ == var_program_code(p, p.len() as int, m.symbols@).push(Instruction::Return),
        m.functions@[0].code@.len() < 0xffff_ffff_ffff_fffe,
        program_names_known(p, p.len() as int, m.symbols@),
        fresh_globals(m),
    ensures
        match module_run(vm, m) {
            Some(Some((v, g))) => v is None && (var_run(p, p.len() as int) matches Some(env)
                && globals_hold(env, m.symbols@, g)),
            Some(None) => var_run(p, p.len() as int) is None,
            None => false,
        },
{
    let c = var_program_code(p, p.len() as int, m.symbols@);
    lemma_fresh_globals_hold(m);
    assert forall|k: int| 0 <= k < p.len() implies #[trigger] var_stmt(p[k]) && var_stmt_depth(p[k]) <= vm.max_stack as nat by {
        assert(var_stmt(p[k]));
        assert(var_stmt_depth(p[k]) <= vm.max_stack);
    }
    law_variables_program_runs(p, p.len() as int, m.symbols@, m.globals@, vm.max_stack as nat);
    assert(m.functions@[0].code@.len() == m.functions@[0].code.len());
    assert(c.subrange(0, c.len() as int) =~= c);
    let l = Seq::new(m.functions@[0].num_locals as nat, |i: int| Value::NoneVal);
    lemma_main_line_run(m.functions@, c, 0, l, Seq::empty(), m.globals@, 0xffff_ffff_ffff_ffff,
        vm.max_stack as nat, vm.max_frames as nat);
}

/// A jump that the compiler points from position `pos` at `target` lands
/// on `target` when the machine takes it: the machine adds the offset to
/// the position after the jump. Targets farther away than an `i32`
/// offset reaches are left out.
pub proof fn law_patched_jump_lands(pos: usize, target: usize)
    requires
        pos < usize::MAX,
        i32::MIN <= target - (pos + 1) <= i32::MAX,
    ensures
        rel_spec(target as int, pos as int) >= 0 ==>
            ((pos + 1) as usize).wrapping_add(rel_spec(target as int, pos as int) as usize) == target,
        rel_spec(target as int, pos as int) < 0 ==>
            ((pos + 1) as usize).wrapping_sub((-(rel_spec(target as int, pos as int) as int)) as usize) == target,
{
}

} // verus!
