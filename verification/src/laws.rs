//! Laws that tie the stages of the implementation to one another: what the
//! type checker accepts against what the machine computes, and how the
//! listing names the instructions the machine runs.

use vstd::prelude::*;
use crate::ast::BinaryOp;
use crate::semantic::typecheck::{binary_ty, Ty};
use crate::vm::bytecode::{Instruction, Value};
use crate::vm::disasm::instr_name;
use crate::vm::machine::{instr_step, jump_target, rel_spec, RelOp};
use crate::vm::compiler::patched_all;
use crate::vm::calls::int_call_spec;
use crate::vm::machine::{Object, VmError};
use crate::lexer::{digits_value, is_ascii_digit};
use crate::vm::decimal::{all_digits, dot_index, exp_index, exponent_value, float_int, float_literal, fraction_digits,
    held, lemma_digits_below, lemma_digits_split, lemma_pow10_positive, mantissa, pow10, shifted_floor, whole_digits};

verus! {

/// The type the checker gives to a value that the machine holds.
pub open spec fn value_ty(v: Value) -> Ty {
    match v {
        Value::Int(_) => Ty::Int,
        Value::Bool(_) => Ty::Bool,
        Value::Float(_) => Ty::Float,
        Value::NoneVal => Ty::NoneType,
        Value::Str(_) => Ty::String,
        _ => Ty::Unknown,
    }
}

/// The machine's ordering for a comparison operator of the source.
pub open spec fn rel_of(op: BinaryOp) -> RelOp {
    match op {
        BinaryOp::Less => RelOp::Lt,
        BinaryOp::LessEqual => RelOp::Le,
        BinaryOp::Greater => RelOp::Gt,
        _ => RelOp::Ge,
    }
}

/// Whether an operator is one of `<`, `<=`, `>`, `>=`.
pub open spec fn is_ordering(op: BinaryOp) -> bool {
    op == BinaryOp::Less || op == BinaryOp::LessEqual || op == BinaryOp::Greater || op == BinaryOp::GreaterEqual
}

/// The type checker accepts every ordering that the machine can carry out:
/// when the machine orders two values, comparing them has type Bool, also
/// where the type of either operand is not known.
pub proof fn law_ordering_types_cover_the_machine(op: BinaryOp, a: Value, b: Value)
    requires
        is_ordering(op),
        rel_spec(rel_of(op), a, b) is Some,
    ensures
        binary_ty(op, value_ty(a), value_ty(b)) == Some(Ty::Bool),
        binary_ty(op, Ty::Unknown, value_ty(b)) == Some(Ty::Bool),
        binary_ty(op, value_ty(a), Ty::Unknown) == Some(Ty::Bool),
{
}

/// The type checker accepts every `+` and `*` that the machine can carry
/// out, with the type of the value the machine gives: two integers give an
/// integer; two strings added, or a string and an integer multiplied, give
/// a string.
pub proof fn law_arithmetic_types_cover_the_machine(a: Value, b: Value)
    ensures
        a is Int && b is Int ==> binary_ty(BinaryOp::Add, value_ty(a), value_ty(b)) == Some(Ty::Int)
            && binary_ty(BinaryOp::Multiply, value_ty(a), value_ty(b)) == Some(Ty::Int),
        a is Str && b is Str ==> binary_ty(BinaryOp::Add, value_ty(a), value_ty(b)) == Some(Ty::String),
        (a is Str && b is Int) || (a is Int && b is Str)
            ==> binary_ty(BinaryOp::Multiply, value_ty(a), value_ty(b)) == Some(Ty::String),
{
}

/// The kind of an instruction, one number per variant.
pub open spec fn instr_kind(ins: Instruction) -> int {
    match ins {
        Instruction::ConstI64(_) => 0,
        Instruction::ConstF64(_) => 1,
        Instruction::ConstStr(_) => 2,
        Instruction::LoadConst(_) => 3,
        Instruction::True => 4,
        Instruction::False => 5,
        Instruction::PushNone => 6,
        Instruction::Pop => 7,
        Instruction::LoadLocal(_) => 8,
        Instruction::StoreLocal(_) => 9,
        Instruction::LoadGlobal(_) => 10,
        Instruction::StoreGlobal(_) => 11,
        Instruction::Add => 12,
        Instruction::Sub => 13,
        Instruction::Mul => 14,
        Instruction::Div => 15,
        Instruction::TrueDiv => 16,
        Instruction::Mod => 17,
        Instruction::Neg => 18,
        Instruction::Pos => 19,
        Instruction::Eq => 20,
        Instruction::Ne => 21,
        Instruction::Lt => 22,
        Instruction::Le => 23,
        Instruction::Gt => 24,
        Instruction::Ge => 25,
        Instruction::Not => 26,
        Instruction::Jump(_) => 27,
        Instruction::JumpIfFalse(_) => 28,
        Instruction::JumpIfTrue(_) => 29,
        Instruction::Call(_, _) => 30,
        Instruction::CallBuiltin(_, _) => 31,
        Instruction::Return => 32,
        Instruction::CallValue(_) => 33,
        Instruction::CallMethod(_, _) => 34,
        Instruction::LoadAttr(_) => 35,
        Instruction::StoreAttr(_) => 36,
        Instruction::BuildList(_) => 37,
        Instruction::BuildDict(_) => 38,
        Instruction::LoadIndex => 39,
        Instruction::StoreIndex => 40,
        Instruction::MakeClosure(_, _) => 41,
    }
}

/// The listing tells instructions of different kinds apart: two
/// instructions are listed under the same name only when they are of the
/// same kind.
#[verifier::spinoff_prover]
#[verifier::rlimit(100)]
pub proof fn law_listing_names_tell_kinds_apart(a: Instruction, b: Instruction)
    requires
        instr_name(a) == instr_name(b),
    ensures
        instr_kind(a) == instr_kind(b),
{
    reveal_strlit("ConstI64");
    reveal_strlit("ConstF64");
    reveal_strlit("ConstStr");
    reveal_strlit("LoadConst");
    reveal_strlit("True");
    reveal_strlit("False");
    reveal_strlit("None");
    reveal_strlit("Pop");
    reveal_strlit("LoadLocal");
    reveal_strlit("StoreLocal");
    reveal_strlit("LoadGlobal");
    reveal_strlit("StoreGlobal");
    reveal_strlit("Add");
    reveal_strlit("Sub");
    reveal_strlit("Mul");
    reveal_strlit("Div");
    reveal_strlit("TrueDiv");
    reveal_strlit("Mod");
    reveal_strlit("Neg");
    reveal_strlit("Pos");
    reveal_strlit("Eq");
    reveal_strlit("Ne");
    reveal_strlit("Lt");
    reveal_strlit("Le");
    reveal_strlit("Gt");
    reveal_strlit("Ge");
    reveal_strlit("Not");
    reveal_strlit("Jump");
    reveal_strlit("JumpIfFalse");
    reveal_strlit("JumpIfTrue");
    reveal_strlit("Call");
    reveal_strlit("CallBuiltin");
    reveal_strlit("Return");
    reveal_strlit("CallValue");
    reveal_strlit("CallMethod");
    reveal_strlit("LoadAttr");
    reveal_strlit("StoreAttr");
    reveal_strlit("BuildList");
    reveal_strlit("BuildDict");
    reveal_strlit("LoadIndex");
    reveal_strlit("StoreIndex");
    reveal_strlit("MakeClosure");
    let x = instr_name(a);
    let y = instr_name(b);
    assert(x.len() == y.len());
    assert(x.len() > 0 ==> x[0] == y[0]);
    assert(x.len() > 1 ==> x[1] == y[1]);
    assert(x.len() > 2 ==> x[2] == y[2]);
    assert(x.len() > 3 ==> x[3] == y[3]);
    assert(x.len() > 4 ==> x[4] == y[4]);
    assert(x.len() > 5 ==> x[5] == y[5]);
    assert(x.len() > 6 ==> x[6] == y[6]);
    assert(x.len() > 7 ==> x[7] == y[7]);
    assert(x.len() > 8 ==> x[8] == y[8]);
    assert(x.len() > 9 ==> x[9] == y[9]);
    assert(x.len() > 10 ==> x[10] == y[10]);
}

/// The offset of a conditional jump.
pub open spec fn cond_offset(ins: Instruction) -> i32 {
    match ins {
        Instruction::JumpIfFalse(off) => off,
        Instruction::JumpIfTrue(off) => off,
        _ => 0,
    }
}

/// The listing's names of the two conditional jumps say what the machine
/// does with them: the one listed as `JumpIfFalse` jumps when the condition
/// is false and goes on when it is true, the one listed as `JumpIfTrue` the
/// other way round; in both the condition is popped.
pub proof fn law_conditional_jump_names_match_the_machine(ins: Instruction, next: usize, l: Seq<Value>, max: nat)
    requires
        ins is JumpIfFalse || ins is JumpIfTrue,
    ensures
        instr_name(ins) == "JumpIfFalse"@ ==> instr_step(ins, next, seq![Value::Bool(false)], l, max)
            == Some(Some((jump_target(next, cond_offset(ins)), Seq::<Value>::empty(), l)))
            && instr_step(ins, next, seq![Value::Bool(true)], l, max) == Some(Some((next, Seq::<Value>::empty(), l))),
        instr_name(ins) == "JumpIfTrue"@ ==> instr_step(ins, next, seq![Value::Bool(true)], l, max)
            == Some(Some((jump_target(next, cond_offset(ins)), Seq::<Value>::empty(), l)))
            && instr_step(ins, next, seq![Value::Bool(false)], l, max) == Some(Some((next, Seq::<Value>::empty(), l))),
{
    reveal_strlit("JumpIfFalse");
    reveal_strlit("JumpIfTrue");
    assert("JumpIfFalse"@[6] != "JumpIfTrue"@[6]);
    assert(seq![Value::Bool(false)].drop_last() =~= Seq::<Value>::empty());
    assert(seq![Value::Bool(true)].drop_last() =~= Seq::<Value>::empty());
}

/// The offset of a jump, of any of the three kinds.
pub open spec fn jump_offset(ins: Instruction) -> Option<i32> {
    match ins {
        Instruction::Jump(off) => Some(off),
        Instruction::JumpIfFalse(off) => Some(off),
        Instruction::JumpIfTrue(off) => Some(off),
        _ => None,
    }
}

proof fn lemma_patched_keeps_kinds(code: Seq<Instruction>, ps: Seq<usize>, target: int)
    ensures
        patched_all(code, ps, target).len() == code.len(),
        forall|k: int| 0 <= k < code.len() ==> (jump_offset(#[trigger] patched_all(code, ps, target)[k]) is Some
            <==> jump_offset(code[k]) is Some),
    decreases ps.len(),
{
    if ps.len() > 0 {
        lemma_patched_keeps_kinds(code, ps.drop_last(), target);
    }
}

/// Pointing a set of jumps at a target makes each of them land there: in
/// the patched code, the jump at every listed position has the offset that
/// leads from just after it to the target (where that offset fits in an
/// `i32`). The compiler points the jumps of `break` at the end of their
/// loop and those of `continue` at its start this way.
pub proof fn law_patched_jumps_land_at_target(code: Seq<Instruction>, ps: Seq<usize>, target: int, j: int)
    requires
        0 <= j < ps.len(),
        (ps[j] as int) < code.len(),
        jump_offset(code[ps[j] as int]) is Some,
        i32::MIN <= target - ps[j] - 1 <= i32::MAX,
    ensures
        jump_offset(patched_all(code, ps, target)[ps[j] as int]) matches Some(off) && ps[j] + 1 + off == target,
    decreases ps.len(),
{
    lemma_patched_keeps_kinds(code, ps.drop_last(), target);
    let inner = patched_all(code, ps.drop_last(), target);
    let p = ps.last() as int;
    if p == ps[j] as int {
        assert(jump_offset(inner[p]) is Some);
    } else {
        law_patched_jumps_land_at_target(code, ps.drop_last(), target, j);
        assert(ps.drop_last()[j] == ps[j]);
    }
}


/// Where `a` holds no `e` or `E`, the exponent of `a + b` starts where that
/// of `b` does, shifted by the length of `a`.
proof fn lemma_exp_index_after(a: Seq<char>, b: Seq<char>)
    requires
        forall|k: int| 0 <= k < a.len() ==> #[trigger] a[k] != 'e' && a[k] != 'E',
    ensures
        exp_index(a + b) == a.len() + exp_index(b),
    decreases a.len(),
{
    if a.len() == 0 {
        assert(a + b =~= b);
    } else {
        assert((a + b)[0] == a[0]);
        assert((a + b).drop_first() =~= a.drop_first() + b);
        lemma_exp_index_after(a.drop_first(), b);
    }
}

/// Where `a` holds no `.`, the first point of `a + b` is that of `b`,
/// shifted by the length of `a`.
proof fn lemma_dot_index_after(a: Seq<char>, b: Seq<char>)
    requires
        forall|k: int| 0 <= k < a.len() ==> #[trigger] a[k] != '.',
    ensures
        dot_index(a + b) == a.len() + dot_index(b),
    decreases a.len(),
{
    if a.len() == 0 {
        assert(a + b =~= b);
    } else {
        assert((a + b)[0] == a[0]);
        assert((a + b).drop_first() =~= a.drop_first() + b);
        lemma_dot_index_after(a.drop_first(), b);
    }
}

/// `int()` of a float literal: for whole digits `ip`, fraction digits `fp`
/// and an exponent `ex` (nothing, or `e`/`E`, an optional sign and digits),
/// the text `ip.fp` followed by `ex` is a float literal, and its integer
/// part is the number that all its digits make, moved by the exponent less
/// the count of fraction digits, rounded toward zero and held at
/// `i64::MAX`. Without an exponent that is the number the whole digits make:
/// the fraction digits are dropped and no whole digit is.
pub proof fn law_int_of_a_float_literal(ip: Seq<char>, fp: Seq<char>, ex: Seq<char>)
    requires
        ip.len() > 0,
        fp.len() > 0,
        all_digits(ip),
        all_digits(fp),
        exponent_value(ex) is Some,
    ensures
        float_literal(ip + seq!['.'] + fp + ex),
        float_int(ip + seq!['.'] + fp + ex)
            == held(shifted_floor(digits_value(ip + fp), exponent_value(ex)->0 - fp.len())),
        ex.len() == 0 ==> float_int(ip + seq!['.'] + fp + ex) == held(digits_value(ip)),
{
    let m = ip + seq!['.'] + fp;
    let t = m + ex;
    assert(ip + seq!['.'] + fp + ex == t);
    assert forall|k: int| 0 <= k < m.len() implies #[trigger] m[k] != 'e' && m[k] != 'E' by {
        if k < ip.len() {
            assert(m[k] == ip[k]);
            assert(is_ascii_digit(ip[k]));
        } else if k > ip.len() {
            assert(m[k] == fp[k - ip.len() - 1]);
            assert(is_ascii_digit(fp[k - ip.len() - 1]));
        }
    }
    lemma_exp_index_after(m, ex);
    assert(exp_index(ex) == 0);
    assert(exp_index(t) == m.len());
    assert(mantissa(t) =~= m);
    assert(t.skip(exp_index(t) as int) =~= ex);
    assert forall|k: int| 0 <= k < ip.len() implies #[trigger] ip[k] != '.' by {
        assert(is_ascii_digit(ip[k]));
    }
    lemma_dot_index_after(ip, seq!['.'] + fp);
    assert((seq!['.'] + fp)[0] == '.');
    assert(dot_index(seq!['.'] + fp) == 0);
    assert(m =~= ip + (seq!['.'] + fp));
    assert(dot_index(m) == ip.len());
    assert(whole_digits(t) =~= ip);
    assert(fraction_digits(t) =~= fp);
    if ex.len() == 0 {
        let d = ip + fp;
        lemma_digits_split(d, ip.len() as int);
        assert(d.take(ip.len() as int) =~= ip);
        assert(d.skip(ip.len() as int) =~= fp);
        lemma_digits_below(fp);
        lemma_pow10_positive(fp.len());
        let a = digits_value(ip);
        let b = digits_value(fp);
        let p = pow10(fp.len());
        assert(d.len() - ip.len() == fp.len());
        assert(digits_value(d) == a * p + b);
        assert((a * p + b) / p == a) by (nonlinear_arith)
            requires p > 0, b < p;
        assert(shifted_floor(digits_value(d), 0 - fp.len()) == digits_value(d) / p);
    }
}


/// `int(x)` of a float `x` written `ip.fp` with an exponent `ex` (nothing,
/// or `e`/`E`, an optional sign and digits) succeeds with the integer part of
/// the number: all its digits moved by the exponent less the count of
/// fraction digits, rounded toward zero and held at `i64::MAX`; without an
/// exponent, the number the whole digits make.
pub proof fn law_int_call_truncates_a_float(heap: Seq<Object>, x: String, ip: Seq<char>, fp: Seq<char>,
    ex: Seq<char>, r: Result<Value, VmError>)
    requires
        ip.len() > 0,
        fp.len() > 0,
        all_digits(ip),
        all_digits(fp),
        exponent_value(ex) is Some,
        x@ == ip + seq!['.'] + fp + ex,
        int_call_spec(heap, seq![Value::Float(x)], r),
    ensures
        r == Ok::<Value, VmError>(Value::Int(held(shifted_floor(digits_value(ip + fp), exponent_value(ex)->0 - fp.len())))),
        ex.len() == 0 ==> r == Ok::<Value, VmError>(Value::Int(held(digits_value(ip)))),
{
    law_int_of_a_float_literal(ip, fp, ex);
}

} // verus!
