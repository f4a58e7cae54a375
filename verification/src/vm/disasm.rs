//! A readable listing of a compiled module: its symbols, constants,
//! classes and the instructions of each function.

use vstd::prelude::*;
use crate::builtins::class_type_name;
use crate::text::{decimal_digits, int_text, i64_to_string, u64_to_string};
use vstd::string::StrSliceExecFns;
use crate::vm::bytecode::{ClassDef, FunctionCode, Instruction, Module, Value};
use crate::vm::machine::{instr_wf, module_wf};

verus! {

/// The decimal text of a natural number.
pub open spec fn nat_text(n: nat) -> Seq<char> {
    decimal_digits(n)
}

/// The name of an instruction, as its variant is called.
pub open spec fn instr_name(ins: Instruction) -> Seq<char> {
    match ins {
        Instruction::ConstI64(_) => "ConstI64"@,
        Instruction::ConstF64(_) => "ConstF64"@,
        Instruction::ConstStr(_) => "ConstStr"@,
        Instruction::LoadConst(_) => "LoadConst"@,
        Instruction::True => "True"@,
        Instruction::False => "False"@,
        Instruction::PushNone => "None"@,
        Instruction::Pop => "Pop"@,
        Instruction::LoadLocal(_) => "LoadLocal"@,
        Instruction::StoreLocal(_) => "StoreLocal"@,
        Instruction::LoadGlobal(_) => "LoadGlobal"@,
        Instruction::StoreGlobal(_) => "StoreGlobal"@,
        Instruction::Add => "Add"@,
        Instruction::Sub => "Sub"@,
        Instruction::Mul => "Mul"@,
        Instruction::Div => "Div"@,
        Instruction::TrueDiv => "TrueDiv"@,
        Instruction::Mod => "Mod"@,
        Instruction::Neg => "Neg"@,
        Instruction::Pos => "Pos"@,
        Instruction::Eq => "Eq"@,
        Instruction::Ne => "Ne"@,
        Instruction::Lt => "Lt"@,
        Instruction::Le => "Le"@,
        Instruction::Gt => "Gt"@,
        Instruction::Ge => "Ge"@,
        Instruction::Not => "Not"@,
        Instruction::Jump(_) => "Jump"@,
        Instruction::JumpIfFalse(_) => "JumpIfFalse"@,
        Instruction::JumpIfTrue(_) => "JumpIfTrue"@,
        Instruction::Call(_, _) => "Call"@,
        Instruction::CallBuiltin(_, _) => "CallBuiltin"@,
        Instruction::Return => "Return"@,
        Instruction::CallValue(_) => "CallValue"@,
        Instruction::CallMethod(_, _) => "CallMethod"@,
        Instruction::LoadAttr(_) => "LoadAttr"@,
        Instruction::StoreAttr(_) => "StoreAttr"@,
        Instruction::BuildList(_) => "BuildList"@,
        Instruction::BuildDict(_) => "BuildDict"@,
        Instruction::LoadIndex => "LoadIndex"@,
        Instruction::StoreIndex => "StoreIndex"@,
        Instruction::MakeClosure(_, _) => "MakeClosure"@,
    }
}

/// A name in double quotes.
pub open spec fn quoted(s: Seq<char>) -> Seq<char> {
    "\""@ + s + "\""@
}

/// The name of a function of the module.
pub open spec fn function_name(m: Module, f: int) -> Seq<char> {
    m.symbols@[m.functions@[f].name_sym as int]@
}

/// Whether every index the listing looks up names an entry of the module.
pub open spec fn listable(m: Module) -> bool {
    &&& module_wf(m)
    &&& forall|f: int| 0 <= f < m.functions@.len() ==> ((#[trigger] m.functions@[f]).name_sym as int) < m.symbols@.len()
    &&& forall|f: int, k: int| 0 <= f < m.functions@.len() && 0 <= k < m.functions@[f].code@.len()
        ==> #[trigger] globals_listable(m, m.functions@[f].code@[k])
}

/// Whether the symbol of a global access is a symbol of the module.
pub open spec fn globals_listable(m: Module, ins: Instruction) -> bool {
    match ins {
        Instruction::LoadGlobal(i) => (i as int) < m.symbols@.len(),
        Instruction::StoreGlobal(i) => (i as int) < m.symbols@.len(),
        _ => true,
    }
}

/// The listing of one instruction.
pub open spec fn instr_text(m: Module, ins: Instruction) -> Seq<char> {
    let name = instr_name(ins);
    match ins {
        Instruction::ConstI64(n) => name + " "@ + int_text(n as int),
        Instruction::ConstF64(t) => name + " "@ + t@,
        Instruction::ConstStr(i) => name + " "@ + nat_text(i as nat) + " ("@ + quoted(m.string_pool@[i as int]@) + ")"@,
        Instruction::LoadConst(i) => name + " "@ + nat_text(i as nat),
        Instruction::LoadLocal(i) => name + " "@ + nat_text(i as nat),
        Instruction::StoreLocal(i) => name + " "@ + nat_text(i as nat),
        Instruction::LoadGlobal(i) => name + " "@ + nat_text(i as nat) + " ("@ + quoted(m.symbols@[i as int]@) + ")"@,
        Instruction::StoreGlobal(i) => name + " "@ + nat_text(i as nat) + " ("@ + quoted(m.symbols@[i as int]@) + ")"@,
        Instruction::Jump(o) => name + " "@ + int_text(o as int),
        Instruction::JumpIfFalse(o) => name + " "@ + int_text(o as int),
        Instruction::JumpIfTrue(o) => name + " "@ + int_text(o as int),
        Instruction::Call(f, a) => name + " "@ + nat_text(f as nat) + " (func #"@ + nat_text(f as nat) + " "@
            + quoted(function_name(m, f as int)) + ", argc="@ + nat_text(a as nat) + ")"@,
        Instruction::CallBuiltin(b, a) => name + " "@ + nat_text(b as nat) + " (argc="@ + nat_text(a as nat) + ")"@,
        Instruction::CallValue(a) => name + " (argc="@ + nat_text(a as nat) + ")"@,
        Instruction::CallMethod(s, a) => name + " "@ + nat_text(s as nat) + " ("@ + quoted(m.symbols@[s as int]@)
            + ", argc="@ + nat_text(a as nat) + ")"@,
        Instruction::LoadAttr(s) => name + " "@ + nat_text(s as nat) + " ("@ + quoted(m.symbols@[s as int]@) + ")"@,
        Instruction::StoreAttr(s) => name + " "@ + nat_text(s as nat) + " ("@ + quoted(m.symbols@[s as int]@) + ")"@,
        Instruction::BuildList(c) => name + " (count="@ + nat_text(c as nat) + ")"@,
        Instruction::BuildDict(c) => name + " (count="@ + nat_text(c as nat) + ")"@,
        Instruction::MakeClosure(f, n) => name + " "@ + nat_text(f as nat) + " (func #"@ + nat_text(f as nat) + " "@
            + quoted(function_name(m, f as int)) + ", captures="@ + nat_text(n as nat) + ")"@,
        _ => name,
    }
}

/// A number right-aligned in four columns.
pub open spec fn pad4(t: Seq<char>) -> Seq<char> {
    if t.len() >= 4 { t } else { Seq::new((4 - t.len()) as nat, |i: int| ' ') + t }
}

/// The listing of the first `n` instructions of a function.
pub open spec fn code_text(m: Module, code: Seq<Instruction>, n: int) -> Seq<char>
    decreases n,
{
    if n <= 0 {
        Seq::empty()
    } else {
        code_text(m, code, n - 1) + "    "@ + pad4(nat_text((n - 1) as nat)) + ": "@ + instr_text(m, code[n - 1]) + "\n"@
    }
}

/// The listing of one function of the module.
pub open spec fn function_text(m: Module, id: nat, f: FunctionCode) -> Seq<char> {
    "Function #"@ + nat_text(id) + " - "@ + m.symbols@[f.name_sym as int]@ + " (arity="@ + nat_text(f.arity as nat)
        + ", locals="@ + nat_text(f.num_locals as nat) + ")\n  Instructions:\n"@ + code_text(m, f.code@, f.code@.len() as int)
}

/// How a constant is listed.
pub open spec fn const_text(v: Value) -> Seq<char> {
    match v {
        Value::Int(i) => "Int("@ + int_text(i as int) + ")"@,
        Value::Bool(b) => if b { "Bool(true)"@ } else { "Bool(false)"@ },
        Value::NoneVal => "None"@,
        Value::Float(t) => "Float("@ + t@ + ")"@,
        Value::Str(s) => "Str("@ + quoted(s@) + ")"@,
        Value::Class(id) => "Class("@ + nat_text(id as nat) + ")"@,
        Value::BuiltinClass(t) => "BuiltinClass("@ + class_type_name(t) + ")"@,
        Value::Ref(r) => "Ref("@ + nat_text(r as nat) + ")"@,
    }
}

/// The method table of a class, as `[("name", id), ...]`.
pub open spec fn methods_text(ms: Seq<(String, u16)>, n: int) -> Seq<char>
    decreases n,
{
    if n <= 0 {
        Seq::empty()
    } else {
        methods_text(ms, n - 1) + (if n > 1 { ", "@ } else { Seq::empty() }) + "("@ + quoted(ms[n - 1].0@) + ", "@
            + nat_text(ms[n - 1].1 as nat) + ")"@
    }
}

/// The listing of the first `n` symbols.
pub open spec fn symbols_text(syms: Seq<String>, n: int) -> Seq<char>
    decreases n,
{
    if n <= 0 { Seq::empty() } else { symbols_text(syms, n - 1) + "  "@ + nat_text((n - 1) as nat) + ": "@ + quoted(syms[n - 1]@) + "\n"@ }
}

/// The listing of the first `n` constants.
pub open spec fn consts_text(cs: Seq<Value>, n: int) -> Seq<char>
    decreases n,
{
    if n <= 0 { Seq::empty() } else { consts_text(cs, n - 1) + "  "@ + nat_text((n - 1) as nat) + ": "@ + const_text(cs[n - 1]) + "\n"@ }
}

/// The listing of the first `n` classes.
pub open spec fn classes_text(cs: Seq<ClassDef>, n: int) -> Seq<char>
    decreases n,
{
    if n <= 0 {
        Seq::empty()
    } else {
        classes_text(cs, n - 1) + "  "@ + nat_text((n - 1) as nat) + ": "@ + cs[n - 1].name@ + " - methods: ["@
            + methods_text(cs[n - 1].methods@, cs[n - 1].methods@.len() as int) + "]\n"@
    }
}

/// The listing of the first `n` functions, each followed by an empty line.
pub open spec fn functions_text(m: Module, n: int) -> Seq<char>
    decreases n,
{
    if n <= 0 { Seq::empty() } else { functions_text(m, n - 1) + function_text(m, (n - 1) as nat, m.functions@[n - 1]) + "\n"@ }
}

/// The listing of a whole module.
pub open spec fn module_text(m: Module) -> Seq<char> {
    "=== Module Disassembly ===\n\nSymbols ("@ + nat_text(m.symbols@.len()) + "):\n"@
        + symbols_text(m.symbols@, m.symbols@.len() as int)
        + "\nConstants ("@ + nat_text(m.consts@.len()) + "):\n"@ + consts_text(m.consts@, m.consts@.len() as int)
        + "\nClasses ("@ + nat_text(m.classes@.len()) + "):\n"@ + classes_text(m.classes@, m.classes@.len() as int)
        + "\nFunctions ("@ + nat_text(m.functions@.len()) + "):\n"@ + functions_text(m, m.functions@.len() as int)
}

/// Whether every function's name is a symbol of the module.
pub open spec fn names_listable(m: Module) -> bool {
    forall|f: int| 0 <= f < m.functions@.len() ==> ((#[trigger] m.functions@[f]).name_sym as int) < m.symbols@.len()
}

fn instr_name_str(ins: &Instruction) -> (r: &'static str)
    ensures
        r@ == instr_name(*ins),
{
    match ins {
        Instruction::ConstI64(_) => "ConstI64",
        Instruction::ConstF64(_) => "ConstF64",
        Instruction::ConstStr(_) => "ConstStr",
        Instruction::LoadConst(_) => "LoadConst",
        Instruction::True => "True",
        Instruction::False => "False",
        Instruction::PushNone => "None",
        Instruction::Pop => "Pop",
        Instruction::LoadLocal(_) => "LoadLocal",
        Instruction::StoreLocal(_) => "StoreLocal",
        Instruction::LoadGlobal(_) => "LoadGlobal",
        Instruction::StoreGlobal(_) => "StoreGlobal",
        Instruction::Add => "Add",
        Instruction::Sub => "Sub",
        Instruction::Mul => "Mul",
        Instruction::Div => "Div",
        Instruction::TrueDiv => "TrueDiv",
        Instruction::Mod => "Mod",
        Instruction::Neg => "Neg",
        Instruction::Pos => "Pos",
        Instruction::Eq => "Eq",
        Instruction::Ne => "Ne",
        Instruction::Lt => "Lt",
        Instruction::Le => "Le",
        Instruction::Gt => "Gt",
        Instruction::Ge => "Ge",
        Instruction::Not => "Not",
        Instruction::Jump(_) => "Jump",
        Instruction::JumpIfFalse(_) => "JumpIfFalse",
        Instruction::JumpIfTrue(_) => "JumpIfTrue",
        Instruction::Call(_, _) => "Call",
        Instruction::CallBuiltin(_, _) => "CallBuiltin",
        Instruction::Return => "Return",
        Instruction::CallValue(_) => "CallValue",
        Instruction::CallMethod(_, _) => "CallMethod",
        Instruction::LoadAttr(_) => "LoadAttr",
        Instruction::StoreAttr(_) => "StoreAttr",
        Instruction::BuildList(_) => "BuildList",
        Instruction::BuildDict(_) => "BuildDict",
        Instruction::LoadIndex => "LoadIndex",
        Instruction::StoreIndex => "StoreIndex",
        Instruction::MakeClosure(_, _) => "MakeClosure",
    }
}

fn append_num(out: &mut String, n: u64)
    ensures
        final(out)@ == old(out)@ + nat_text(n as nat),
{
    let t = u64_to_string(n);
    out.append(t.as_str());
}

fn append_quoted(out: &mut String, s: &str)
    ensures
        final(out)@ == old(out)@ + quoted(s@),
{
    out.append("\"");
    out.append(s);
    out.append("\"");
    assert(out@ =~= old(out)@ + quoted(s@));
}

/// Tests `listable`.
pub fn is_listable(m: &Module) -> (r: bool)
    ensures
        r == listable(*m),
{
    if !crate::vm::machine::check_module(m) {
        return false;
    }
    let mut f: usize = 0;
    while f < m.functions.len()
        invariant
            f <= m.functions.len(),
            forall|g: int| 0 <= g < f ==> ((#[trigger] m.functions@[g]).name_sym as int) < m.symbols@.len(),
            forall|g: int, k: int| 0 <= g < f && 0 <= k < m.functions@[g].code@.len()
                ==> #[trigger] globals_listable(*m, m.functions@[g].code@[k]),
        decreases m.functions.len() - f,
    {
        if (m.functions[f].name_sym as usize) >= m.symbols.len() {
            return false;
        }
        let mut k: usize = 0;
        while k < m.functions[f].code.len()
            invariant
                f < m.functions.len(),
                k <= m.functions@[f as int].code@.len(),
                forall|j: int| 0 <= j < k ==> #[trigger] globals_listable(*m, m.functions@[f as int].code@[j]),
            decreases m.functions@[f as int].code@.len() - k,
        {
            match &m.functions[f].code[k] {
                Instruction::LoadGlobal(i) => {
                    if (*i as usize) >= m.symbols.len() {
                        assert(!globals_listable(*m, m.functions@[f as int].code@[k as int]));
                        return false;
                    }
                },
                Instruction::StoreGlobal(i) => {
                    if (*i as usize) >= m.symbols.len() {
                        assert(!globals_listable(*m, m.functions@[f as int].code@[k as int]));
                        return false;
                    }
                },
                _ => {},
            }
            k = k + 1;
        }
        f = f + 1;
    }
    true
}

/// The listing of one instruction.
pub fn disassemble_instruction(m: &Module, ins: &Instruction) -> (r: String)
    requires
        instr_wf(*m, *ins),
        globals_listable(*m, *ins),
        names_listable(*m),
    ensures
        r@ == instr_text(*m, *ins),
{
    let mut s = instr_name_str(ins).to_owned();
    match ins {
        Instruction::ConstI64(n) => {
            s.append(" ");
            let t = i64_to_string(*n);
            s.append(t.as_str());
        },
        Instruction::ConstF64(t) => {
            s.append(" ");
            s.append(t.as_str());
        },
        Instruction::ConstStr(i) => {
            s.append(" ");
            append_num(&mut s, *i as u64);
            s.append(" (");
            append_quoted(&mut s, m.string_pool[*i as usize].as_str());
            s.append(")");
        },
        Instruction::LoadConst(i) => {
            s.append(" ");
            append_num(&mut s, *i as u64);
        },
        Instruction::LoadLocal(i) | Instruction::StoreLocal(i) => {
            s.append(" ");
            append_num(&mut s, *i as u64);
        },
        Instruction::LoadGlobal(i) | Instruction::StoreGlobal(i) | Instruction::LoadAttr(i) | Instruction::StoreAttr(i) => {
            s.append(" ");
            append_num(&mut s, *i as u64);
            s.append(" (");
            append_quoted(&mut s, m.symbols[*i as usize].as_str());
            s.append(")");
        },
        Instruction::Jump(o) | Instruction::JumpIfFalse(o) | Instruction::JumpIfTrue(o) => {
            s.append(" ");
            let t = i64_to_string(*o as i64);
            s.append(t.as_str());
        },
        Instruction::Call(f, a) => {
            s.append(" ");
            append_num(&mut s, *f as u64);
            s.append(" (func #");
            append_num(&mut s, *f as u64);
            s.append(" ");
            let fname = m.symbols[m.functions[*f as usize].name_sym as usize].as_str();
            append_quoted(&mut s, fname);
            s.append(", argc=");
            append_num(&mut s, *a as u64);
            s.append(")");
        },
        Instruction::MakeClosure(f, n) => {
            s.append(" ");
            append_num(&mut s, *f as u64);
            s.append(" (func #");
            append_num(&mut s, *f as u64);
            s.append(" ");
            let fname = m.symbols[m.functions[*f as usize].name_sym as usize].as_str();
            append_quoted(&mut s, fname);
            s.append(", captures=");
            append_num(&mut s, *n as u64);
            s.append(")");
        },
        Instruction::CallBuiltin(b, a) => {
            s.append(" ");
            append_num(&mut s, *b as u64);
            s.append(" (argc=");
            append_num(&mut s, *a as u64);
            s.append(")");
        },
        Instruction::CallValue(a) => {
            s.append(" (argc=");
            append_num(&mut s, *a as u64);
            s.append(")");
        },
        Instruction::CallMethod(sym, a) => {
            s.append(" ");
            append_num(&mut s, *sym as u64);
            s.append(" (");
            append_quoted(&mut s, m.symbols[*sym as usize].as_str());
            s.append(", argc=");
            append_num(&mut s, *a as u64);
            s.append(")");
        },
        Instruction::BuildList(c) | Instruction::BuildDict(c) => {
            s.append(" (count=");
            append_num(&mut s, *c as u64);
            s.append(")");
        },
        _ => {},
    }
    s
}

fn pad4_num(n: usize) -> (r: String)
    ensures
        r@ == pad4(nat_text(n as nat)),
{
    let t = u64_to_string(n as u64);
    let len = t.as_str().unicode_len();
    let mut r = String::new();
    if len == 1 {
        r.append("   ");
        proof { reveal_strlit("   "); }
        assert(Seq::new(3nat, |i: int| ' ') =~= "   "@);
    } else if len == 2 {
        r.append("  ");
        proof { reveal_strlit("  "); }
        assert(Seq::new(2nat, |i: int| ' ') =~= "  "@);
    } else if len == 3 {
        r.append(" ");
        proof { reveal_strlit(" "); }
        assert(Seq::new(1nat, |i: int| ' ') =~= " "@);
    } else if len == 0 {
        r.append("    ");
        proof { reveal_strlit("    "); }
        assert(Seq::new(4nat, |i: int| ' ') =~= "    "@);
    }
    r.append(t.as_str());
    r
}

/// The listing of one function of the module.
pub fn disassemble_function_to_string(m: &Module, func_id: usize, func: &FunctionCode) -> (r: String)
    requires
        names_listable(*m),
        (func.name_sym as int) < m.symbols@.len(),
        forall|k: int| 0 <= k < func.code@.len() ==> #[trigger] instr_wf(*m, func.code@[k]) && globals_listable(*m, func.code@[k]),
    ensures
        r@ == function_text(*m, func_id as nat, *func),
{
    let mut s = "Function #".to_owned();
    append_num(&mut s, func_id as u64);
    s.append(" - ");
    s.append(m.symbols[func.name_sym as usize].as_str());
    s.append(" (arity=");
    append_num(&mut s, func.arity as u64);
    s.append(", locals=");
    append_num(&mut s, func.num_locals as u64);
    s.append(")\n  Instructions:\n");
    let ghost head = s@;
    let mut k: usize = 0;
    while k < func.code.len()
        invariant
            k <= func.code.len(),
            s@ == head + code_text(*m, func.code@, k as int),
            names_listable(*m),
            forall|j: int| 0 <= j < func.code@.len() ==> #[trigger] instr_wf(*m, func.code@[j]) && globals_listable(*m, func.code@[j]),
        decreases func.code.len() - k,
    {
        let ghost before = s@;
        s.append("    ");
        let p = pad4_num(k);
        s.append(p.as_str());
        s.append(": ");
        assert(instr_wf(*m, func.code@[k as int]) && globals_listable(*m, func.code@[k as int]));
        let t = disassemble_instruction(m, &func.code[k]);
        s.append(t.as_str());
        s.append("\n");
        assert(s@ =~= head + code_text(*m, func.code@, k + 1));
        k = k + 1;
    }
    assert(s@ =~= function_text(*m, func_id as nat, *func));
    s
}

fn const_string(v: &Value) -> (r: String)
    ensures
        r@ == const_text(*v),
{
    match v {
        Value::Int(i) => {
            let mut s = "Int(".to_owned();
            let t = i64_to_string(*i);
            s.append(t.as_str());
            s.append(")");
            s
        },
        Value::Bool(b) => if *b { "Bool(true)".to_owned() } else { "Bool(false)".to_owned() },
        Value::NoneVal => "None".to_owned(),
        Value::Float(t) => {
            let mut s = "Float(".to_owned();
            s.append(t.as_str());
            s.append(")");
            s
        },
        Value::Str(t) => {
            let mut s = "Str(".to_owned();
            append_quoted(&mut s, t.as_str());
            s.append(")");
            s
        },
        Value::Class(id) => {
            let mut s = "Class(".to_owned();
            append_num(&mut s, *id as u64);
            s.append(")");
            s
        },
        Value::BuiltinClass(t) => {
            let mut s = "BuiltinClass(".to_owned();
            s.append(t.name());
            s.append(")");
            s
        },
        Value::Ref(r) => {
            let mut s = "Ref(".to_owned();
            append_num(&mut s, *r as u64);
            s.append(")");
            s
        },
    }
}

fn methods_string(ms: &Vec<(String, u16)>) -> (r: String)
    ensures
        r@ == methods_text(ms@, ms@.len() as int),
{
    let mut s = String::new();
    let mut k: usize = 0;
    while k < ms.len()
        invariant
            k <= ms.len(),
            s@ == methods_text(ms@, k as int),
        decreases ms.len() - k,
    {
        if k > 0 {
            s.append(", ");
        }
        s.append("(");
        append_quoted(&mut s, ms[k].0.as_str());
        s.append(", ");
        append_num(&mut s, ms[k].1 as u64);
        s.append(")");
        assert(s@ =~= methods_text(ms@, k + 1));
        k = k + 1;
    }
    s
}

/// The listing of a whole module: symbols, constants, classes and
/// functions, each section headed by its size.
pub fn disassemble_module_to_string(m: &Module) -> (r: String)
    requires
        listable(*m),
    ensures
        r@ == module_text(*m),
{
    let mut s = "=== Module Disassembly ===\n\nSymbols (".to_owned();
    append_num(&mut s, m.symbols.len() as u64);
    s.append("):\n");
    let ghost h1 = s@;
    let mut k: usize = 0;
    while k < m.symbols.len()
        invariant
            k <= m.symbols.len(),
            s@ == h1 + symbols_text(m.symbols@, k as int),
        decreases m.symbols.len() - k,
    {
        s.append("  ");
        append_num(&mut s, k as u64);
        s.append(": ");
        append_quoted(&mut s, m.symbols[k].as_str());
        s.append("\n");
        assert(s@ =~= h1 + symbols_text(m.symbols@, k + 1));
        k = k + 1;
    }
    s.append("\nConstants (");
    append_num(&mut s, m.consts.len() as u64);
    s.append("):\n");
    let ghost h2 = s@;
    let mut k: usize = 0;
    while k < m.consts.len()
        invariant
            k <= m.consts.len(),
            s@ == h2 + consts_text(m.consts@, k as int),
        decreases m.consts.len() - k,
    {
        s.append("  ");
        append_num(&mut s, k as u64);
        s.append(": ");
        let c = const_string(&m.consts[k]);
        s.append(c.as_str());
        s.append("\n");
        assert(s@ =~= h2 + consts_text(m.consts@, k + 1));
        k = k + 1;
    }
    s.append("\nClasses (");
    append_num(&mut s, m.classes.len() as u64);
    s.append("):\n");
    let ghost h3 = s@;
    let mut k: usize = 0;
    while k < m.classes.len()
        invariant
            k <= m.classes.len(),
            s@ == h3 + classes_text(m.classes@, k as int),
        decreases m.classes.len() - k,
    {
        s.append("  ");
        append_num(&mut s, k as u64);
        s.append(": ");
        s.append(m.classes[k].name.as_str());
        s.append(" - methods: [");
        let t = methods_string(&m.classes[k].methods);
        s.append(t.as_str());
        s.append("]\n");
        assert(s@ =~= h3 + classes_text(m.classes@, k + 1));
        k = k + 1;
    }
    s.append("\nFunctions (");
    append_num(&mut s, m.functions.len() as u64);
    s.append("):\n");
    let ghost h4 = s@;
    let mut k: usize = 0;
    while k < m.functions.len()
        invariant
            k <= m.functions.len(),
            listable(*m),
            s@ == h4 + functions_text(*m, k as int),
        decreases m.functions.len() - k,
    {
        assert(((m.functions@[k as int]).name_sym as int) < m.symbols@.len());
        assert forall|j: int| 0 <= j < m.functions@[k as int].code@.len() implies
            #[trigger] instr_wf(*m, m.functions@[k as int].code@[j]) && globals_listable(*m, m.functions@[k as int].code@[j]) by {
            assert(instr_wf(*m, m.functions@[k as int].code@[j]));
            assert(globals_listable(*m, m.functions@[k as int].code@[j]));
        }
        let t = disassemble_function_to_string(m, k, &m.functions[k]);
        s.append(t.as_str());
        s.append("\n");
        assert(s@ =~= h4 + functions_text(*m, k + 1));
        k = k + 1;
    }
    assert(s@ =~= module_text(*m));
    s
}

} // verus!
