//! An interactive session: each input line is parsed, analyzed with the
//! globals of earlier lines, compiled, merged into the session's module
//! and run.

use vstd::prelude::*;
use crate::builtins::str_eq;
use crate::driver::{analyze_with_globals, parse_source, Diagnostic};
use crate::vm::bytecode::{ClassDef, FunctionCode, Instruction, Module, Value};
use crate::vm::compiler::Compiler;
use crate::vm::machine::{check_module, clone_instr, lemma_same_program_wf, module_wf, type_id_spec, Vm};
use crate::vm::values::{trim, trim_spec};
use crate::runtime_io::{BufferIo, RuntimeIo};
use vstd::string::StringSliceAdditionalSpecFns;
use crate::ast::StmtS;
use crate::driver::parses_from;
use crate::grammar::stmts_view;
use crate::semantic::resolve::module_block_res;
use crate::semantic::typecheck::tc_run;

verus! {

/// The names a session has bound, in the order they were bound.
pub open spec fn session_names(symbols: Seq<(String, u16)>) -> Seq<Seq<char>> {
    symbols.map_values(|e: (String, u16)| e.0@)
}

/// Whether analysis, with the builtins and the given globals bound, does
/// not reject a program: name resolution succeeds and the type check does
/// not fail.
pub open spec fn analysis_admits(p: Seq<StmtS>, globals: Seq<Seq<char>>) -> bool {
    match module_block_res(p, seq![crate::builtins::registry_names() + globals], crate::builtins::registry_names(),
        Seq::empty()) {
        None => false,
        Some((_, fns)) => !(tc_run(p, p.len() as int, fns) matches Some(None)),
    }
}

/// Whether an input line parses to statements that analysis admits in a
/// session with the given globals.
pub open spec fn line_admitted(input: Seq<char>, globals: Seq<Seq<char>>) -> bool {
    exists|p: Seq<StmtS>| #[trigger] parses_from(input, stmts_view(p)) && analysis_admits(p, globals)
}

/// The id recorded for a name in a symbol table (the entry added last wins).
pub open spec fn symbol_lookup(t: Seq<(String, u16)>, name: Seq<char>) -> Option<u16>
    decreases t.len(),
{
    if t.len() == 0 {
        None
    } else if t.last().0@ == name {
        Some(t.last().1)
    } else {
        symbol_lookup(t.drop_last(), name)
    }
}

/// Every one of the first `k` strings of `strs` is in `pool`.
pub open spec fn pool_covers(pool: Seq<String>, strs: Seq<String>, k: int) -> bool {
    forall|j: int| 0 <= j < k ==> exists|i: int| 0 <= i < pool.len() && #[trigger] pool[i]@ == (#[trigger] strs[j])@
}

/// Every one of the first `k` names of `names` has an entry in the table.
pub open spec fn table_covers(t: Seq<(String, u16)>, names: Seq<String>, k: int) -> bool {
    forall|j: int| 0 <= j < k ==> symbol_lookup(t, (#[trigger] names[j])@) is Some
}

/// An index through a table of new indices; one the table does not cover
/// stays as it is.
pub open spec fn mapped16(m: Seq<u16>, i: u16) -> u16 {
    if (i as int) < m.len() { m[i as int] } else { i }
}

pub open spec fn mapped32(m: Seq<u32>, i: u32) -> u32 {
    if (i as int) < m.len() { m[i as int] } else { i }
}

/// An instruction with its symbol, string and function indices moved
/// through the given tables; other instructions are kept as they are.
pub open spec fn remap_spec(ins: Instruction, sm: Seq<u16>, stm: Seq<u32>, fm: Seq<u16>) -> Instruction {
    match ins {
        Instruction::ConstStr(i) => Instruction::ConstStr(mapped32(stm, i)),
        Instruction::LoadGlobal(i) => Instruction::LoadGlobal(mapped16(sm, i)),
        Instruction::StoreGlobal(i) => Instruction::StoreGlobal(mapped16(sm, i)),
        Instruction::Call(f, a) => Instruction::Call(mapped16(fm, f), a),
        Instruction::CallMethod(s, a) => Instruction::CallMethod(mapped16(sm, s), a),
        Instruction::LoadAttr(s) => Instruction::LoadAttr(mapped16(sm, s)),
        Instruction::StoreAttr(s) => Instruction::StoreAttr(mapped16(sm, s)),
        _ => ins,
    }
}

fn map16(m: &Vec<u16>, i: u16) -> (r: u16)
    ensures
        r == mapped16(m@, i),
{
    if (i as usize) < m.len() { m[i as usize] } else { i }
}

fn map32(m: &Vec<u32>, i: u32) -> (r: u32)
    ensures
        r == mapped32(m@, i),
{
    if (i as usize) < m.len() { m[i as usize] } else { i }
}

/// Moves the indices of an instruction through the tables of a merge.
pub fn remap_instruction(ins: &Instruction, symbol_map: &Vec<u16>, string_map: &Vec<u32>, func_map: &Vec<u16>) -> (r: Instruction)
    ensures
        r == remap_spec(*ins, symbol_map@, string_map@, func_map@),
{
    match ins {
        Instruction::ConstStr(i) => Instruction::ConstStr(map32(string_map, *i)),
        Instruction::LoadGlobal(i) => Instruction::LoadGlobal(map16(symbol_map, *i)),
        Instruction::StoreGlobal(i) => Instruction::StoreGlobal(map16(symbol_map, *i)),
        Instruction::Call(f, a) => Instruction::Call(map16(func_map, *f), *a),
        Instruction::CallMethod(s, a) => Instruction::CallMethod(map16(symbol_map, *s), *a),
        Instruction::LoadAttr(s) => Instruction::LoadAttr(map16(symbol_map, *s)),
        Instruction::StoreAttr(s) => Instruction::StoreAttr(map16(symbol_map, *s)),
        _ => clone_instr(ins),
    }
}

/// Moves every instruction of a code sequence through the tables.
fn remap_code(code: &Vec<Instruction>, symbol_map: &Vec<u16>, string_map: &Vec<u32>, func_map: &Vec<u16>) -> (r: Vec<Instruction>)
    ensures
        r@.len() == code@.len(),
        forall|k: int| 0 <= k < code@.len() ==> r@[k] == remap_spec(#[trigger] code@[k], symbol_map@, string_map@, func_map@),
{
    let mut out: Vec<Instruction> = Vec::new();
    let mut k: usize = 0;
    while k < code.len()
        invariant
            k <= code.len(),
            out@.len() == k,
            forall|j: int| 0 <= j < k ==> out@[j] == remap_spec(#[trigger] code@[j], symbol_map@, string_map@, func_map@),
        decreases code.len() - k,
    {
        out.push(remap_instruction(&code[k], symbol_map, string_map, func_map));
        k = k + 1;
    }
    out
}

/// The id recorded for a name in a symbol table.
pub fn find_symbol(t: &Vec<(String, u16)>, name: &str) -> (r: Option<u16>)
    ensures
        r == symbol_lookup(t@, name@),
{
    let mut i = t.len();
    assert(t@.subrange(0, i as int) =~= t@);
    while i > 0
        invariant
            i <= t.len(),
            symbol_lookup(t@, name@) == symbol_lookup(t@.subrange(0, i as int), name@),
        decreases i,
    {
        let ghost p = t@.subrange(0, i as int);
        assert(p.drop_last() =~= t@.subrange(0, i - 1));
        if str_eq(t[i - 1].0.as_str(), name) {
            return Some(t[i - 1].1);
        }
        i = i - 1;
    }
    None
}

/// The position of the first string of a pool equal to the given one.
fn pool_position(pool: &Vec<String>, s: &str) -> (r: Option<usize>)
    ensures
        r matches Some(i) ==> i < pool@.len() && pool@[i as int]@ == s@
            && forall|j: int| 0 <= j < i ==> pool@[j]@ != s@,
        r is None ==> forall|j: int| 0 <= j < pool@.len() ==> pool@[j]@ != s@,
{
    let mut i: usize = 0;
    while i < pool.len()
        invariant
            i <= pool.len(),
            forall|j: int| 0 <= j < i ==> pool@[j]@ != s@,
        decreases pool.len() - i,
    {
        if str_eq(pool[i].as_str(), s) {
            return Some(i);
        }
        i = i + 1;
    }
    None
}

proof fn lemma_lookup_in_table(t: Seq<(String, u16)>, name: Seq<char>)
    requires
        symbol_lookup(t, name) is Some,
    ensures
        exists|k: int| 0 <= k < t.len() && #[trigger] t[k].1 == symbol_lookup(t, name)->0,
    decreases t.len(),
{
    if t.last().0@ != name {
        lemma_lookup_in_table(t.drop_last(), name);
        let k = choose|k: int| 0 <= k < t.drop_last().len() && #[trigger] t.drop_last()[k].1 == symbol_lookup(t.drop_last(), name)->0;
        assert(t[k] == t.drop_last()[k]);
    } else {
        assert(t[t.len() - 1].1 == symbol_lookup(t, name)->0);
    }
}

proof fn lemma_lookup_grows(t: Seq<(String, u16)>, e: (String, u16), name: Seq<char>)
    requires
        symbol_lookup(t, name) is Some,
    ensures
        symbol_lookup(t.push(e), name) is Some,
{
    assert(t.push(e).drop_last() =~= t);
}


/// Whether a span falls within a text, on character boundaries.
pub open spec fn span_fits(s: &str, start: usize, end: usize) -> bool {
    &&& start <= end <= s.spec_bytes().len()
    &&& vstd::utf8::is_char_boundary(s.spec_bytes(), start as int)
    &&& vstd::utf8::is_char_boundary(s.spec_bytes(), end as int)
}

/// A diagnostic rendered against the input it points into; one whose span
/// does not fit the input is given by its message alone.
fn render_diagnostic(d: &Diagnostic, input: &str, kind: &str, code: usize) -> (r: String)
    ensures
        !span_fits(input, d.span.start, d.span.end) ==> r@ == d.message@,
{
    if d.span.start <= d.span.end && d.span.end <= input.len() && input.is_char_boundary(d.span.start)
        && input.is_char_boundary(d.span.end) {
        d.format("<repl>", input, kind, code)
    } else {
        d.message.clone()
    }
}


/// The functions among the first `n` of a module after the first whose
/// name is not `__main__`, each by name and arity.
pub open spec fn defined_upto(m: Module, n: int) -> Seq<(Seq<char>, u8)>
    decreases n,
{
    if n <= 1 {
        Seq::empty()
    } else {
        let prev = defined_upto(m, n - 1);
        let func = m.functions@[n - 1];
        let name = m.symbols@[func.name_sym as int]@;
        if name == "__main__"@ { prev } else { prev.push((name, func.arity)) }
    }
}

/// The state of an interactive session: the module that holds everything
/// defined so far, the global names with their symbol ids, and the machine.
pub struct ReplState {
    pub module: Module,
    pub symbols: Vec<(String, u16)>,
    pub vm: Vm,
}

impl ReplState {
    /// A session with nothing defined.
    pub fn new() -> (r: Self)
        ensures
            r.symbols@.len() == 0,
            r.module.functions@.len() == 0,
            r.module.symbols@.len() == 0,
            module_wf(r.module),
    {
        ReplState { module: Module::new(), symbols: Vec::new(), vm: Vm::new() }
    }

    /// Every symbol id of the table names a symbol of the module.
    pub open spec fn wf(&self) -> bool {
        forall|k: int| 0 <= k < self.symbols@.len() ==> ((#[trigger] self.symbols@[k]).1 as int) < self.module.symbols@.len()
    }

    /// Merges a module compiled from one input line into the session's
    /// module: symbols, strings, functions, classes and user types are
    /// added, and every index the new code holds is moved to where its
    /// entry now stands. The new `__main__` (function 0 of the new module)
    /// takes the place of function 0. Fails when a function's name symbol
    /// is not a symbol of the new module.
    pub fn merge_module(&mut self, new_module: Module) -> (r: Result<(), String>)
        requires
            old(self).wf(),
        ensures
            final(self).wf(),
            final(self).symbols@.len() >= old(self).symbols@.len(),
            final(self).symbols@.subrange(0, old(self).symbols@.len() as int) == old(self).symbols@,
            table_covers(final(self).symbols@, new_module.symbols@, new_module.symbols@.len() as int),
            final(self).module.symbols@.len() >= old(self).module.symbols@.len(),
            final(self).module.symbols@.subrange(0, old(self).module.symbols@.len() as int) == old(self).module.symbols@,
            final(self).module.globals@.len() - old(self).module.globals@.len()
                == final(self).module.symbols@.len() - old(self).module.symbols@.len(),
            final(self).module.string_pool@.len() >= old(self).module.string_pool@.len(),
            final(self).module.string_pool@.subrange(0, old(self).module.string_pool@.len() as int) == old(self).module.string_pool@,
            pool_covers(final(self).module.string_pool@, new_module.string_pool@, new_module.string_pool@.len() as int),
            final(self).module.consts == old(self).module.consts,
            r is Ok <==> forall|k: int| 0 <= k < new_module.functions@.len()
                ==> ((#[trigger] new_module.functions@[k]).name_sym as int) < new_module.symbols@.len(),
            r is Ok ==> final(self).module.classes@.len() == old(self).module.classes@.len() + new_module.classes@.len(),
            r is Ok ==> final(self).module.functions@.len() >= old(self).module.functions@.len(),
            r is Ok ==> final(self).module.types@.len() == old(self).module.types@.len()
                + (if new_module.types@.len() >= 100 { new_module.types@.len() - 100 } else { 0 }),
    {
        // symbols
        let mut symbol_map: Vec<u16> = Vec::new();
        let mut k: usize = 0;
        while k < new_module.symbols.len()
            invariant
                k <= new_module.symbols.len(),
                symbol_map@.len() == k,
                self.wf(),
                self.symbols@.len() >= old(self).symbols@.len(),
                self.symbols@.subrange(0, old(self).symbols@.len() as int) == old(self).symbols@,
                table_covers(self.symbols@, new_module.symbols@, k as int),
                forall|j: int| 0 <= j < k ==> ((#[trigger] symbol_map@[j]) as int) < self.module.symbols@.len(),
                self.module.symbols@.len() >= old(self).module.symbols@.len(),
                self.module.symbols@.subrange(0, old(self).module.symbols@.len() as int) == old(self).module.symbols@,
                self.module.globals@.len() - old(self).module.globals@.len()
                    == self.module.symbols@.len() - old(self).module.symbols@.len(),
                self.module.string_pool == old(self).module.string_pool,
                self.module.consts == old(self).module.consts,
                self.module.functions == old(self).module.functions,
                self.module.classes == old(self).module.classes,
                self.module.types == old(self).module.types,
            decreases new_module.symbols.len() - k,
        {
            let name = &new_module.symbols[k];
            match find_symbol(&self.symbols, name.as_str()) {
                Some(existing) => {
                    proof { lemma_lookup_in_table(self.symbols@, name@); }
                    symbol_map.push(existing);
                },
                None => {
                    let n = self.module.symbols.len();
                    #[verifier::truncate]
                    let idx = n as u16;
                    assert(idx as int <= n);
                    let ghost t0 = self.symbols@;
                    let ghost ms0 = self.module.symbols@;
                    self.module.symbols.push(name.clone());
                    self.module.globals.push(None);
                    self.symbols.push((name.clone(), idx));
                    assert(self.symbols@.drop_last() =~= t0);
                    assert(self.module.symbols@.subrange(0, old(self).module.symbols@.len() as int)
                        =~= ms0.subrange(0, old(self).module.symbols@.len() as int));
                    assert(self.symbols@.subrange(0, old(self).symbols@.len() as int)
                        =~= t0.subrange(0, old(self).symbols@.len() as int));
                    assert forall|j: int| 0 <= j < k implies symbol_lookup(self.symbols@, (#[trigger] new_module.symbols@[j])@) is Some by {
                        assert(table_covers(t0, new_module.symbols@, k as int));
                        lemma_lookup_grows(t0, self.symbols@.last(), new_module.symbols@[j]@);
                        assert(t0.push(self.symbols@.last()) =~= self.symbols@);
                    }
                    symbol_map.push(idx);
                },
            }
            k = k + 1;
        }
        let ghost t1 = self.symbols@;
        let ghost ms1 = self.module.symbols@;
        let ghost gl1 = self.module.globals@.len();
        assert(forall|j: int| 0 <= j < t1.len() ==> ((#[trigger] t1[j]).1 as int) < ms1.len());
        assert(t1.len() >= old(self).symbols@.len() && t1.subrange(0, old(self).symbols@.len() as int) == old(self).symbols@);
        assert(table_covers(t1, new_module.symbols@, new_module.symbols@.len() as int));
        assert(ms1.len() >= old(self).module.symbols@.len() && ms1.subrange(0, old(self).module.symbols@.len() as int) == old(self).module.symbols@);
        assert(gl1 - old(self).module.globals@.len() == ms1.len() - old(self).module.symbols@.len());
        // strings
        let mut string_map: Vec<u32> = Vec::new();
        let mut k: usize = 0;
        while k < new_module.string_pool.len()
            invariant
                k <= new_module.string_pool.len(),
                string_map@.len() == k,
                self.module.string_pool@.len() >= old(self).module.string_pool@.len(),
                self.module.string_pool@.subrange(0, old(self).module.string_pool@.len() as int) == old(self).module.string_pool@,
                pool_covers(self.module.string_pool@, new_module.string_pool@, k as int),
                self.symbols@ == t1,
                self.module.symbols@ == ms1,
                self.module.globals@.len() == gl1,
                self.module.consts == old(self).module.consts,
                self.module.functions == old(self).module.functions,
                self.module.classes == old(self).module.classes,
                self.module.types == old(self).module.types,
                symbol_map@.len() == new_module.symbols@.len(),
                forall|j: int| 0 <= j < symbol_map@.len() ==> ((#[trigger] symbol_map@[j]) as int) < self.module.symbols@.len(),
            decreases new_module.string_pool.len() - k,
        {
            let st = &new_module.string_pool[k];
            match pool_position(&self.module.string_pool, st.as_str()) {
                Some(i) => {
                    #[verifier::truncate]
                    let id = i as u32;
                    string_map.push(id);
                },
                None => {
                    #[verifier::truncate]
                    let id = self.module.string_pool.len() as u32;
                    let ghost p0 = self.module.string_pool@;
                    self.module.string_pool.push(st.clone());
                    assert(self.module.string_pool@.subrange(0, old(self).module.string_pool@.len() as int)
                        =~= p0.subrange(0, old(self).module.string_pool@.len() as int));
                    assert(pool_covers(p0, new_module.string_pool@, k as int));
                    assert forall|j: int| 0 <= j < k + 1 implies exists|i: int|
                        0 <= i < self.module.string_pool@.len() && #[trigger] self.module.string_pool@[i]@ == (#[trigger] new_module.string_pool@[j])@ by {
                        if j == k {
                            assert(self.module.string_pool@[p0.len() as int]@ == new_module.string_pool@[j]@);
                        } else {
                            let i0 = choose|i: int| 0 <= i < p0.len() && #[trigger] p0[i]@ == new_module.string_pool@[j]@;
                            assert(self.module.string_pool@[i0] == p0[i0]);
                        }
                    }
                    string_map.push(id);
                },
            }
            k = k + 1;
        }
        let ghost sp2 = self.module.string_pool@;
        assert(sp2.len() >= old(self).module.string_pool@.len() && sp2.subrange(0, old(self).module.string_pool@.len() as int) == old(self).module.string_pool@);
        assert(pool_covers(sp2, new_module.string_pool@, new_module.string_pool@.len() as int));
        // functions
        let ghost funcs0 = self.module.functions@;
        let mut func_map: Vec<u16> = Vec::new();
        let mut k: usize = 0;
        while k < new_module.functions.len()
            invariant
                k <= new_module.functions.len(),
                func_map@.len() == k,
                forall|j: int| 0 <= j < k ==> ((#[trigger] new_module.functions@[j]).name_sym as int) < new_module.symbols@.len(),
                symbol_map@.len() == new_module.symbols@.len(),
                forall|j: int| 0 <= j < symbol_map@.len() ==> ((#[trigger] symbol_map@[j]) as int) < self.module.symbols@.len(),
                self.module.functions@.len() >= funcs0.len(),
                funcs0 == old(self).module.functions@,
                forall|j: int| 0 <= j < t1.len() ==> ((#[trigger] t1[j]).1 as int) < ms1.len(),
                t1.len() >= old(self).symbols@.len() && t1.subrange(0, old(self).symbols@.len() as int) == old(self).symbols@,
                table_covers(t1, new_module.symbols@, new_module.symbols@.len() as int),
                ms1.len() >= old(self).module.symbols@.len() && ms1.subrange(0, old(self).module.symbols@.len() as int) == old(self).module.symbols@,
                gl1 - old(self).module.globals@.len() == ms1.len() - old(self).module.symbols@.len(),
                sp2.len() >= old(self).module.string_pool@.len() && sp2.subrange(0, old(self).module.string_pool@.len() as int) == old(self).module.string_pool@,
                pool_covers(sp2, new_module.string_pool@, new_module.string_pool@.len() as int),
                self.symbols@ == t1,
                self.module.symbols@ == ms1,
                self.module.globals@.len() == gl1,
                self.module.string_pool@ == sp2,
                self.module.consts == old(self).module.consts,
                self.module.classes == old(self).module.classes,
                self.module.types == old(self).module.types,
            decreases new_module.functions.len() - k,
        {
            let f = &new_module.functions[k];
            if (f.name_sym as usize) >= symbol_map.len() {
                return Err("Symbol mapping error for function name".to_owned());
            }
            let name_sym = symbol_map[f.name_sym as usize];
            let is_main = str_eq(self.module.symbols[name_sym as usize].as_str(), "__main__");
            let remapped = FunctionCode { name_sym, arity: f.arity, num_locals: f.num_locals, code: Vec::new() };
            if is_main && k == 0 {
                func_map.push(0);
                if self.module.functions.len() == 0 {
                    self.module.functions.push(remapped);
                } else {
                    self.module.functions.set(0, remapped);
                }
            } else {
                #[verifier::truncate]
                let idx = self.module.functions.len() as u16;
                func_map.push(idx);
                self.module.functions.push(remapped);
            }
            k = k + 1;
        }
        let mut k: usize = 0;
        while k < new_module.functions.len()
            invariant
                k <= new_module.functions.len(),
                func_map@.len() == new_module.functions@.len(),
                self.module.functions@.len() >= old(self).module.functions@.len(),
                self.symbols@ == t1,
                self.module.symbols@ == ms1,
                self.module.globals@.len() == gl1,
                self.module.string_pool@ == sp2,
                self.module.consts == old(self).module.consts,
                self.module.classes == old(self).module.classes,
                self.module.types == old(self).module.types,
            decreases new_module.functions.len() - k,
        {
            let target = func_map[k] as usize;
            if target < self.module.functions.len() {
                let code = remap_code(&new_module.functions[k].code, &symbol_map, &string_map, &func_map);
                let f = &self.module.functions[target];
                let nf = FunctionCode { name_sym: f.name_sym, arity: f.arity, num_locals: f.num_locals, code };
                self.module.functions.set(target, nf);
            }
            k = k + 1;
        }
        // classes
        let mut c: usize = 0;
        let ghost classes0 = self.module.classes@;
        while c < new_module.classes.len()
            invariant
                c <= new_module.classes.len(),
                self.module.classes@.len() == classes0.len() + c,
                classes0 == old(self).module.classes@,
                self.module.functions@.len() >= old(self).module.functions@.len(),
                self.symbols@ == t1,
                self.module.symbols@ == ms1,
                self.module.globals@.len() == gl1,
                self.module.string_pool@ == sp2,
                self.module.consts == old(self).module.consts,
                self.module.types == old(self).module.types,
            decreases new_module.classes.len() - c,
        {
            let cl = &new_module.classes[c];
            let mut methods: Vec<(String, u16)> = Vec::new();
            let mut j: usize = 0;
            while j < cl.methods.len()
                invariant
                    j <= cl.methods.len(),
                decreases cl.methods.len() - j,
            {
                methods.push((cl.methods[j].0.clone(), map16(&func_map, cl.methods[j].1)));
                j = j + 1;
            }
            self.module.classes.push(ClassDef { name: cl.name.clone(), methods });
            c = c + 1;
        }
        // user types
        let ghost types0 = self.module.types@;
        if new_module.types.len() >= 100 {
            let mut t: usize = 100;
            while t < new_module.types.len()
                invariant
                    100 <= t <= new_module.types.len(),
                    self.module.types@.len() == types0.len() + t - 100,
                    types0 == old(self).module.types@,
                    self.module.classes@.len() == old(self).module.classes@.len() + new_module.classes@.len(),
                    self.module.functions@.len() >= old(self).module.functions@.len(),
                self.symbols@ == t1,
                self.module.symbols@ == ms1,
                self.module.globals@.len() == gl1,
                self.module.string_pool@ == sp2,
                self.module.consts == old(self).module.consts,
                decreases new_module.types.len() - t,
            {
                self.module.types.push(new_module.types[t].clone());
                t = t + 1;
            }
        }
        Ok(())
    }

    /// Evaluates one input: parses it, analyzes it with the session's
    /// globals bound, compiles it against the session's symbols and
    /// functions, merges the result into the session and runs it on a
    /// fresh machine. Gives the value the input's code returned, `None` for
    /// a blank input, or the rendered error of the step that failed.
    pub fn eval_line_with_io<IO: RuntimeIo>(&mut self, input: &str, io: &mut IO) -> (r: Result<Option<Value>, String>)
        requires
            old(self).wf(),
            input@.len() <= usize::MAX / 4,
        ensures
            final(self).wf(),
            trim_spec(input@).len() == 0 ==> r matches Ok(None),
            trim_spec(input@).len() == 0 ==> final(self).symbols@ == old(self).symbols@,
            r is Ok && trim_spec(input@).len() > 0 ==> module_wf(final(self).module),
            final(self).symbols@ != old(self).symbols@ || final(self).module != old(self).module
                ==> line_admitted(input@, session_names(old(self).symbols@)),
    {
        let t = trim(input);
        if t.as_str().unicode_len() == 0 {
            return Ok(None);
        }
        let program = match parse_source(input) {
            Ok(p) => p,
            Err(diagnostics) => {
                let mut msg = String::new();
                let mut i: usize = 0;
                while i < diagnostics.len()
                    invariant
                        i <= diagnostics.len(),
                    decreases diagnostics.len() - i,
                {
                    let d = &diagnostics[i];
                    let text = render_diagnostic(d, input, "Parsing failed", 3);
                    msg.append(text.as_str());
                    i = i + 1;
                }
                return Err(msg);
            },
        };
        let globals = self.symbol_names();
        match analyze_with_globals(&program, &globals) {
            Ok(()) => {
                proof {
                    assert(crate::semantic::scope::names_of(globals@) =~= session_names(self.symbols@));
                    assert(analysis_admits(program@, session_names(self.symbols@)));
                    assert(parses_from(input@, stmts_view(program@)));
                }
            },
            Err(d) => {
                return Err(render_diagnostic(&d, input, "Semantic Analyzing Failed", 4));
            },
        }
        let mut compiler = Compiler::with_context(self.module.symbols.clone(), self.module.functions.clone());
        compiler.module.string_pool = self.module.string_pool.clone();
        compiler.module.consts = self.module.consts.clone();
        if !check_module(&compiler.module) {
            return Err("Compile Error: the session's functions refer to entries it does not have".to_owned());
        }
        let new_module = compiler.compile(&program);
        self.merge_module(new_module)?;
        self.vm = Vm::new();
        if !check_module(&self.module) {
            return Err("Compile Error: the merged code refers to entries the session does not have".to_owned());
        }
        let ghost m0 = self.module;
        let result = self.vm.run_with_io(&mut self.module, io);
        proof { lemma_same_program_wf(self.module, m0); }
        match result {
            Ok(ret) => Ok(ret),
            Err(e) => {
                let mut m = "Runtime Error: ".to_owned();
                m.append(e.message.as_str());
                m.append("\n");
                let k = e.kind.debug_text();
                m.append(k.as_str());
                Err(m)
            },
        }
    }

    /// `eval_line_with_io` with buffered I/O: no input is available, and
    /// what the code prints is kept in the machine's `output`.
    pub fn eval_line(&mut self, input: &str) -> (r: Result<Option<Value>, String>)
        requires
            old(self).wf(),
            input@.len() <= usize::MAX / 4,
        ensures
            final(self).wf(),
            trim_spec(input@).len() == 0 ==> r matches Ok(None),
            trim_spec(input@).len() == 0 ==> final(self).symbols@ == old(self).symbols@,
            r is Ok && trim_spec(input@).len() > 0 ==> module_wf(final(self).module),
            final(self).symbols@ != old(self).symbols@ || final(self).module != old(self).module
                ==> line_admitted(input@, session_names(old(self).symbols@)),
    {
        let mut io = BufferIo::new();
        let r = self.eval_line_with_io(input, &mut io);
        let out = io.take_output();
        self.vm.output.append(out.as_str());
        r
    }

    /// The name of a value's type, as the session's `:type` command shows
    /// it: `int`, `float`, `bool` and `NoneType` directly, other values by
    /// the type table, `unknown` for a type the table lacks.
    pub fn value_type_name(&self, v: &Value) -> (r: String)
        ensures
            r@ == match *v {
                Value::Int(_) => "int"@,
                Value::Float(_) => "float"@,
                Value::Bool(_) => "bool"@,
                Value::NoneVal => "NoneType"@,
                _ => {
                    let id = type_id_spec(*v, self.vm.heap@);
                    if id < self.module.types@.len() { self.module.types@[id].name@ } else { "unknown"@ }
                },
            },
    {
        match v {
            Value::Int(_) => "int".to_owned(),
            Value::Float(_) => "float".to_owned(),
            Value::Bool(_) => "bool".to_owned(),
            Value::NoneVal => "NoneType".to_owned(),
            _ => {
                let id = self.vm.type_id(v);
                if (id as usize) < self.module.types.len() && id <= 0xffff_ffff {
                    self.module.types[id as usize].name.clone()
                } else {
                    "unknown".to_owned()
                }
            },
        }
    }

    /// The functions defined in the session, by name and arity: every
    /// function after the first whose name is not `__main__`.
    pub fn defined_functions(&self) -> (r: Vec<(String, u8)>)
        requires
            forall|f: int| 0 <= f < self.module.functions@.len()
                ==> ((#[trigger] self.module.functions@[f]).name_sym as int) < self.module.symbols@.len(),
        ensures
            r@.len() <= self.module.functions@.len(),
            forall|k: int| 0 <= k < r@.len() ==> (#[trigger] r@[k]).0@ != "__main__"@,
            r@.map_values(|p: (String, u8)| (p.0@, p.1)) == defined_upto(self.module, self.module.functions@.len() as int),
    {
        let mut out: Vec<(String, u8)> = Vec::new();
        let mut f: usize = 1;
        assert(out@.map_values(|p: (String, u8)| (p.0@, p.1)) =~= defined_upto(self.module, 1));
        while f < self.module.functions.len()
            invariant
                1 <= f,
                f <= self.module.functions@.len() || (self.module.functions@.len() == 0 && f == 1),
                out@.len() < f,
                forall|g: int| 0 <= g < self.module.functions@.len()
                    ==> ((#[trigger] self.module.functions@[g]).name_sym as int) < self.module.symbols@.len(),
                forall|k: int| 0 <= k < out@.len() ==> (#[trigger] out@[k]).0@ != "__main__"@,
                out@.map_values(|p: (String, u8)| (p.0@, p.1)) == defined_upto(self.module, f as int),
            decreases self.module.functions.len() - f,
        {
            let func = &self.module.functions[f];
            let name = &self.module.symbols[func.name_sym as usize];
            if !str_eq(name.as_str(), "__main__") {
                out.push((name.clone(), func.arity));
            }
            f = f + 1;
            assert(out@.map_values(|p: (String, u8)| (p.0@, p.1)) =~= defined_upto(self.module, f as int));
        }
        proof {
            if self.module.functions@.len() == 0 {
                assert(defined_upto(self.module, 0) =~= defined_upto(self.module, 1));
            }
        }
        out
    }

    /// Tests `wf`.
    pub fn check_wf(&self) -> (r: bool)
        ensures
            r == self.wf(),
    {
        let mut k: usize = 0;
        while k < self.symbols.len()
            invariant
                k <= self.symbols.len(),
                forall|j: int| 0 <= j < k ==> ((#[trigger] self.symbols@[j]).1 as int) < self.module.symbols@.len(),
            decreases self.symbols.len() - k,
        {
            if (self.symbols[k].1 as usize) >= self.module.symbols.len() {
                return false;
            }
            k = k + 1;
        }
        true
    }

    /// Whether a global name is defined in the session.
    pub fn has_symbol(&self, name: &str) -> (r: bool)
        ensures
            r == (symbol_lookup(self.symbols@, name@) is Some),
    {
        find_symbol(&self.symbols, name).is_some()
    }

    /// The global names of the session, in the order they were defined.
    pub fn symbol_names(&self) -> (r: Vec<String>)
        ensures
            r@.len() == self.symbols@.len(),
            forall|k: int| 0 <= k < r@.len() ==> (#[trigger] r@[k])@ == self.symbols@[k].0@,
    {
        let mut out: Vec<String> = Vec::new();
        let mut k: usize = 0;
        while k < self.symbols.len()
            invariant
                k <= self.symbols.len(),
                out@.len() == k,
                forall|j: int| 0 <= j < k ==> (#[trigger] out@[j])@ == self.symbols@[j].0@,
            decreases self.symbols.len() - k,
        {
            out.push(self.symbols[k].0.clone());
            k = k + 1;
        }
        out
    }
}

} // verus!
