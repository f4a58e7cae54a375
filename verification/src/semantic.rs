//! Semantic analysis: name resolution and type checking.

pub mod scope;
pub mod typecheck;
pub mod resolve;

use vstd::prelude::*;
use crate::ast::{Span, StmtS};

verus! {

/// An error found by semantic analysis.
#[derive(Debug)]
pub struct SemanticError {
    pub message: String,
    pub span: Span,
}

pub type SemanticResult<T> = Result<T, SemanticError>;

/// What the analysis knows of the program: the builtin names and the
/// arity of each function defined so far (a later definition wins).
pub struct ProgramContext {
    pub builtins: Vec<String>,
    pub functions: Vec<(String, usize)>,
}

/// The arity recorded last for a function name.
pub open spec fn fn_arity(fns: Seq<(Seq<char>, usize)>, name: Seq<char>) -> Option<usize>
    decreases fns.len(),
{
    if fns.len() == 0 {
        None
    } else if fns.last().0 == name {
        Some(fns.last().1)
    } else {
        fn_arity(fns.drop_last(), name)
    }
}

impl ProgramContext {
    /// The recorded functions, each as its name and arity.
    pub open spec fn fns(&self) -> Seq<(Seq<char>, usize)> {
        self.functions@.map_values(|p: (String, usize)| (p.0@, p.1))
    }

    /// A context that knows every registered builtin and no function.
    pub fn new_with_builtins() -> (r: Self)
        ensures
            scope::names_of(r.builtins@) == crate::builtins::registry_names(),
            r.fns().len() == 0,
    {
        let reg = crate::builtins::all();
        let mut builtins: Vec<String> = Vec::new();
        let mut i: usize = 0;
        while i < reg.len()
            invariant
                reg.len() == 9,
                forall|k: int| 0 <= k < 9 ==> crate::builtins::is_registry_entry(#[trigger] reg@[k], k),
                i <= 9,
                scope::names_of(builtins@) == crate::builtins::registry_names().subrange(0, i as int),
            decreases 9 - i,
        {
            let b = reg[i];
            assert(crate::builtins::is_registry_entry(reg@[i as int], i as int));
            assert(b.name@ == crate::builtins::registry_names()[i as int]);
            let name = b.name.to_owned();
            proof { scope::lemma_names_push(builtins@, name); }
            builtins.push(name);
            i = i + 1;
            assert(scope::names_of(builtins@) =~= crate::builtins::registry_names().subrange(0, i as int));
        }
        assert(crate::builtins::registry_names().subrange(0, 9) =~= crate::builtins::registry_names());
        ProgramContext { builtins, functions: Vec::new() }
    }

    /// Whether the name is a builtin.
    pub fn is_builtin(&self, name: &str) -> (r: bool)
        ensures
            r == scope::names_of(self.builtins@).contains(name@),
    {
        scope::contains_name(&self.builtins, name)
    }

    /// Records the arity of a function.
    pub fn set_function(&mut self, name: String, arity: usize)
        ensures
            final(self).fns() == old(self).fns().push((name@, arity)),
            final(self).builtins == old(self).builtins,
    {
        self.functions.push((name, arity));
        assert(self.fns() =~= old(self).fns().push((name@, arity)));
    }

    /// The arity recorded for a function name.
    pub fn function_arity(&self, name: &str) -> (r: Option<usize>)
        ensures
            r == fn_arity(self.fns(), name@),
    {
        let mut i = self.functions.len();
        assert(self.fns().subrange(0, i as int) =~= self.fns());
        while i > 0
            invariant
                i <= self.functions.len(),
                fn_arity(self.fns(), name@) == fn_arity(self.fns().subrange(0, i as int), name@),
            decreases i,
        {
            let ghost pre = self.fns().subrange(0, i as int);
            assert(pre.drop_last() =~= self.fns().subrange(0, i - 1));
            assert(pre.last() == self.fns()[i - 1]);
            if crate::builtins::str_eq(self.functions[i - 1].0.as_str(), name) {
                return Some(self.functions[i - 1].1);
            }
            i = i - 1;
        }
        assert(self.fns().subrange(0, 0) =~= Seq::<(Seq<char>, usize)>::empty());
        None
    }

    /// A copy of this context.
    pub fn copy(&self) -> (r: Self)
        ensures
            scope::names_of(r.builtins@) == scope::names_of(self.builtins@),
            r.fns() == self.fns(),
    {
        let builtins = crate::parser::clone_strings(&self.builtins);
        let mut functions: Vec<(String, usize)> = Vec::new();
        let mut i: usize = 0;
        while i < self.functions.len()
            invariant
                i <= self.functions.len(),
                functions.len() == i,
                forall|k: int| 0 <= k < i ==> (#[trigger] functions@[k]).0@ == self.functions@[k].0@ && functions@[k].1 == self.functions@[k].1,
            decreases self.functions.len() - i,
        {
            functions.push((self.functions[i].0.clone(), self.functions[i].1));
            i = i + 1;
        }
        assert(scope::names_of(builtins@) =~= scope::names_of(self.builtins@));
        let r = ProgramContext { builtins, functions };
        assert(r.fns() =~= self.fns());
        r
    }
}

/// The scopes analysis starts from: one frame with the builtin names and
/// then the given globals.
pub open spec fn initial_scopes(globals: Seq<String>) -> Seq<Seq<Seq<char>>> {
    seq![crate::builtins::registry_names() + scope::names_of(globals)]
}

/// Analyzes a program: resolves names (with the builtins and the given
/// globals bound), then type-checks it. The first error found is returned.
/// The result is an error if resolution fails, else an error exactly when
/// the type check (with the functions that resolution recorded) fails, where
/// the type check settles each statement (see `tc_run`).
pub fn analyze_with_globals(program: &Vec<StmtS>, existing_globals: &Vec<String>) -> (r: SemanticResult<()>)
    ensures
        program@.len() == 0 ==> r is Ok,
        match resolve::module_block_res(program@, initial_scopes(existing_globals@), crate::builtins::registry_names(),
            Seq::empty()) {
            None => r is Err,
            Some((_, fns)) => match typecheck::tc_run(program@, program@.len() as int, fns) {
                Some(Some(_)) => r is Ok,
                Some(None) => r is Err,
                None => true,
            },
        },
{
    let mut ctx = ProgramContext::new_with_builtins();
    let mut scopes = scope::ScopeStack::new();
    let ghost bnames = crate::builtins::registry_names();
    assert(bnames.subrange(0, 0) =~= Seq::<Seq<char>>::empty());
    let mut i: usize = 0;
    while i < ctx.builtins.len()
        invariant
            i <= ctx.builtins.len(),
            scope::names_of(ctx.builtins@) == bnames,
            ctx.fns().len() == 0,
            scopes.frames() == seq![bnames.subrange(0, i as int)],
        decreases ctx.builtins.len() - i,
    {
        scopes.define(ctx.builtins[i].clone());
        assert(scope::names_of(ctx.builtins@)[i as int] == ctx.builtins@[i as int]@);
        assert(bnames.subrange(0, i as int).push(ctx.builtins@[i as int]@) =~= bnames.subrange(0, i + 1));
        i = i + 1;
    }
    assert(bnames.subrange(0, ctx.builtins@.len() as int) =~= bnames);
    let mut g: usize = 0;
    while g < existing_globals.len()
        invariant
            g <= existing_globals.len(),
            scope::names_of(ctx.builtins@) == bnames,
            ctx.fns().len() == 0,
            scopes.frames() == seq![bnames + scope::names_of(existing_globals@.subrange(0, g as int))],
        decreases existing_globals.len() - g,
    {
        scopes.define(existing_globals[g].clone());
        assert(scope::names_of(existing_globals@.subrange(0, g + 1)) =~= scope::names_of(existing_globals@.subrange(0, g as int)).push(existing_globals@[g as int]@));
        assert((bnames + scope::names_of(existing_globals@.subrange(0, g as int))).push(existing_globals@[g as int]@)
            =~= bnames + scope::names_of(existing_globals@.subrange(0, g + 1)));
        g = g + 1;
    }
    assert(existing_globals@.subrange(0, existing_globals@.len() as int) =~= existing_globals@);
    let ghost f0 = scopes.frames();
    assert(f0 == initial_scopes(existing_globals@));
    assert(program@.subrange(0, program@.len() as int) =~= program@);
    assert(ctx.fns() =~= Seq::<(Seq<char>, usize)>::empty());
    let mut k: usize = 0;
    while k < program.len()
        invariant
            k <= program.len(),
            scopes.frames().len() == 1,
            scope::names_of(ctx.builtins@) == bnames,
            f0 == initial_scopes(existing_globals@),
            bnames == crate::builtins::registry_names(),
            resolve::module_block_res(program@, f0, bnames, Seq::empty())
                == resolve::module_block_res(program@.subrange(k as int, program@.len() as int), scopes.frames(), bnames, ctx.fns()),
        decreases program.len() - k,
    {
        let ghost sub = program@.subrange(k as int, program@.len() as int);
        assert(sub.drop_first() =~= program@.subrange(k + 1, program@.len() as int));
        assert(sub[0] == program@[k as int]);
        resolve::analyze_stmt_module(&program[k], &mut scopes, &mut ctx)?;
        k = k + 1;
    }
    assert(program@.subrange(k as int, program@.len() as int) =~= Seq::<StmtS>::empty());
    typecheck::typecheck_program(program, &ctx)?;
    Ok(())
}

/// Analyzes a program with no globals besides the builtins.
pub fn analyze(program: &Vec<StmtS>) -> (r: SemanticResult<()>)
    ensures
        program@.len() == 0 ==> r is Ok,
        match resolve::module_block_res(program@, initial_scopes(Seq::empty()), crate::builtins::registry_names(),
            Seq::empty()) {
            None => r is Err,
            Some((_, fns)) => match typecheck::tc_run(program@, program@.len() as int, fns) {
                Some(Some(_)) => r is Ok,
                Some(None) => r is Err,
                None => true,
            },
        },
{
    let globals: Vec<String> = Vec::new();
    assert(globals@ =~= Seq::<String>::empty());
    analyze_with_globals(program, &globals)
}

} // verus!
