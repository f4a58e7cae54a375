//! Name scopes for semantic analysis.

use vstd::prelude::*;

verus! {

/// The names of a list of strings.
pub open spec fn names_of(v: Seq<String>) -> Seq<Seq<char>> {
    v.map_values(|s: String| s@)
}

pub proof fn lemma_names_push(v: Seq<String>, s: String)
    ensures
        names_of(v.push(s)) == names_of(v).push(s@),
{
    assert(names_of(v.push(s)) =~= names_of(v).push(s@));
}

/// Whether some frame holds the name.
pub open spec fn frames_define(frames: Seq<Seq<Seq<char>>>, name: Seq<char>) -> bool {
    exists|i: int| 0 <= i < frames.len() && #[trigger] frames[i].contains(name)
}

/// Whether the name occurs in a list of strings.
pub fn contains_name(v: &Vec<String>, name: &str) -> (r: bool)
    ensures
        r == names_of(v@).contains(name@),
{
    let mut i: usize = 0;
    while i < v.len()
        invariant
            i <= v.len(),
            forall|k: int| 0 <= k < i ==> v@[k]@ != name@,
        decreases v.len() - i,
    {
        if crate::builtins::str_eq(v[i].as_str(), name) {
            assert(names_of(v@)[i as int] == name@);
            return true;
        }
        i = i + 1;
    }
    proof {
        if names_of(v@).contains(name@) {
            let k = choose|k: int| 0 <= k < names_of(v@).len() && names_of(v@)[k] == name@;
            assert(v@[k]@ == name@);
        }
    }
    false
}

/// A stack of scopes, innermost last.
#[derive(Debug, Default)]
pub struct ScopeStack {
    stack: Vec<Vec<String>>,
}

impl ScopeStack {
    /// The names of each frame, innermost last.
    pub closed spec fn frames(&self) -> Seq<Seq<Seq<char>>> {
        self.stack@.map_values(|f: Vec<String>| names_of(f@))
    }

    /// One empty global scope.
    pub fn new() -> (r: Self)
        ensures
            r.frames() == seq![Seq::<Seq<char>>::empty()],
    {
        let mut stack: Vec<Vec<String>> = Vec::new();
        stack.push(Vec::new());
        let r = ScopeStack { stack };
        assert(names_of(Seq::<String>::empty()) =~= Seq::<Seq<char>>::empty());
        assert(r.frames() =~= seq![Seq::<Seq<char>>::empty()]);
        r
    }

    /// Opens a new innermost scope.
    pub fn push(&mut self)
        ensures
            final(self).frames() == old(self).frames().push(Seq::empty()),
    {
        self.stack.push(Vec::new());
        assert(names_of(Seq::<String>::empty()) =~= Seq::<Seq<char>>::empty());
        assert(self.frames() =~= old(self).frames().push(Seq::empty()));
    }

    /// Closes the innermost scope, if any.
    pub fn pop(&mut self)
        ensures
            old(self).frames().len() > 0 ==> final(self).frames() == old(self).frames().drop_last(),
            old(self).frames().len() == 0 ==> final(self).frames() == old(self).frames(),
    {
        if self.stack.len() > 0 {
            self.stack.pop();
            assert(self.frames() =~= old(self).frames().drop_last());
        }
    }

    /// Defines a name in the innermost scope.
    pub fn define(&mut self, name: String)
        ensures
            old(self).frames().len() > 0 ==> final(self).frames() == old(self).frames().update(
                old(self).frames().len() - 1,
                old(self).frames().last().push(name@),
            ),
            old(self).frames().len() == 0 ==> final(self).frames() == old(self).frames(),
    {
        let n = self.stack.len();
        if n > 0 {
            let mut top = self.stack.pop().unwrap();
            let ghost old_top = top@;
            top.push(name);
            self.stack.push(top);
            assert(names_of(top@) =~= names_of(old_top).push(name@));
            assert(self.frames() =~= old(self).frames().update(
                old(self).frames().len() - 1,
                old(self).frames().last().push(name@),
            ));
        }
    }

    /// Whether any scope defines the name.
    pub fn is_defined(&self, name: &str) -> (r: bool)
        ensures
            r == frames_define(self.frames(), name@),
    {
        let mut i = self.stack.len();
        while i > 0
            invariant
                i <= self.stack.len(),
                forall|k: int| i <= k < self.stack.len() ==> !(#[trigger] self.frames()[k]).contains(name@),
            decreases i,
        {
            i = i - 1;
            if contains_name(&self.stack[i], name) {
                assert(self.frames()[i as int] == names_of(self.stack@[i as int]@));
                return true;
            }
            assert(self.frames()[i as int] == names_of(self.stack@[i as int]@));
        }
        false
    }
}

} // verus!
