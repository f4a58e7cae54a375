//! The `:` commands of an interactive session: what each does to the
//! session and which lines it answers with.

use vstd::prelude::*;
use crate::lexer::str_chars;
use crate::repl::{is_whitespace, is_ws};
use crate::repl::session::{defined_upto, ReplState};
use crate::text::{decimal_digits, push_char, u64_to_string};

verus! {

/// The help text of the session.
pub const HELP: &'static str = "Pyhyeon REPL Commands:
  :quit, :q          Exit the REPL
  :help, :h          Show this help
  :clear, :c         Clear all definitions
  :symbols, :s       List defined symbols
  :functions, :f     List defined functions
  :type <expr>, :t   Show type of expression

Tips:
  - Lines ending with ':' continue on the next line
  - Use Ctrl+C to interrupt input
  - Use arrow keys to navigate history
";

/// The words of a text: its maximal runs of characters that are not
/// whitespace, left to right.
pub open spec fn words(s: Seq<char>) -> Seq<Seq<char>>
    decreases s.len(),
{
    if s.len() == 0 {
        Seq::empty()
    } else {
        let w = words(s.drop_last());
        let c = s.last();
        if is_ws(c) {
            w
        } else if s.len() >= 2 && !is_ws(s[s.len() - 2]) {
            w.update(w.len() - 1, w.last().push(c))
        } else {
            w.push(seq![c])
        }
    }
}

proof fn lemma_words_nonempty(s: Seq<char>)
    requires
        s.len() > 0,
        !is_ws(s.last()),
    ensures
        words(s).len() > 0,
    decreases s.len(),
{
    if s.len() >= 2 && !is_ws(s[s.len() - 2]) {
        lemma_words_nonempty(s.drop_last());
    }
}

/// Words joined by single spaces.
pub open spec fn joined_words(ws: Seq<Seq<char>>) -> Seq<char>
    decreases ws.len(),
{
    if ws.len() == 0 {
        Seq::empty()
    } else if ws.len() == 1 {
        ws[0]
    } else {
        joined_words(ws.drop_last()) + " "@ + ws.last()
    }
}

/// Strings seen as texts.
pub open spec fn texts(v: Seq<String>) -> Seq<Seq<char>> {
    v.map_values(|s: String| s@)
}

/// The words of a text (see `words`).
pub fn split_words(s: &str) -> (r: Vec<String>)
    ensures
        texts(r@) == words(s@),
{
    let v = str_chars(s);
    let mut out: Vec<String> = Vec::new();
    let mut i: usize = 0;
    assert(texts(out@) =~= words(s@.subrange(0, 0)));
    while i < v.len()
        invariant
            i <= v.len(),
            v@ == s@,
            texts(out@) == words(s@.subrange(0, i as int)),
        decreases v.len() - i,
    {
        let c = v[i];
        let ghost pre = s@.subrange(0, i as int);
        let ghost cur = s@.subrange(0, i + 1);
        assert(cur.drop_last() =~= pre);
        assert(cur.last() == c);
        if is_whitespace(c) {
        } else if i > 0 && !is_whitespace(v[i - 1]) {
            assert(cur[cur.len() - 2] == v@[i - 1]);
            assert(pre.last() == v@[i - 1]);
            proof { lemma_words_nonempty(pre); }
            let ghost before = out@;
            let mut last = out.pop().unwrap();
            push_char(&mut last, c);
            out.push(last);
            assert(texts(out@) =~= texts(before).update(texts(before).len() - 1, texts(before).last().push(c)));
        } else {
            let mut w = String::new();
            push_char(&mut w, c);
            assert(w@ =~= seq![c]);
            let ghost before = out@;
            out.push(w);
            assert(texts(out@) =~= texts(before).push(seq![c]));
        }
        i = i + 1;
    }
    assert(s@.subrange(0, v.len() as int) =~= s@);
    out
}

/// The words of `ws` from index `from` on, joined by single spaces.
pub fn join_words(ws: &Vec<String>, from: usize) -> (r: String)
    requires
        from <= ws.len(),
    ensures
        r@ == joined_words(texts(ws@).subrange(from as int, ws@.len() as int)),
{
    let mut s = String::new();
    let mut k: usize = from;
    assert(texts(ws@).subrange(from as int, from as int) =~= Seq::<Seq<char>>::empty());
    while k < ws.len()
        invariant
            from <= k <= ws.len(),
            s@ == joined_words(texts(ws@).subrange(from as int, k as int)),
        decreases ws.len() - k,
    {
        assert(texts(ws@).subrange(from as int, k + 1).drop_last() =~= texts(ws@).subrange(from as int, k as int));
        if k > from {
            s.append(" ");
        }
        s.append(ws[k].as_str());
        k = k + 1;
    }
    s
}

/// The lines `:symbols` answers with: one per global name, indented by
/// two spaces, or a note that there is none.
pub open spec fn symbol_lines_spec(names: Seq<Seq<char>>) -> Seq<Seq<char>> {
    if names.len() == 0 {
        seq!["No symbols defined."@]
    } else {
        names.map_values(|n: Seq<char>| "  "@ + n)
    }
}

/// The line of `:functions` for one function.
pub open spec fn function_line(f: (Seq<char>, u8)) -> Seq<char> {
    "  "@ + f.0 + "(arity: "@ + decimal_digits(f.1 as nat) + ")"@
}

/// The lines `:functions` answers with: a note when the session has no
/// function besides `__main__`, else one per function.
pub open spec fn function_lines_spec(state: ReplState) -> Seq<Seq<char>> {
    if state.module.functions@.len() <= 1 {
        seq!["No functions defined."@]
    } else {
        defined_upto(state.module, state.module.functions@.len() as int).map_values(
            |f: (Seq<char>, u8)| function_line(f))
    }
}

/// What a command leaves of a session, beside what it answers.
pub open spec fn unchanged(a: ReplState, b: ReplState) -> bool {
    a.symbols == b.symbols && a.module == b.module
}

/// The lines `:symbols` answers with (see `symbol_lines_spec`).
pub fn symbol_lines(state: &ReplState) -> (r: Vec<String>)
    ensures
        texts(r@) == symbol_lines_spec(state.symbols@.map_values(|e: (String, u16)| e.0@)),
{
    let ghost names = state.symbols@.map_values(|e: (String, u16)| e.0@);
    let mut out: Vec<String> = Vec::new();
    if state.symbols.len() == 0 {
        out.push("No symbols defined.".to_owned());
        assert(texts(out@) =~= symbol_lines_spec(names));
        return out;
    }
    let mut k: usize = 0;
    while k < state.symbols.len()
        invariant
            k <= state.symbols.len(),
            names == state.symbols@.map_values(|e: (String, u16)| e.0@),
            texts(out@) == names.subrange(0, k as int).map_values(|n: Seq<char>| "  "@ + n),
        decreases state.symbols.len() - k,
    {
        let mut line = "  ".to_owned();
        line.append(state.symbols[k].0.as_str());
        let ghost before = out@;
        let ghost lv = line@;
        assert(lv == "  "@ + names[k as int]);
        out.push(line);
        assert(texts(out@) =~= texts(before).push(lv));
        assert(names.subrange(0, k + 1).map_values(|n: Seq<char>| "  "@ + n)
            =~= names.subrange(0, k as int).map_values(|n: Seq<char>| "  "@ + n).push(lv));
        k = k + 1;
    }
    assert(names.subrange(0, k as int) =~= names);
    out
}

/// The lines `:functions` answers with (see `function_lines_spec`).
pub fn function_lines(state: &ReplState) -> (r: Vec<String>)
    requires
        forall|f: int| 0 <= f < state.module.functions@.len()
            ==> ((#[trigger] state.module.functions@[f]).name_sym as int) < state.module.symbols@.len(),
    ensures
        texts(r@) == function_lines_spec(*state),
{
    let mut out: Vec<String> = Vec::new();
    if state.module.functions.len() <= 1 {
        out.push("No functions defined.".to_owned());
        assert(texts(out@) =~= function_lines_spec(*state));
        return out;
    }
    let fs = state.defined_functions();
    let ghost d = defined_upto(state.module, state.module.functions@.len() as int);
    let mut k: usize = 0;
    while k < fs.len()
        invariant
            k <= fs.len(),
            fs@.map_values(|p: (String, u8)| (p.0@, p.1)) == d,
            texts(out@) == d.subrange(0, k as int).map_values(|f: (Seq<char>, u8)| function_line(f)),
        decreases fs.len() - k,
    {
        let mut line = "  ".to_owned();
        line.append(fs[k].0.as_str());
        line.append("(arity: ");
        let n = u64_to_string(fs[k].1 as u64);
        line.append(n.as_str());
        line.append(")");
        assert(d[k as int] == (fs@[k as int].0@, fs@[k as int].1));
        let ghost before = out@;
        let ghost lv = line@;
        assert(lv == function_line(d[k as int]));
        out.push(line);
        assert(texts(out@) =~= texts(before).push(lv));
        assert(d.subrange(0, k + 1).map_values(|f: (Seq<char>, u8)| function_line(f))
            =~= d.subrange(0, k as int).map_values(|f: (Seq<char>, u8)| function_line(f)).push(lv));
        k = k + 1;
    }
    assert(d.subrange(0, k as int) =~= d);
    out
}

/// Handles a `:` command: whether the session should end and the lines to
/// answer with, or an error for an unknown command. A blank command does
/// nothing; `:quit` ends the session; `:help` answers with the help text;
/// `:clear` starts a new session; `:symbols` and `:functions` list what is
/// defined; `:type` evaluates the rest of the line and answers with the
/// type of its value.
pub fn handle_command(cmd: &str, state: &mut ReplState) -> (r: Result<(bool, Vec<String>), String>)
    requires
        old(state).wf(),
        cmd@.len() <= usize::MAX / 4,
    ensures
        final(state).wf(),
        ({
            let w = words(cmd@);
            if w.len() == 0 {
                r matches Ok((false, lines)) && lines@.len() == 0 && unchanged(*final(state), *old(state))
            } else if w[0] == ":quit"@ || w[0] == ":q"@ {
                r matches Ok((true, lines)) && texts(lines@) == seq!["Goodbye!"@]
                    && unchanged(*final(state), *old(state))
            } else if w[0] == ":help"@ || w[0] == ":h"@ {
                r matches Ok((false, lines)) && texts(lines@) == seq![HELP@]
                    && unchanged(*final(state), *old(state))
            } else if w[0] == ":clear"@ || w[0] == ":c"@ {
                r matches Ok((false, lines)) && texts(lines@) == seq!["Session cleared."@]
                    && final(state).symbols@.len() == 0 && final(state).module.functions@.len() == 0
                    && final(state).module.symbols@.len() == 0
            } else if w[0] == ":symbols"@ || w[0] == ":s"@ {
                r matches Ok((false, lines))
                    && texts(lines@) == symbol_lines_spec(old(state).symbols@.map_values(|e: (String, u16)| e.0@))
                    && unchanged(*final(state), *old(state))
            } else if w[0] == ":functions"@ || w[0] == ":f"@ {
                r matches Ok((false, lines)) && unchanged(*final(state), *old(state))
                    && ((forall|f: int| 0 <= f < old(state).module.functions@.len()
                        ==> ((#[trigger] old(state).module.functions@[f]).name_sym as int)
                            < old(state).module.symbols@.len())
                        ==> texts(lines@) == function_lines_spec(*old(state)))
            } else if w[0] == ":type"@ || w[0] == ":t"@ {
                if w.len() < 2 {
                    r matches Ok((false, lines)) && texts(lines@) == seq!["Usage: :type <expression>"@]
                        && unchanged(*final(state), *old(state))
                } else {
                    r matches Ok((false, lines)) && lines@.len() == 1
                }
            } else {
                r matches Err(m) && m@ == "Unknown command: "@ + w[0]
            }
        }),
{
    let parts = split_words(cmd);
    let ghost w = words(cmd@);
    let mut lines: Vec<String> = Vec::new();
    if parts.len() == 0 {
        return Ok((false, lines));
    }
    assert(parts@[0]@ == w[0]);
    let head = parts[0].as_str();
    if crate::builtins::str_eq(head, ":quit") || crate::builtins::str_eq(head, ":q") {
        lines.push("Goodbye!".to_owned());
        assert(texts(lines@) =~= seq!["Goodbye!"@]);
        return Ok((true, lines));
    }
    if crate::builtins::str_eq(head, ":help") || crate::builtins::str_eq(head, ":h") {
        lines.push(HELP.to_owned());
        assert(texts(lines@) =~= seq![HELP@]);
        return Ok((false, lines));
    }
    if crate::builtins::str_eq(head, ":clear") || crate::builtins::str_eq(head, ":c") {
        *state = ReplState::new();
        lines.push("Session cleared.".to_owned());
        assert(texts(lines@) =~= seq!["Session cleared."@]);
        return Ok((false, lines));
    }
    if crate::builtins::str_eq(head, ":symbols") || crate::builtins::str_eq(head, ":s") {
        return Ok((false, symbol_lines(state)));
    }
    if crate::builtins::str_eq(head, ":functions") || crate::builtins::str_eq(head, ":f") {
        let mut ok = true;
        let mut f: usize = 0;
        while f < state.module.functions.len()
            invariant
                f <= state.module.functions@.len(),
                ok ==> forall|g: int| 0 <= g < f
                    ==> ((#[trigger] state.module.functions@[g]).name_sym as int) < state.module.symbols@.len(),
                !ok ==> exists|g: int| 0 <= g < f
                    && ((#[trigger] state.module.functions@[g]).name_sym as int) >= state.module.symbols@.len(),
            decreases state.module.functions@.len() - f,
        {
            if (state.module.functions[f].name_sym as usize) >= state.module.symbols.len() {
                ok = false;
            }
            f = f + 1;
        }
        if ok {
            return Ok((false, function_lines(state)));
        }
        return Ok((false, lines));
    }
    if crate::builtins::str_eq(head, ":type") || crate::builtins::str_eq(head, ":t") {
        if parts.len() < 2 {
            lines.push("Usage: :type <expression>".to_owned());
            assert(texts(lines@) =~= seq!["Usage: :type <expression>"@]);
            return Ok((false, lines));
        }
        let expr = join_words(&parts, 1);
        if expr.unicode_len() > usize::MAX / 4 {
            lines.push("Error: input too large".to_owned());
            return Ok((false, lines));
        }
        let line = match state.eval_line(expr.as_str()) {
            Ok(Some(val)) => state.value_type_name(&val),
            Ok(None) => "Expression returned no value".to_owned(),
            Err(e) => {
                let mut m = "Error: ".to_owned();
                m.append(e.as_str());
                m
            },
        };
        lines.push(line);
        return Ok((false, lines));
    }
    let mut m = "Unknown command: ".to_owned();
    m.append(head);
    Err(m)
}

} // verus!
