//! Helpers of the interactive session: when an input line asks for more
//! lines, and how far the next line is indented.

pub mod session;
pub mod commands;

use vstd::prelude::*;
use crate::lexer::{str_chars, utf8_len, char_utf8_len};

verus! {

/// Whether a character is white space in Unicode's sense (the set that
/// `char::is_whitespace` tests).
pub open spec fn is_ws(c: char) -> bool {
    c == ' ' || ('\t' <= c && c <= '\r') || c == '\u{85}' || c == '\u{a0}' || c == '\u{1680}'
        || ('\u{2000}' <= c && c <= '\u{200a}') || c == '\u{2028}' || c == '\u{2029}'
        || c == '\u{202f}' || c == '\u{205f}' || c == '\u{3000}'
}

/// Tests `is_ws`.
pub fn is_whitespace(c: char) -> (r: bool)
    ensures
        r == is_ws(c),
{
    c == ' ' || ('\t' <= c && c <= '\r') || c == '\u{85}' || c == '\u{a0}' || c == '\u{1680}'
        || ('\u{2000}' <= c && c <= '\u{200a}') || c == '\u{2028}' || c == '\u{2029}'
        || c == '\u{202f}' || c == '\u{205f}' || c == '\u{3000}'
}

/// The text without its trailing white space.
pub open spec fn trim_end(s: Seq<char>) -> Seq<char>
    decreases s.len(),
{
    if s.len() > 0 && is_ws(s.last()) { trim_end(s.drop_last()) } else { s }
}

/// Whether the text, trailing white space aside, ends with a colon.
pub open spec fn ends_with_colon(s: Seq<char>) -> bool {
    trim_end(s).len() > 0 && trim_end(s).last() == ':'
}

/// The number of bytes of the white space that starts the text.
pub open spec fn lead_ws_bytes(s: Seq<char>) -> nat
    decreases s.len(),
{
    if s.len() > 0 && is_ws(s[0]) { utf8_len(s[0]) + lead_ws_bytes(s.drop_first()) } else { 0 }
}

/// The index of the last newline of the text, -1 where there is none.
pub open spec fn last_newline(s: Seq<char>) -> int
    decreases s.len(),
{
    if s.len() == 0 { -1 } else if s.last() == '\n' { s.len() - 1 } else { last_newline(s.drop_last()) }
}

/// The last line of a non-empty text: a final newline ends the last line
/// rather than starting an empty one, and a line ended by a newline loses a
/// carriage return before it.
pub open spec fn last_line(s: Seq<char>) -> Seq<char> {
    if s.len() > 0 && s.last() == '\n' {
        let t = s.drop_last();
        let seg = t.subrange(last_newline(t) + 1, t.len() as int);
        if seg.len() > 0 && seg.last() == '\r' { seg.drop_last() } else { seg }
    } else {
        s.subrange(last_newline(s) + 1, s.len() as int)
    }
}

/// `n` spaces.
pub open spec fn spaces(n: nat) -> Seq<char> {
    Seq::new(n, |i: int| ' ')
}

/// The indentation offered for the line after the buffer: two more spaces
/// than the last line has after a line ending with a colon, else the same.
pub open spec fn indent_after(buffer: Seq<char>) -> Seq<char> {
    if buffer.len() == 0 {
        Seq::empty()
    } else {
        let line = last_line(buffer);
        let n = lead_ws_bytes(line);
        if ends_with_colon(line) { spaces(n + 2) } else if n > 0 { spaces(n) } else { Seq::empty() }
    }
}

/// Whether the last line holding something other than white space starts
/// with two spaces or a tab.
pub open spec fn in_block(buffer: Seq<char>) -> bool {
    exists|p: int| 0 <= p < buffer.len() && !is_ws(buffer[p])
        && (forall|q: int| p < q < buffer.len() ==> is_ws(#[trigger] buffer[q]))
        && {
            let start = last_newline(buffer.subrange(0, p)) + 1;
            (start + 1 < buffer.len() && buffer[start] == ' ' && buffer[start + 1] == ' ')
                || (start < buffer.len() && buffer[start] == '\t')
        }
}

fn trim_end_len(v: &Vec<char>, len: usize) -> (n: usize)
    requires
        len <= v.len(),
    ensures
        n <= len,
        trim_end(v@.subrange(0, len as int)) == v@.subrange(0, n as int),
    decreases len,
{
    if len > 0 && is_whitespace(v[len - 1]) {
        assert(v@.subrange(0, len as int).drop_last() =~= v@.subrange(0, len - 1));
        trim_end_len(v, len - 1)
    } else {
        len
    }
}

/// Whether an input line asks for more lines: it ends with a colon.
pub fn needs_more_lines(line: &str) -> (r: bool)
    ensures
        r == ends_with_colon(line@),
{
    let v = str_chars(line);
    let n = trim_end_len(&v, v.len());
    assert(v@.subrange(0, v.len() as int) =~= line@);
    n > 0 && v[n - 1] == ':'
}

fn last_newline_before(v: &Vec<char>, end: usize) -> (r: Option<usize>)
    requires
        end <= v.len(),
    ensures
        r matches Some(k) ==> k < end && last_newline(v@.subrange(0, end as int)) == k,
        r is None ==> last_newline(v@.subrange(0, end as int)) == -1,
    decreases end,
{
    if end == 0 {
        None
    } else {
        assert(v@.subrange(0, end as int).drop_last() =~= v@.subrange(0, end - 1));
        if v[end - 1] == '\n' { Some(end - 1) } else { last_newline_before(v, end - 1) }
    }
}

proof fn lemma_last_newline_range(s: Seq<char>)
    ensures
        -1 <= last_newline(s) < s.len(),
        last_newline(s) >= 0 ==> s[last_newline(s)] == '\n',
        forall|q: int| last_newline(s) < q < s.len() ==> s[q] != '\n',
    decreases s.len(),
{
    if s.len() > 0 && s.last() != '\n' {
        lemma_last_newline_range(s.drop_last());
        assert forall|q: int| last_newline(s) < q < s.len() implies s[q] != '\n' by {
            if q < s.len() - 1 {
                assert(s.drop_last()[q] == s[q]);
            }
        }
        if last_newline(s) >= 0 {
            assert(s.drop_last()[last_newline(s)] == s[last_newline(s)]);
        }
    }
}

/// Whether the buffer's last line with something other than white space is
/// indented (two spaces or a tab): the session is inside a block.
pub fn is_in_block(buffer: &str) -> (r: bool)
    ensures
        r == in_block(buffer@),
{
    let v = str_chars(buffer);
    let mut p = v.len();
    while p > 0
        invariant
            p <= v.len(),
            v@ == buffer@,
            forall|q: int| p <= q < v.len() ==> is_ws(#[trigger] v@[q]),
        decreases p,
    {
        if !is_whitespace(v[p - 1]) {
            let pos = p - 1;
            let start = match last_newline_before(&v, pos) {
                Some(k) => k + 1,
                None => 0,
            };
            let r = (start + 1 < v.len() && v[start] == ' ' && v[start + 1] == ' ')
                || (start < v.len() && v[start] == '\t');
            proof {
                assert(!is_ws(buffer@[pos as int]));
                assert(forall|q: int| pos < q < buffer@.len() ==> is_ws(#[trigger] buffer@[q]));
                assert(buffer@.subrange(0, pos as int) =~= v@.subrange(0, pos as int));
                if in_block(buffer@) {
                    let p2 = choose|p2: int| 0 <= p2 < buffer@.len() && !is_ws(buffer@[p2])
                        && (forall|q: int| p2 < q < buffer@.len() ==> is_ws(#[trigger] buffer@[q]))
                        && {
                            let start = last_newline(buffer@.subrange(0, p2)) + 1;
                            (start + 1 < buffer@.len() && buffer@[start] == ' ' && buffer@[start + 1] == ' ')
                                || (start < buffer@.len() && buffer@[start] == '\t')
                        };
                    if p2 < pos {
                        assert(is_ws(buffer@[pos as int]));
                    } else if p2 > pos {
                        assert(is_ws(buffer@[p2]));
                    }
                }
                if r {
                    assert(in_block(buffer@));
                }
            }
            return r;
        }
        p = p - 1;
    }
    proof {
        if in_block(buffer@) {
            let p2 = choose|p2: int| 0 <= p2 < buffer@.len() && !is_ws(buffer@[p2]);
            assert(is_ws(v@[p2]));
        }
    }
    false
}

fn lead_ws_bytes_from(v: &Vec<char>, start: usize, end: usize) -> (n: usize)
    requires
        start <= end <= v.len(),
        end <= usize::MAX / 4,
    ensures
        n == lead_ws_bytes(v@.subrange(start as int, end as int)),
        n <= 4 * (end - start),
    decreases end - start,
{
    if start < end && is_whitespace(v[start]) {
        assert(v@.subrange(start as int, end as int).drop_first() =~= v@.subrange(start + 1, end as int));
        let rest = lead_ws_bytes_from(v, start + 1, end);
        char_utf8_len(v[start]) + rest
    } else {
        0
    }
}

fn make_spaces(n: usize) -> (s: String)
    ensures
        s@ == spaces(n as nat),
{
    let mut s = String::new();
    let mut i: usize = 0;
    while i < n
        invariant
            i <= n,
            s@ == spaces(i as nat),
        decreases n - i,
    {
        crate::text::push_char(&mut s, ' ');
        i = i + 1;
        assert(s@ =~= spaces(i as nat));
    }
    s
}

/// The indentation offered for the line after the buffer (see
/// `indent_after`).
pub fn calculate_indent(buffer: &str) -> (r: String)
    requires
        buffer@.len() <= usize::MAX / 8,
    ensures
        r@ == indent_after(buffer@),
{
    let v = str_chars(buffer);
    if v.len() == 0 {
        return String::new();
    }
    let (start, end) = if v[v.len() - 1] == '\n' {
        let t = v.len() - 1;
        let s = match last_newline_before(&v, t) {
            Some(k) => k + 1,
            None => 0,
        };
        assert(v@.drop_last() =~= v@.subrange(0, t as int));
        if t > s && v[t - 1] == '\r' {
            assert(v@.subrange(0, t as int).subrange(s as int, t as int).drop_last() =~= v@.subrange(s as int, t - 1));
            (s, t - 1)
        } else {
            assert(v@.subrange(0, t as int).subrange(s as int, t as int) =~= v@.subrange(s as int, t as int));
            (s, t)
        }
    } else {
        let s = match last_newline_before(&v, v.len()) {
            Some(k) => k + 1,
            None => 0,
        };
        assert(v@.subrange(0, v.len() as int) =~= v@);
        (s, v.len())
    };
    assert(last_line(buffer@) == v@.subrange(start as int, end as int));
    let n = lead_ws_bytes_from(&v, start, end);
    let tn = trim_end_len_from(&v, start, end);
    if tn > start && v[tn - 1] == ':' {
        make_spaces(n + 2)
    } else if n > 0 {
        make_spaces(n)
    } else {
        String::new()
    }
}

fn trim_end_len_from(v: &Vec<char>, start: usize, end: usize) -> (n: usize)
    requires
        start <= end <= v.len(),
    ensures
        start <= n <= end,
        trim_end(v@.subrange(start as int, end as int)) == v@.subrange(start as int, n as int),
    decreases end - start,
{
    if end > start && is_whitespace(v[end - 1]) {
        assert(v@.subrange(start as int, end as int).drop_last() =~= v@.subrange(start as int, end - 1));
        trim_end_len_from(v, start, end - 1)
    } else {
        end
    }
}

} // verus!
