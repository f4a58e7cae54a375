//! The native methods of strings: case mapping, stripping, replacing,
//! prefix and suffix tests, searching and counting.

use vstd::prelude::*;
use crate::lexer::{str_chars, byte_offset};
use crate::text::{decimal_digits, u64_to_string};
use crate::vm::values::{trim, trim_spec, chars_to_string};

verus! {

/// An error of a native method.
#[derive(Debug, Clone)]
pub struct NativeError {
    pub message: String,
}

impl NativeError {
    /// An error with the given message.
    pub fn new(message: String) -> (e: Self)
        ensures
            e.message == message,
    {
        NativeError { message }
    }

    /// "expected {expected}, got {got}".
    pub fn type_error(expected: &str, got: &str) -> (e: Self)
        ensures
            e.message@ == "expected "@ + expected@ + ", got "@ + got@,
    {
        let mut m = "expected ".to_owned();
        m.append(expected);
        m.append(", got ");
        m.append(got);
        NativeError { message: m }
    }

    /// "{method} takes {expected} argument(s) but {got} given".
    pub fn arity_error(method: &str, expected: usize, got: usize) -> (e: Self)
        ensures
            e.message@ == method@ + " takes "@ + decimal_digits(expected as nat) + " argument(s) but "@
                + decimal_digits(got as nat) + " given"@,
    {
        let mut m = method.to_owned();
        m.append(" takes ");
        let a = u64_to_string(expected as u64);
        m.append(a.as_str());
        m.append(" argument(s) but ");
        let b = u64_to_string(got as u64);
        m.append(b.as_str());
        m.append(" given");
        NativeError { message: m }
    }
}

/// The upper-case form of a text under Unicode's case mapping (what
/// `str::to_uppercase` returns).
pub uninterp spec fn upper_text(s: Seq<char>) -> Seq<char>;

/// The lower-case form of a text under Unicode's case mapping (what
/// `str::to_lowercase` returns).
pub uninterp spec fn lower_text(s: Seq<char>) -> Seq<char>;

/// `str::to_uppercase`. Claims: the result is a function of the text alone.
#[verifier::external_body]
fn to_uppercase(s: &str) -> (r: String)
    ensures
        r@ == upper_text(s@),
{
    s.to_uppercase()
}

/// `str::to_lowercase`. Claims: the result is a function of the text alone.
#[verifier::external_body]
fn to_lowercase(s: &str) -> (r: String)
    ensures
        r@ == lower_text(s@),
{
    s.to_lowercase()
}

/// Whether `p` occurs in `s` at index `i`.
pub open spec fn occurs_at(s: Seq<char>, p: Seq<char>, i: int) -> bool {
    0 <= i && i + p.len() <= s.len() && s.subrange(i, i + p.len()) == p
}

/// The first index from `i` on at which `p` occurs in `s`.
pub open spec fn find_from(s: Seq<char>, p: Seq<char>, i: int) -> Option<int>
    decreases s.len() + 1 - i,
{
    if i < 0 || i + p.len() > s.len() {
        None
    } else if occurs_at(s, p, i) {
        Some(i)
    } else {
        find_from(s, p, i + 1)
    }
}

/// The number of non-overlapping occurrences of a non-empty `p` in `s` from
/// index `i` on, taken left to right.
pub open spec fn count_from(s: Seq<char>, p: Seq<char>, i: int) -> nat
    decreases s.len() - i,
{
    if p.len() == 0 || i < 0 || i + p.len() > s.len() {
        0
    } else if occurs_at(s, p, i) {
        1 + count_from(s, p, i + p.len())
    } else {
        count_from(s, p, i + 1)
    }
}

/// The number of matches `str::matches` yields: an empty pattern matches
/// before every character and at the end.
pub open spec fn count_spec(s: Seq<char>, p: Seq<char>) -> nat {
    if p.len() == 0 { s.len() + 1 } else { count_from(s, p, 0) }
}

/// `s` from index `i` on with every non-overlapping occurrence of a
/// non-empty `p`, left to right, replaced by `r`.
pub open spec fn replace_from(s: Seq<char>, p: Seq<char>, r: Seq<char>, i: int) -> Seq<char>
    decreases s.len() - i,
{
    if p.len() == 0 || i < 0 || i >= s.len() {
        Seq::empty()
    } else if occurs_at(s, p, i) {
        r + replace_from(s, p, r, i + p.len())
    } else {
        seq![s[i]] + replace_from(s, p, r, i + 1)
    }
}

/// `s` from index `i` on with `r` after every character.
pub open spec fn interleave_from(s: Seq<char>, r: Seq<char>, i: int) -> Seq<char>
    decreases s.len() - i,
{
    if i < 0 || i >= s.len() { Seq::empty() } else { seq![s[i]] + r + interleave_from(s, r, i + 1) }
}

/// What `str::replace` returns: with an empty pattern, `r` goes before every
/// character and at the end.
pub open spec fn replace_spec(s: Seq<char>, p: Seq<char>, r: Seq<char>) -> Seq<char> {
    if p.len() == 0 { r + interleave_from(s, r, 0) } else { replace_from(s, p, r, 0) }
}

fn occurs(v: &Vec<char>, p: &Vec<char>, i: usize) -> (r: bool)
    ensures
        r == occurs_at(v@, p@, i as int),
{
    if i > v.len() || p.len() > v.len() - i {
        return false;
    }
    let mut k: usize = 0;
    while k < p.len()
        invariant
            k <= p.len(),
            i + p.len() <= v.len(),
            forall|m: int| 0 <= m < k ==> v@[i + m] == p@[m],
        decreases p.len() - k,
    {
        if v[i + k] != p[k] {
            assert(v@.subrange(i as int, i + p.len())[k as int] != p@[k as int]);
            return false;
        }
        k = k + 1;
    }
    assert(v@.subrange(i as int, i + p.len()) =~= p@);
    true
}

/// Whether `s` starts with `p`.
pub fn starts_with(s: &str, p: &str) -> (r: bool)
    ensures
        r == occurs_at(s@, p@, 0),
{
    let v = str_chars(s);
    let q = str_chars(p);
    occurs(&v, &q, 0)
}

/// Whether `s` ends with `p`.
pub fn ends_with(s: &str, p: &str) -> (r: bool)
    ensures
        r == (p@.len() <= s@.len() && occurs_at(s@, p@, s@.len() - p@.len())),
{
    let v = str_chars(s);
    let q = str_chars(p);
    if q.len() > v.len() {
        return false;
    }
    occurs(&v, &q, v.len() - q.len())
}

/// The index of the first occurrence of `p` in `s`.
pub fn find(s: &str, p: &str) -> (r: Option<usize>)
    ensures
        r matches Some(i) ==> find_from(s@, p@, 0) == Some(i as int) && i <= s@.len(),
        r is None ==> find_from(s@, p@, 0) is None,
{
    let v = str_chars(s);
    let q = str_chars(p);
    let mut i: usize = 0;
    loop
        invariant
            i <= v.len(),
            v@ == s@,
            q@ == p@,
            find_from(s@, p@, 0) == find_from(s@, p@, i as int),
        decreases v.len() - i,
    {
        if q.len() > v.len() - i {
            return None;
        }
        if occurs(&v, &q, i) {
            return Some(i);
        }
        if i == v.len() {
            assert(find_from(s@, p@, i + 1) is None);
            return None;
        }
        i = i + 1;
    }
}

/// The byte offset at which the character with index `i` of `s` starts,
/// where it is at most `i64::MAX`.
pub fn byte_offset_of(s: &str, i: usize) -> (r: Option<u64>)
    requires
        i <= s@.len(),
    ensures
        r matches Some(n) ==> n == byte_offset(s@, i as int),
        r is None <==> byte_offset(s@, i as int) > i64::MAX,
{
    let v = str_chars(s);
    let mut k: usize = 0;
    let mut n: u64 = 0;
    while k < i
        invariant
            k <= i <= v.len(),
            v@ == s@,
            n == byte_offset(s@, k as int),
            n <= i64::MAX,
        decreases i - k,
    {
        let c = crate::lexer::char_utf8_len(v[k]) as u64;
        if n + c > 0x7fff_ffff_ffff_ffffu64 {
            proof { crate::lexer::lemma_byte_offset_mono(s@, k + 1, i as int); }
            return None;
        }
        n = n + c;
        k = k + 1;
    }
    Some(n)
}

/// The number of matches of `p` in `s` (see `count_spec`), where it fits in
/// a `u64`.
pub fn count(s: &str, p: &str) -> (r: Option<u64>)
    ensures
        r matches Some(n) ==> n == count_spec(s@, p@),
        r is None ==> count_spec(s@, p@) > u64::MAX,
{
    let v = str_chars(s);
    let q = str_chars(p);
    if q.len() == 0 {
        let l = v.len() as u64;
        if l == 0xffff_ffff_ffff_ffffu64 {
            return None;
        }
        return Some(l + 1);
    }
    let mut n: u64 = 0;
    let mut i: usize = 0;
    while i < v.len()
        invariant
            i <= v.len(),
            q.len() > 0,
            v@ == s@,
            q@ == p@,
            n <= i,
            n + count_from(s@, p@, i as int) == count_from(s@, p@, 0),
        decreases v.len() + q.len() - i,
    {
        if q.len() > v.len() - i {
            return Some(n);
        }
        if occurs(&v, &q, i) {
            n = n + 1;
            i = i + q.len();
        } else {
            i = i + 1;
        }
    }
    Some(n)
}

/// Every non-overlapping occurrence of `p` in `s` replaced by `r` (see
/// `replace_spec`).
pub fn replace(s: &str, p: &str, r: &str) -> (out: String)
    ensures
        out@ == replace_spec(s@, p@, r@),
{
    let v = str_chars(s);
    let q = str_chars(p);
    let mut out = String::new();
    if q.len() == 0 {
        out.append(r);
        let mut i: usize = 0;
        while i < v.len()
            invariant
                i <= v.len(),
                v@ == s@,
                out@ + interleave_from(s@, r@, i as int) == r@ + interleave_from(s@, r@, 0),
            decreases v.len() - i,
        {
            let ghost before = out@;
            crate::text::push_char(&mut out, v[i]);
            out.append(r);
            assert(out@ =~= before + seq![s@[i as int]] + r@);
            assert(before + interleave_from(s@, r@, i as int) =~= out@ + interleave_from(s@, r@, i + 1));
            i = i + 1;
        }
        assert(out@ + interleave_from(s@, r@, i as int) =~= out@);
        return out;
    }
    let mut i: usize = 0;
    while i < v.len()
        invariant
            i <= v.len() + q.len(),
            q.len() > 0,
            v@ == s@,
            q@ == p@,
            out@ + replace_from(s@, p@, r@, i as int) == replace_from(s@, p@, r@, 0),
        decreases v.len() + q.len() - i,
    {
        let ghost before = out@;
        if q.len() <= v.len() - i && occurs(&v, &q, i) {
            out.append(r);
            assert(before + replace_from(s@, p@, r@, i as int) =~= out@ + replace_from(s@, p@, r@, i + q.len()));
            i = i + q.len();
        } else {
            crate::text::push_char(&mut out, v[i]);
            assert(before + replace_from(s@, p@, r@, i as int) =~= out@ + replace_from(s@, p@, r@, i + 1));
            i = i + 1;
        }
    }
    assert(out@ + replace_from(s@, p@, r@, i as int) =~= out@);
    out
}

/// The result of a native string method: a new string, a boolean or an
/// integer.
#[derive(Debug)]
pub enum StrResult {
    Text(String),
    Flag(bool),
    Number(i64),
}

/// `str.upper()`.
pub fn str_upper(s: &str) -> (r: String)
    ensures
        r@ == upper_text(s@),
{
    to_uppercase(s)
}

/// `str.lower()`.
pub fn str_lower(s: &str) -> (r: String)
    ensures
        r@ == lower_text(s@),
{
    to_lowercase(s)
}

/// `str.strip()`.
pub fn str_strip(s: &str) -> (r: String)
    ensures
        r@ == trim_spec(s@),
{
    trim(s)
}

} // verus!
