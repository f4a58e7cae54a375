//! Operations on runtime values that do not need the heap: conversions,
//! equality, ordering of strings, and text forms.

use vstd::prelude::*;
use crate::vm::bytecode::Value;
use crate::builtins::BuiltinClassType;
use crate::lexer::{digits_value, is_ascii_digit, str_chars};
use crate::vm::decimal::{all_digits, exponent_clamped, exponent_value, find_dot, find_exp, float_int, float_literal,
    fraction_digits, integer_part, lemma_far_shift, mantissa, whole_digits};
use crate::repl::{is_ws, is_whitespace};
use crate::text::{decimal_digits, digit_char, int_text, i64_to_string};

verus! {

/// The text after an optional sign.
pub open spec fn int_digits(s: Seq<char>) -> Seq<char> {
    if s.len() > 0 && (s[0] == '-' || s[0] == '+') { s.drop_first() } else { s }
}

/// The integer a text denotes in Rust's `i64` syntax: an optional sign and
/// one or more decimal digits, within range.
pub open spec fn parse_int_spec(s: Seq<char>) -> Option<int> {
    let neg = s.len() > 0 && s[0] == '-';
    let digits = int_digits(s);
    if digits.len() == 0 || !(forall|k: int| 0 <= k < digits.len() ==> is_ascii_digit(#[trigger] digits[k])) {
        None
    } else {
        let v: int = if neg { -(digits_value(digits) as int) } else { digits_value(digits) as int };
        if i64::MIN <= v <= i64::MAX { Some(v) } else { None }
    }
}

/// Parses a text as `i64` (see `parse_int_spec`).
pub fn parse_int(s: &str) -> (r: Option<i64>)
    ensures
        r matches Some(v) ==> parse_int_spec(s@) == Some(v as int),
        r is None ==> parse_int_spec(s@) is None,
{
    let v = str_chars(s);
    let n = v.len();
    if n == 0 {
        return None;
    }
    let neg = v[0] == '-';
    let start: usize = if v[0] == '-' || v[0] == '+' { 1 } else { 0 };
    let ghost digits = int_digits(s@);
    assert(digits =~= v@.subrange(start as int, n as int));
    if start == n {
        return None;
    }
    let mut acc: i128 = 0;
    let mut i = start;
    while i < n
        invariant
            start <= i <= n,
            n == v.len(),
            v@ == s@,
            digits == int_digits(s@),
            digits =~= v@.subrange(start as int, n as int),
            forall|k: int| start <= k < i ==> is_ascii_digit(#[trigger] v@[k]),
            0 <= acc <= 0x8000_0000_0000_0000,
            acc as int == digits_value(v@.subrange(start as int, i as int)),
        decreases n - i,
    {
        if !((v[i] as u32) >= 48 && (v[i] as u32) <= 57) {
            assert(digits[i - start] == v@[i as int]);
            assert(!is_ascii_digit(digits[i - start]));
            return None;
        }
        let d = (v[i] as u32 - 48) as i128;
        assert(v@.subrange(start as int, i + 1).drop_last() =~= v@.subrange(start as int, i as int));
        acc = acc * 10 + d;
        if acc > 0x8000_0000_0000_0000 {
            let mut j = i + 1;
            while j < n
                invariant
                    i < j <= n,
                    start <= i,
                    n == v.len(),
                    v@ == s@,
                    digits == int_digits(s@),
                    digits =~= v@.subrange(start as int, n as int),
                    forall|k: int| start <= k < j ==> is_ascii_digit(#[trigger] v@[k]),
                decreases n - j,
            {
                if !((v[j] as u32) >= 48 && (v[j] as u32) <= 57) {
                    assert(digits[j - start] == v@[j as int]);
                    assert(!is_ascii_digit(digits[j - start]));
                    return None;
                }
                j = j + 1;
            }
            proof { lemma_digits_value_prefix(v@, start as int, i as int + 1, n as int); }
            return None;
        }
        i = i + 1;
    }
    assert(v@.subrange(start as int, n as int) =~= digits);
    if neg {
        let r = -acc;
        if r < -0x8000_0000_0000_0000 {
            return None;
        }
        Some(r as i64)
    } else {
        if acc > 0x7fff_ffff_ffff_ffff {
            return None;
        }
        Some(acc as i64)
    }
}

proof fn lemma_digits_value_prefix(s: Seq<char>, start: int, i: int, end: int)
    requires
        0 <= start <= i <= end <= s.len(),
        forall|k: int| start <= k < end ==> is_ascii_digit(#[trigger] s[k]),
    ensures
        digits_value(s.subrange(start, i)) <= digits_value(s.subrange(start, end)),
    decreases end - i,
{
    if i < end {
        lemma_digits_value_prefix(s, start, i + 1, end);
        assert(s.subrange(start, i + 1).drop_last() =~= s.subrange(start, i));
    }
}

/// A copy of a value.
pub fn clone_value(v: &Value) -> (r: Value)
    ensures
        r == *v,
{
    match v {
        Value::Int(i) => Value::Int(*i),
        Value::Bool(b) => Value::Bool(*b),
        Value::NoneVal => Value::NoneVal,
        Value::Float(t) => Value::Float(t.clone()),
        Value::Str(t) => Value::Str(t.clone()),
        Value::Class(id) => Value::Class(*id),
        Value::BuiltinClass(t) => Value::BuiltinClass(*t),
        Value::Ref(i) => Value::Ref(*i),
    }
}

/// Whether the mantissa of a float literal (the text before an exponent)
/// has a non-zero digit, i.e. whether the float is not zero.
pub open spec fn float_nonzero(t: Seq<char>) -> bool
    decreases t.len(),
{
    if t.len() == 0 || t[0] == 'e' || t[0] == 'E' {
        false
    } else if 49 <= (t[0] as u32) && (t[0] as u32) <= 57 {
        true
    } else {
        float_nonzero(t.drop_first())
    }
}

/// Whether a float literal is not zero (see `float_nonzero`).
pub fn float_text_nonzero(t: &str) -> (r: bool)
    ensures
        r == float_nonzero(t@),
{
    let v = str_chars(t);
    let mut i: usize = 0;
    assert(t@.subrange(0, t@.len() as int) =~= t@);
    while i < v.len()
        invariant
            i <= v.len(),
            v@ == t@,
            float_nonzero(t@) == float_nonzero(t@.subrange(i as int, t@.len() as int)),
        decreases v.len() - i,
    {
        let c = v[i];
        assert(t@.subrange(i as int, t@.len() as int)[0] == c);
        assert(t@.subrange(i as int, t@.len() as int).drop_first() =~= t@.subrange(i + 1, t@.len() as int));
        if c == 'e' || c == 'E' {
            return false;
        }
        if (c as u32) >= 49 && (c as u32) <= 57 {
            return true;
        }
        i = i + 1;
    }
    false
}

/// The integer part of a float literal (see `float_int`): its digits with
/// the point moved by its exponent, rounded down and held at `i64::MAX`.
/// Any other text gives some non-negative number.
pub fn float_text_trunc(t: &str) -> (r: i64)
    ensures
        r >= 0,
        float_literal(t@) ==> r == float_int(t@),
{
    let v = str_chars(t);
    let n = v.len();
    let ie = find_exp(&v);
    let dp = find_dot(&v, ie);
    let ghost m = v@.take(ie as int);
    assert(mantissa(t@) == m);
    if dp >= ie {
        return 0;
    }
    assert(whole_digits(t@) =~= v@.take(dp as int));
    assert(fraction_digits(t@) =~= v@.subrange(dp + 1, ie as int));
    let mut ds: Vec<char> = Vec::new();
    let mut k: usize = 0;
    assert(v@.take(0) =~= Seq::<char>::empty());
    while k < ie
        invariant
            k <= ie <= n,
            n == v.len(),
            dp < ie,
            ds@ == (if k <= dp { v@.take(k as int) } else { v@.take(dp as int) + v@.subrange(dp + 1, k as int) }),
        decreases ie - k,
    {
        if k != dp {
            ds.push(v[k]);
        }
        proof {
            if k < dp {
                assert(v@.take(k + 1) =~= v@.take(k as int).push(v@[k as int]));
            } else if k == dp {
                assert(v@.subrange(dp + 1, dp + 1) =~= Seq::<char>::empty());
                assert(v@.take(dp as int) + v@.subrange(dp + 1, dp + 1) =~= v@.take(dp as int));
            } else {
                assert(v@.subrange(dp + 1, k + 1) =~= v@.subrange(dp + 1, k as int).push(v@[k as int]));
                assert(v@.take(dp as int) + v@.subrange(dp + 1, k + 1)
                    =~= (v@.take(dp as int) + v@.subrange(dp + 1, k as int)).push(v@[k as int]));
            }
        }
        k = k + 1;
    }
    let ghost whole = whole_digits(t@);
    let ghost frac = fraction_digits(t@);
    assert(ds@ == whole + frac);
    let mut j: usize = 0;
    while j < ds.len()
        invariant
            j <= ds@.len(),
            ds@ == whole + frac,
            whole == whole_digits(t@),
            frac == fraction_digits(t@),
            forall|i: int| 0 <= i < j ==> is_ascii_digit(#[trigger] ds@[i]),
        decreases ds@.len() - j,
    {
        if !((ds[j] as u32) >= 48 && (ds[j] as u32) <= 57) {
            proof {
                if (j as int) < whole.len() {
                    assert(whole[j as int] == ds@[j as int]);
                    assert(!all_digits(whole));
                } else {
                    assert(frac[j - whole.len()] == ds@[j as int]);
                    assert(!all_digits(frac));
                }
            }
            return 0;
        }
        j = j + 1;
    }
    assert(all_digits(ds@));
    let cap: i128 = n as i128 + 40;
    match exponent_clamped(&v, ie, cap) {
        None => 0,
        Some(e) => {
            let q = dp as i128 + e;
            proof {
                let ex = exponent_value(t@.skip(ie as int))->0;
                assert(ds@.len() == ie - 1);
                if ex > cap {
                    lemma_far_shift(ds@, q as int);
                    lemma_far_shift(ds@, dp + ex);
                } else if ex < -cap {
                    lemma_far_shift(ds@, q as int);
                    lemma_far_shift(ds@, dp + ex);
                }
            }
            integer_part(&ds, q)
        },
    }
}

/// Truthiness of a value that `bool()` uses: false for False, 0, a zero
/// float, None and the empty string; true otherwise.
pub open spec fn to_bool_spec(v: Value) -> bool {
    match v {
        Value::Bool(b) => b,
        Value::Int(i) => i != 0,
        Value::Float(t) => float_nonzero(t@),
        Value::Str(s) => s@.len() > 0,
        Value::NoneVal => false,
        _ => true,
    }
}

/// `bool()` on a value.
pub fn to_bool(v: &Value) -> (r: bool)
    ensures
        r == to_bool_spec(*v),
{
    match v {
        Value::Bool(b) => *b,
        Value::Int(i) => *i != 0,
        Value::Float(t) => float_text_nonzero(t.as_str()),
        Value::Str(s) => s.unicode_len() > 0,
        Value::NoneVal => false,
        _ => true,
    }
}

/// `==` on values: integers, booleans and None by value, strings by their
/// text, classes by id, heap objects by identity; values of different kinds
/// are unequal.
pub open spec fn eq_spec(a: Value, b: Value) -> bool {
    match (a, b) {
        (Value::Int(x), Value::Int(y)) => x == y,
        (Value::Bool(x), Value::Bool(y)) => x == y,
        (Value::NoneVal, Value::NoneVal) => true,
        (Value::Str(x), Value::Str(y)) => x@ == y@,
        (Value::Float(x), Value::Float(y)) => x@ == y@,
        (Value::Class(x), Value::Class(y)) => x == y,
        (Value::BuiltinClass(x), Value::BuiltinClass(y)) => x == y,
        (Value::Ref(x), Value::Ref(y)) => x == y,
        _ => false,
    }
}

/// Tests `eq_spec`.
pub fn eq_vals(a: &Value, b: &Value) -> (r: bool)
    ensures
        r == eq_spec(*a, *b),
{
    match (a, b) {
        (Value::Int(x), Value::Int(y)) => *x == *y,
        (Value::Bool(x), Value::Bool(y)) => *x == *y,
        (Value::NoneVal, Value::NoneVal) => true,
        (Value::Str(x), Value::Str(y)) => crate::builtins::str_eq(x.as_str(), y.as_str()),
        (Value::Float(x), Value::Float(y)) => crate::builtins::str_eq(x.as_str(), y.as_str()),
        (Value::Class(x), Value::Class(y)) => *x == *y,
        (Value::BuiltinClass(x), Value::BuiltinClass(y)) => class_type_eq(*x, *y),
        (Value::Ref(x), Value::Ref(y)) => *x == *y,
        _ => false,
    }
}

fn class_type_eq(x: BuiltinClassType, y: BuiltinClassType) -> (r: bool)
    ensures
        r == (x == y),
{
    match (x, y) {
        (BuiltinClassType::Range, BuiltinClassType::Range) => true,
        (BuiltinClassType::List, BuiltinClassType::List) => true,
        (BuiltinClassType::Dict, BuiltinClassType::Dict) => true,
        _ => false,
    }
}

/// Whether `a` comes before `b` in the order of their characters' code
/// points (the order of Rust's `str`).
pub open spec fn text_lt(a: Seq<char>, b: Seq<char>) -> bool
    decreases a.len(),
{
    if a.len() == 0 {
        b.len() > 0
    } else if b.len() == 0 {
        false
    } else if a[0] != b[0] {
        (a[0] as u32) < (b[0] as u32)
    } else {
        text_lt(a.drop_first(), b.drop_first())
    }
}

/// Tests `text_lt`.
pub fn str_lt(a: &str, b: &str) -> (r: bool)
    ensures
        r == text_lt(a@, b@),
{
    let x = str_chars(a);
    let y = str_chars(b);
    let mut i: usize = 0;
    assert(x@.subrange(0, x@.len() as int) =~= a@);
    assert(y@.subrange(0, y@.len() as int) =~= b@);
    while i < x.len() && i < y.len()
        invariant
            i <= x.len(),
            i <= y.len(),
            x@ == a@,
            y@ == b@,
            text_lt(a@, b@) == text_lt(x@.subrange(i as int, x@.len() as int), y@.subrange(i as int, y@.len() as int)),
        decreases x.len() - i,
    {
        let ghost xs = x@.subrange(i as int, x@.len() as int);
        let ghost ys = y@.subrange(i as int, y@.len() as int);
        assert(xs[0] == x@[i as int] && ys[0] == y@[i as int]);
        if x[i] != y[i] {
            return (x[i] as u32) < (y[i] as u32);
        }
        assert(xs.drop_first() =~= x@.subrange(i + 1, x@.len() as int));
        assert(ys.drop_first() =~= y@.subrange(i + 1, y@.len() as int));
        i = i + 1;
    }
    i < y.len()
}

/// The text without white space at either end.
pub open spec fn trim_spec(s: Seq<char>) -> Seq<char> {
    crate::repl::trim_end(trim_start_spec(s))
}

/// The text without its leading white space.
pub open spec fn trim_start_spec(s: Seq<char>) -> Seq<char>
    decreases s.len(),
{
    if s.len() > 0 && is_ws(s[0]) { trim_start_spec(s.drop_first()) } else { s }
}

fn skip_ws(v: &Vec<char>, start: usize) -> (r: usize)
    requires
        start <= v.len(),
    ensures
        start <= r <= v.len(),
        trim_start_spec(v@.subrange(start as int, v@.len() as int)) == v@.subrange(r as int, v@.len() as int),
    decreases v.len() - start,
{
    if start < v.len() && is_whitespace(v[start]) {
        assert(v@.subrange(start as int, v@.len() as int).drop_first() =~= v@.subrange(start + 1, v@.len() as int));
        skip_ws(v, start + 1)
    } else {
        start
    }
}

fn back_ws(v: &Vec<char>, start: usize, end: usize) -> (r: usize)
    requires
        start <= end <= v.len(),
    ensures
        start <= r <= end,
        crate::repl::trim_end(v@.subrange(start as int, end as int)) == v@.subrange(start as int, r as int),
    decreases end - start,
{
    if end > start && is_whitespace(v[end - 1]) {
        assert(v@.subrange(start as int, end as int).drop_last() =~= v@.subrange(start as int, end - 1));
        back_ws(v, start, end - 1)
    } else {
        end
    }
}

/// The text of `v[start..end]`.
pub fn chars_to_string(v: &Vec<char>, start: usize, end: usize) -> (s: String)
    requires
        start <= end <= v.len(),
    ensures
        s@ == v@.subrange(start as int, end as int),
{
    let mut s = String::new();
    let mut i = start;
    while i < end
        invariant
            start <= i <= end <= v.len(),
            s@ == v@.subrange(start as int, i as int),
        decreases end - i,
    {
        crate::text::push_char(&mut s, v[i]);
        i = i + 1;
        assert(s@ =~= v@.subrange(start as int, i as int));
    }
    s
}

/// The text without white space at either end (what `str::trim` gives).
pub fn trim(s: &str) -> (r: String)
    ensures
        r@ == trim_spec(s@),
{
    let v = str_chars(s);
    assert(v@.subrange(0, v@.len() as int) =~= s@);
    let a = skip_ws(&v, 0);
    let b = back_ws(&v, a, v.len());
    chars_to_string(&v, a, b)
}

/// The text form of a value that does not live in the heap, as `print`
/// writes it.
pub open spec fn display_plain(v: Value) -> Seq<char> {
    match v {
        Value::Int(i) => int_text(i as int),
        Value::Bool(b) => if b { "True"@ } else { "False"@ },
        Value::NoneVal => "None"@,
        Value::Float(t) => t@,
        Value::Str(s) => s@,
        Value::Class(id) => "<class "@ + int_text(id as int) + ">"@,
        Value::BuiltinClass(t) => "<class '"@ + crate::builtins::class_type_name(t) + "'>"@,
        Value::Ref(_) => "<object>"@,
    }
}

/// Writes a value that does not live in the heap (see `display_plain`).
pub fn display_plain_value(v: &Value) -> (s: String)
    ensures
        s@ == display_plain(*v),
{
    match v {
        Value::Int(i) => i64_to_string(*i),
        Value::Bool(b) => if *b { "True".to_owned() } else { "False".to_owned() },
        Value::NoneVal => "None".to_owned(),
        Value::Float(t) => t.clone(),
        Value::Str(s) => s.clone(),
        Value::Class(id) => {
            let mut s = "<class ".to_owned();
            let n = i64_to_string(*id as i64);
            s.append(n.as_str());
            s.append(">");
            s
        },
        Value::BuiltinClass(t) => {
            let mut s = "<class '".to_owned();
            s.append(t.name());
            s.append("'>");
            s
        },
        Value::Ref(_) => "<object>".to_owned(),
    }
}

proof fn lemma_digit_char(d: nat)
    requires
        d < 10,
    ensures
        digit_char(d) as u32 == 48 + d,
{
}

proof fn lemma_decimal_digits(n: nat)
    ensures
        decimal_digits(n).len() > 0,
        forall|k: int| 0 <= k < decimal_digits(n).len() ==> is_ascii_digit(#[trigger] decimal_digits(n)[k]),
        digits_value(decimal_digits(n)) == n,
        is_ascii_digit(decimal_digits(n)[0]),
    decreases n,
{
    if n < 10 {
        lemma_digit_char(n);
        assert(decimal_digits(n) =~= seq![digit_char(n)]);
        assert(seq![digit_char(n)].drop_last() =~= Seq::<char>::empty());
        assert(digits_value(Seq::<char>::empty()) == 0);
        assert(digits_value(seq![digit_char(n)]) == digits_value(seq![digit_char(n)].drop_last()) * 10 + ((digit_char(n) as u32) - 48) as nat);
    } else {
        lemma_decimal_digits(n / 10);
        lemma_digit_char(n % 10);
        let p = decimal_digits(n / 10);
        let c = digit_char(n % 10);
        assert(decimal_digits(n) == p.push(c));
        assert(p.push(c).drop_last() =~= p);
        assert(p.push(c)[0] == p[0]);
        assert(forall|k: int| 0 <= k < p.len() ==> p.push(c)[k] == p[k]);
        assert(digits_value(p.push(c)) == digits_value(p) * 10 + ((c as u32) - 48) as nat);
        assert((n / 10) * 10 + n % 10 == n) by (nonlinear_arith);
    }
}

/// Reading back the decimal text of an integer gives the integer:
/// `int(str(n)) == n` for every `n`.
pub proof fn law_parse_int_of_int_text(i: i64)
    ensures
        parse_int_spec(int_text(i as int)) == Some(i as int),
        parse_int_spec(display_plain(Value::Int(i))) == Some(i as int),
{
    if i < 0 {
        let n = (-(i as int)) as nat;
        lemma_decimal_digits(n);
        let s = int_text(i as int);
        assert(s == seq!['-'] + decimal_digits(n));
        assert(s[0] == '-');
        assert(int_digits(s) =~= decimal_digits(n));
    } else {
        let n = i as nat;
        lemma_decimal_digits(n);
        let s = int_text(i as int);
        assert(s == decimal_digits(n));
        assert(is_ascii_digit(s[0]));
        assert(int_digits(s) =~= decimal_digits(n));
    }
}

/// `==` on values is reflexive.
pub proof fn law_eq_reflexive(v: Value)
    ensures
        eq_spec(v, v),
{
}

/// `==` on values is symmetric.
pub proof fn law_eq_symmetric(a: Value, b: Value)
    ensures
        eq_spec(a, b) == eq_spec(b, a),
{
}

} // verus!
