//! Decimal numbers written as text: the integer part of a number given by
//! its digits and a power of ten, as `int()` takes it of a float literal.

use vstd::prelude::*;
use crate::lexer::{digits_value, is_ascii_digit};

verus! {

/// Ten to the power `n`.
pub open spec fn pow10(n: nat) -> nat
    decreases n,
{
    if n == 0 { 1 } else { 10 * pow10((n - 1) as nat) }
}

/// Whether every character of a text is a decimal digit.
pub open spec fn all_digits(s: Seq<char>) -> bool {
    forall|k: int| 0 <= k < s.len() ==> is_ascii_digit(#[trigger] s[k])
}

/// `m` times ten to the power `shift` (which may be negative), rounded down.
pub open spec fn shifted_floor(m: nat, shift: int) -> nat {
    if shift >= 0 { m * pow10(shift as nat) } else { m / pow10((-shift) as nat) }
}

/// A count held at `i64::MAX`.
pub open spec fn held(v: nat) -> i64 {
    if v > i64::MAX { i64::MAX } else { v as i64 }
}

/// The digit at index `k` of `d`, and 0 past its end.
pub open spec fn digit_at(d: Seq<char>, k: int) -> nat {
    if 0 <= k < d.len() { ((d[k] as u32) - 48) as nat } else { 0 }
}

/// The number that the digits of `d` from index `a` up to `b` make, with
/// zeros read past the end of `d`.
pub open spec fn window_value(d: Seq<char>, a: int, b: int) -> nat
    decreases b - a,
{
    if b <= a { 0 } else { window_value(d, a, b - 1) * 10 + digit_at(d, b - 1) }
}

pub(crate) proof fn lemma_pow10_positive(n: nat)
    ensures
        pow10(n) >= 1,
    decreases n,
{
    if n > 0 {
        lemma_pow10_positive((n - 1) as nat);
    }
}

proof fn lemma_pow10_grows(a: nat, b: nat)
    requires
        a <= b,
    ensures
        pow10(a) <= pow10(b),
    decreases b,
{
    if a < b {
        lemma_pow10_grows(a, (b - 1) as nat);
        lemma_pow10_positive((b - 1) as nat);
    }
}

proof fn lemma_pow10_19()
    ensures
        pow10(19) == 10_000_000_000_000_000_000nat,
{
    reveal_with_fuel(pow10, 20);
}

/// The digits of a text of digits make less than ten to the power of its
/// length.
pub(crate) proof fn lemma_digits_below(s: Seq<char>)
    requires
        all_digits(s),
    ensures
        digits_value(s) < pow10(s.len()),
    decreases s.len(),
{
    if s.len() > 0 {
        assert(all_digits(s.drop_last())) by {
            assert forall|k: int| 0 <= k < s.drop_last().len() implies is_ascii_digit(#[trigger] s.drop_last()[k]) by {
                assert(s.drop_last()[k] == s[k]);
            }
        }
        lemma_digits_below(s.drop_last());
        assert(is_ascii_digit(s[s.len() - 1]));
    }
}

/// Splitting a text of digits: the first `q` digits, shifted, plus the rest.
pub(crate) proof fn lemma_digits_split(s: Seq<char>, q: int)
    requires
        0 <= q <= s.len(),
    ensures
        digits_value(s) == digits_value(s.take(q)) * pow10((s.len() - q) as nat) + digits_value(s.skip(q)),
    decreases s.len() - q,
{
    if q < s.len() {
        let n = s.len();
        lemma_digits_split(s.drop_last(), q);
        assert(s.drop_last().take(q) =~= s.take(q));
        assert(s.skip(q).drop_last() =~= s.drop_last().skip(q));
        assert(s.skip(q).last() == s.last());
        let a = digits_value(s.take(q));
        let p = pow10((n - 1 - q) as nat);
        let b = digits_value(s.drop_last().skip(q));
        let d = ((s.last() as u32) - 48) as nat;
        assert(digits_value(s) == digits_value(s.drop_last()) * 10 + d);
        assert(digits_value(s.skip(q)) == digits_value(s.skip(q).drop_last()) * 10 + d);
        assert(pow10((n - q) as nat) == 10 * p);
        assert((a * p + b) * 10 + d == a * (10 * p) + (b * 10 + d)) by (nonlinear_arith);
        assert(digits_value(s.drop_last()) == a * p + b);
        assert(digits_value(s) == (a * p + b) * 10 + d);
        assert(digits_value(s.skip(q)) == b * 10 + d);
        assert(digits_value(s) == a * (10 * p) + digits_value(s.skip(q)));
        assert(a * pow10((n - q) as nat) == a * (10 * p));
        assert(digits_value(s) == digits_value(s.take(q)) * pow10((s.len() - q) as nat) + digits_value(s.skip(q)));
    } else {
        assert(s.take(q) =~= s);
        assert(s.skip(q) =~= Seq::<char>::empty());
        assert(pow10(0) == 1);
        assert(digits_value(Seq::<char>::empty()) == 0);
        assert(digits_value(s.take(q)) == digits_value(s));
        assert(digits_value(s.skip(q)) == 0);
        assert(pow10((s.len() - q) as nat) == 1);
        assert(digits_value(s) * 1 == digits_value(s));
    }
}

/// Within the digits, the window from the start is the value of a prefix.
proof fn lemma_window_prefix(d: Seq<char>, q: int)
    requires
        0 <= q <= d.len(),
    ensures
        window_value(d, 0, q) == digits_value(d.take(q)),
    decreases q,
{
    if q > 0 {
        lemma_window_prefix(d, q - 1);
        assert(d.take(q).drop_last() =~= d.take(q - 1));
    } else {
        assert(d.take(0) =~= Seq::<char>::empty());
    }
}

/// Past the digits, the window from the start adds zeros.
proof fn lemma_window_past(d: Seq<char>, q: int)
    requires
        d.len() <= q,
    ensures
        window_value(d, 0, q) == digits_value(d) * pow10((q - d.len()) as nat),
    decreases q - d.len(),
{
    if q > d.len() {
        lemma_window_past(d, q - 1);
        let a = digits_value(d);
        let p = pow10((q - 1 - d.len()) as nat);
        assert(window_value(d, 0, q) == window_value(d, 0, q - 1) * 10 + digit_at(d, q - 1));
        assert(digit_at(d, q - 1) == 0);
        assert(pow10((q - d.len()) as nat) == 10 * p);
        assert(a * p * 10 == a * (10 * p)) by (nonlinear_arith);
        assert(window_value(d, 0, q) == a * (10 * p));
        assert(a * pow10((q - d.len()) as nat) == a * (10 * p));
    } else {
        lemma_window_prefix(d, q);
        assert(d.take(q) =~= d);
        assert(pow10(0) == 1);
        assert(digits_value(d) * 1 == digits_value(d));
    }
}

/// A window splits at any point between its ends.
proof fn lemma_window_split(d: Seq<char>, a: int, m: int, b: int)
    requires
        a <= m <= b,
    ensures
        window_value(d, a, b) == window_value(d, a, m) * pow10((b - m) as nat) + window_value(d, m, b),
    decreases b - m,
{
    if m == b {
        assert(window_value(d, m, b) == 0);
        assert(pow10(0) == 1);
        assert(window_value(d, a, m) * 1 == window_value(d, a, m));
    }
    if m < b {
        lemma_window_split(d, a, m, b - 1);
        let x = window_value(d, a, m);
        let p = pow10((b - 1 - m) as nat);
        let y = window_value(d, m, b - 1);
        assert(window_value(d, a, b) == window_value(d, a, b - 1) * 10 + digit_at(d, b - 1));
        assert(window_value(d, m, b) == window_value(d, m, b - 1) * 10 + digit_at(d, b - 1));
        assert(pow10((b - m) as nat) == 10 * p);
        assert((x * p + y) * 10 + digit_at(d, b - 1) == x * (10 * p) + (y * 10 + digit_at(d, b - 1))) by (nonlinear_arith);
        assert(x * pow10((b - m) as nat) == x * (10 * p));
    }
}

/// A window of zero digits is zero.
proof fn lemma_window_zeros(d: Seq<char>, a: int, b: int)
    requires
        forall|k: int| a <= k < b ==> #[trigger] digit_at(d, k) == 0,
    ensures
        window_value(d, a, b) == 0,
    decreases b - a,
{
    if a < b {
        lemma_window_zeros(d, a, b - 1);
    }
}

/// A window that starts with a non-zero digit has as many digits as it is
/// long.
proof fn lemma_window_lead(d: Seq<char>, z: int, b: int)
    requires
        z < b,
        digit_at(d, z) >= 1,
    ensures
        window_value(d, z, b) >= pow10((b - z - 1) as nat),
{
    lemma_window_split(d, z, z + 1, b);
    assert(window_value(d, z, z) == 0);
    assert(window_value(d, z, z + 1) == window_value(d, z, z) * 10 + digit_at(d, z));
    let p = pow10((b - z - 1) as nat);
    assert(digit_at(d, z) * p >= p) by (nonlinear_arith)
        requires
            digit_at(d, z) >= 1,
    ;
}

/// The integer part of the digits `d` shifted so that `q` of them stand
/// before the point: zero where no non-zero digit does, the window of those
/// digits otherwise. `z` is the index of the first non-zero digit.
proof fn lemma_integer_part(d: Seq<char>, z: int, q: int)
    requires
        all_digits(d),
        0 <= z < d.len(),
        digit_at(d, z) >= 1,
        forall|k: int| 0 <= k < z ==> #[trigger] digit_at(d, k) == 0,
    ensures
        q <= z ==> shifted_floor(digits_value(d), q - d.len()) == 0,
        z < q ==> shifted_floor(digits_value(d), q - d.len()) == window_value(d, z, q),
        z < q ==> window_value(d, z, q) >= pow10((q - z - 1) as nat),
{
    let n = d.len() as int;
    let v = digits_value(d);
    if z < q {
        lemma_window_lead(d, z, q);
    }
    if q <= 0 {
        lemma_digits_below(d);
        lemma_pow10_grows(n as nat, (n - q) as nat);
        assert(v / pow10((n - q) as nat) == 0) by (nonlinear_arith)
            requires
                v < pow10((n - q) as nat),
        ;
    } else if q <= n {
        lemma_digits_split(d, q);
        assert forall|k: int| 0 <= k < d.skip(q).len() implies is_ascii_digit(#[trigger] d.skip(q)[k]) by {
            assert(d.skip(q)[k] == d[q + k]);
        }
        lemma_digits_below(d.skip(q));
        let p = pow10((n - q) as nat);
        lemma_pow10_positive((n - q) as nat);
        let a = digits_value(d.take(q));
        let b = digits_value(d.skip(q));
        assert(v == a * p + b);
        vstd::arithmetic::div_mod::lemma_fundamental_div_mod_converse(v as int, p as int, a as int, b as int);
        assert(v / p == a);
        if q == n {
            assert(p == 1);
            assert(b == 0) by (nonlinear_arith)
                requires
                    b < p,
                    p == 1,
            ;
            assert(a * 1 == a);
            assert(v * 1 == v);
            assert(shifted_floor(v, q - n) == v * pow10(0));
        } else {
            assert(shifted_floor(v, q - n) == v / p);
        }
        assert(shifted_floor(v, q - n) == a);
        lemma_window_prefix(d, q);
        let m = if z < q { z } else { q };
        lemma_window_split(d, 0, m, q);
        lemma_window_zeros(d, 0, m);
        let x = pow10((q - m) as nat);
        assert(0nat * x == 0nat) by (nonlinear_arith);
        assert(a == window_value(d, m, q));
        if q <= z {
            assert(window_value(d, q, q) == 0);
        }
    } else {
        lemma_window_past(d, q);
        lemma_window_split(d, 0, z, q);
        lemma_window_zeros(d, 0, z);
        let x = pow10((q - z) as nat);
        assert(0nat * x == 0nat) by (nonlinear_arith);
        assert(shifted_floor(v, q - n) == window_value(d, 0, q));
    }
}

/// The integer part of `digits_value(d)` times ten to the power `q - |d|`,
/// held at `i64::MAX`.
pub fn integer_part(d: &Vec<char>, q: i128) -> (r: i64)
    requires
        all_digits(d@),
    ensures
        r == held(shifted_floor(digits_value(d@), q - d@.len())),
{
    let n = d.len();
    let mut z: usize = 0;
    while z < n && (d[z] as u32) == 48
        invariant
            z <= n,
            n == d@.len(),
            forall|k: int| 0 <= k < z ==> #[trigger] digit_at(d@, k) == 0,
        decreases n - z,
    {
        z = z + 1;
    }
    if z == n {
        proof {
            lemma_window_zeros(d@, 0, n as int);
            lemma_window_prefix(d@, n as int);
            assert(d@.take(n as int) =~= d@);
            assert(digits_value(d@) == 0);
            let s: int = q - n;
            if s >= 0 {
                let x = pow10(s as nat);
                assert(0nat * x == 0nat) by (nonlinear_arith);
            } else {
                lemma_pow10_positive((-s) as nat);
                assert(0nat / pow10((-s) as nat) == 0nat) by (nonlinear_arith)
                    requires
                        pow10((-s) as nat) >= 1,
                ;
            }
        }
        return 0;
    }
    assert(is_ascii_digit(d@[z as int]));
    assert(digit_at(d@, z as int) >= 1);
    proof { lemma_integer_part(d@, z as int, q as int); }
    if q <= z as i128 {
        return 0;
    }
    if q - (z as i128) > 19 {
        proof {
            lemma_pow10_grows(19, (q - z - 1) as nat);
            lemma_pow10_19();
        }
        return 0x7fff_ffff_ffff_ffff;
    }
    let mut acc: u128 = 0;
    let mut k: i128 = z as i128;
    while k < q
        invariant
            z < n,
            n == d@.len(),
            all_digits(d@),
            z as int <= k <= q,
            q - z <= 19,
            acc == window_value(d@, z as int, k as int),
            acc < pow10((k - z) as nat),
        decreases q - k,
    {
        let dg: u128 = if k < n as i128 {
            assert(is_ascii_digit(d@[k as int]));
            (d[k as usize] as u32 - 48) as u128
        } else {
            0
        };
        assert(dg == digit_at(d@, k as int));
        proof {
            lemma_pow10_grows((k - z + 1) as nat, 19);
            lemma_pow10_19();
            assert(pow10((k - z + 1) as nat) == 10 * pow10((k - z) as nat));
            assert(acc * 10 + dg < 10 * pow10((k - z) as nat)) by (nonlinear_arith)
                requires
                    acc < pow10((k - z) as nat),
                    dg <= 9,
            ;
        }
        acc = acc * 10 + dg;
        k = k + 1;
    }
    if acc > 0x7fff_ffff_ffff_ffff {
        0x7fff_ffff_ffff_ffff
    } else {
        acc as i64
    }
}

/// The index of the first `e` or `E` of a text, or its length.
pub open spec fn exp_index(s: Seq<char>) -> nat
    decreases s.len(),
{
    if s.len() == 0 {
        0
    } else if s[0] == 'e' || s[0] == 'E' {
        0
    } else {
        1 + exp_index(s.drop_first())
    }
}

/// The index of the first `.` of a text, or its length.
pub open spec fn dot_index(s: Seq<char>) -> nat
    decreases s.len(),
{
    if s.len() == 0 {
        0
    } else if s[0] == '.' {
        0
    } else {
        1 + dot_index(s.drop_first())
    }
}

/// The mantissa of a number's text: what comes before its exponent.
pub open spec fn mantissa(t: Seq<char>) -> Seq<char> {
    t.take(exp_index(t) as int)
}

/// The digits before the point.
pub open spec fn whole_digits(t: Seq<char>) -> Seq<char> {
    mantissa(t).take(dot_index(mantissa(t)) as int)
}

/// The digits after the point, up to the exponent.
pub open spec fn fraction_digits(t: Seq<char>) -> Seq<char> {
    mantissa(t).skip(dot_index(mantissa(t)) as int + 1)
}

/// The value of an exponent: nothing stands for 0; otherwise `e` or `E`,
/// an optional sign and one or more digits.
pub open spec fn exponent_value(s: Seq<char>) -> Option<int> {
    if s.len() == 0 {
        Some(0)
    } else if s[0] != 'e' && s[0] != 'E' {
        None
    } else {
        let signed = s.len() > 1 && (s[1] == '+' || s[1] == '-');
        let ds = if signed { s.skip(2) } else { s.skip(1) };
        if ds.len() == 0 || !all_digits(ds) {
            None
        } else if signed && s[1] == '-' {
            Some(-(digits_value(ds) as int))
        } else {
            Some(digits_value(ds) as int)
        }
    }
}

/// Whether a text is a float literal: digits, a point, digits, and an
/// optional exponent.
pub open spec fn float_literal(t: Seq<char>) -> bool {
    &&& dot_index(mantissa(t)) < mantissa(t).len()
    &&& whole_digits(t).len() > 0
    &&& fraction_digits(t).len() > 0
    &&& all_digits(whole_digits(t))
    &&& all_digits(fraction_digits(t))
    &&& exponent_value(t.skip(exp_index(t) as int)) is Some
}

/// The integer part of the number a float literal denotes, held at
/// `i64::MAX`: its digits, with the point moved by the exponent, rounded
/// down.
pub open spec fn float_int(t: Seq<char>) -> i64 {
    held(shifted_floor(digits_value(whole_digits(t) + fraction_digits(t)),
        exponent_value(t.skip(exp_index(t) as int))->0 - fraction_digits(t).len()))
}

/// The index of the first digit of `d` that is not zero, or its length.
pub open spec fn first_nonzero(d: Seq<char>, k: int) -> int
    decreases d.len() - k,
{
    if k >= d.len() || k < 0 {
        d.len() as int
    } else if digit_at(d, k) != 0 {
        k
    } else {
        first_nonzero(d, k + 1)
    }
}

proof fn lemma_first_nonzero(d: Seq<char>, k: int)
    requires
        0 <= k <= d.len(),
        forall|j: int| 0 <= j < k ==> #[trigger] digit_at(d, j) == 0,
    ensures
        k <= first_nonzero(d, k) <= d.len(),
        forall|j: int| 0 <= j < first_nonzero(d, k) ==> #[trigger] digit_at(d, j) == 0,
        first_nonzero(d, k) < d.len() ==> digit_at(d, first_nonzero(d, k)) != 0,
    decreases d.len() - k,
{
    if k < d.len() && digit_at(d, k) == 0 {
        lemma_first_nonzero(d, k + 1);
    }
}

/// Shifting far to the right gives zero; far to the left, a number too
/// large for an `i64` unless all digits are zero.
pub(crate) proof fn lemma_far_shift(d: Seq<char>, q: int)
    requires
        all_digits(d),
    ensures
        q < 0 ==> shifted_floor(digits_value(d), q - d.len()) == 0,
        q >= d.len() + 20 ==> held(shifted_floor(digits_value(d), q - d.len()))
            == (if digits_value(d) == 0 { 0i64 } else { i64::MAX }),
{
    lemma_first_nonzero(d, 0);
    let z = first_nonzero(d, 0);
    let n = d.len() as int;
    if z < n {
        assert(digit_at(d, z) >= 1);
        lemma_integer_part(d, z, q);
        lemma_integer_part(d, z, n);
        if q >= n + 20 {
            lemma_pow10_grows(19, (q - z - 1) as nat);
            lemma_pow10_19();
            assert(window_value(d, z, n) >= pow10((n - z - 1) as nat));
            lemma_pow10_positive((n - z - 1) as nat);
            lemma_window_prefix(d, n);
            lemma_window_split(d, 0, z, n);
            lemma_window_zeros(d, 0, z);
            let x = pow10((n - z) as nat);
            assert(0nat * x == 0nat) by (nonlinear_arith);
            assert(d.take(n) =~= d);
            assert(digits_value(d) != 0);
        }
    } else {
        lemma_window_zeros(d, 0, n);
        lemma_window_prefix(d, n);
        assert(d.take(n) =~= d);
        assert(digits_value(d) == 0);
        let s = q - n;
        if s >= 0 {
            let x = pow10(s as nat);
            assert(0nat * x == 0nat) by (nonlinear_arith);
        } else {
            lemma_pow10_positive((-s) as nat);
            assert(0nat / pow10((-s) as nat) == 0nat) by (nonlinear_arith)
                requires
                    pow10((-s) as nat) >= 1,
            ;
        }
    }
}

/// An exponent held within `-cap..=cap`.
pub open spec fn clamp_to(e: int, cap: int) -> int {
    if e > cap { cap } else if e < -cap { -cap } else { e }
}

/// The index of the first `e` or `E` of `v` (see `exp_index`).
pub fn find_exp(v: &Vec<char>) -> (r: usize)
    ensures
        r == exp_index(v@),
        r <= v@.len(),
{
    let mut i: usize = 0;
    assert(v@.skip(0) =~= v@);
    while i < v.len() && v[i] != 'e' && v[i] != 'E'
        invariant
            i <= v.len(),
            exp_index(v@) == i + exp_index(v@.skip(i as int)),
        decreases v.len() - i,
    {
        assert(v@.skip(i as int).drop_first() =~= v@.skip(i + 1));
        assert(v@.skip(i as int)[0] == v@[i as int]);
        i = i + 1;
    }
    if i < v.len() {
        assert(v@.skip(i as int)[0] == v@[i as int]);
    } else {
        assert(v@.skip(i as int).len() == 0);
    }
    i
}

/// The index of the first `.` among the first `end` characters of `v` (see
/// `dot_index`).
pub fn find_dot(v: &Vec<char>, end: usize) -> (r: usize)
    requires
        end <= v.len(),
    ensures
        r == dot_index(v@.take(end as int)),
        r <= end,
{
    let ghost m = v@.take(end as int);
    let mut i: usize = 0;
    assert(m.skip(0) =~= m);
    while i < end && v[i] != '.'
        invariant
            i <= end <= v.len(),
            m == v@.take(end as int),
            dot_index(m) == i + dot_index(m.skip(i as int)),
        decreases end - i,
    {
        assert(m.skip(i as int).drop_first() =~= m.skip(i + 1));
        assert(m.skip(i as int)[0] == v@[i as int]);
        i = i + 1;
    }
    if i < end {
        assert(m.skip(i as int)[0] == v@[i as int]);
    } else {
        assert(m.skip(i as int).len() == 0);
    }
    i
}

/// The value of the exponent that starts at `ie` in `v` (see
/// `exponent_value`), held within `-cap..=cap`.
pub fn exponent_clamped(v: &Vec<char>, ie: usize, cap: i128) -> (r: Option<i128>)
    requires
        ie <= v.len(),
        0 <= cap <= 0x1_0000_0000_0000_0000_0000,
    ensures
        r is Some <==> exponent_value(v@.skip(ie as int)) is Some,
        r matches Some(x) ==> x == clamp_to(exponent_value(v@.skip(ie as int))->0, cap as int),
{
    let n = v.len();
    let ghost s = v@.skip(ie as int);
    if ie == n {
        assert(s.len() == 0);
        return Some(0);
    }
    assert(s[0] == v@[ie as int]);
    if v[ie] != 'e' && v[ie] != 'E' {
        return None;
    }
    let mut k = ie + 1;
    let signed = k < n && (v[k] == '+' || v[k] == '-');
    let neg = signed && v[k] == '-';
    if k < n {
        assert(s[1] == v@[k as int]);
    }
    assert(signed == (s.len() > 1 && (s[1] == '+' || s[1] == '-')));
    assert(neg == (signed && s[1] == '-'));
    if signed {
        k = k + 1;
    }
    let start = k;
    let ghost ds = if signed { s.skip(2) } else { s.skip(1) };
    assert(ds =~= v@.subrange(start as int, n as int));
    if k >= n {
        return None;
    }
    let mut acc: i128 = 0;
    assert(v@.subrange(start as int, start as int) =~= Seq::<char>::empty());
    while k < n
        invariant
            start <= k <= n,
            n == v.len(),
            0 <= cap <= 0x1_0000_0000_0000_0000_0000,
            s == v@.skip(ie as int),
            s.len() > 0,
            s[0] == 'e' || s[0] == 'E',
            signed == (s.len() > 1 && (s[1] == '+' || s[1] == '-')),
            neg == (signed && s[1] == '-'),
            ds == (if signed { s.skip(2) } else { s.skip(1) }),
            ds == v@.subrange(start as int, n as int),
            ds.len() > 0,
            all_digits(v@.subrange(start as int, k as int)),
            acc == (if digits_value(v@.subrange(start as int, k as int)) > cap {
                cap + 1
            } else {
                digits_value(v@.subrange(start as int, k as int)) as int
            }),
        decreases n - k,
    {
        let c = v[k];
        if !((c as u32) >= 48 && (c as u32) <= 57) {
            assert(ds[k - start] == c);
            assert(!is_ascii_digit(ds[k - start]));
            return None;
        }
        let ghost pre = v@.subrange(start as int, k as int);
        let ghost cur = v@.subrange(start as int, k + 1);
        assert(cur.drop_last() =~= pre);
        assert(cur.last() == c);
        assert(all_digits(cur)) by {
            assert forall|j: int| 0 <= j < cur.len() implies is_ascii_digit(#[trigger] cur[j]) by {
                if j < pre.len() {
                    assert(cur[j] == pre[j]);
                }
            }
        }
        let d = (c as u32 - 48) as i128;
        assert(digits_value(cur) == digits_value(pre) * 10 + d);
        if acc > cap {
            assert(digits_value(pre) * 10 + d >= digits_value(pre)) by (nonlinear_arith)
                requires
                    d >= 0,
            ;
        } else {
            let next = acc * 10 + d;
            if next > cap {
                acc = cap + 1;
            } else {
                acc = next;
            }
        }
        k = k + 1;
    }
    assert(v@.subrange(start as int, n as int) == ds);
    if acc > cap {
        if neg { Some(-cap) } else { Some(cap) }
    } else {
        if neg { Some(-acc) } else { Some(acc) }
    }
}

} // verus!
