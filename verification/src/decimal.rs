//! Exact decimal text for binary fractions.
//!
//! Every value with a power-of-two denominator has a terminating decimal
//! expansion, because `1/2^k` is `5^k/10^k`. This module renders such values
//! exactly and parses decimal literals back without ever rounding.
use vstd::prelude::*;

use crate::text::{push_char, push_chars};

verus! {

// ---------------------------------------------------------------------------
// Arithmetic over digit strings
// ---------------------------------------------------------------------------

/// `b` to the power `e`, over the naturals.
pub open spec fn pow_nat(b: nat, e: nat) -> nat
    decreases e,
{
    if e == 0 {
        1
    } else {
        b * pow_nat(b, (e - 1) as nat)
    }
}

/// `pow_nat(b, e)` is positive for a positive base.
pub proof fn lemma_pow_positive(b: nat, e: nat)
    requires
        b > 0,
    ensures
        pow_nat(b, e) > 0,
    decreases e,
{
    if e > 0 {
        lemma_pow_positive(b, (e - 1) as nat);
        assert(b * pow_nat(b, (e - 1) as nat) > 0) by (nonlinear_arith)
            requires
                b > 0,
                pow_nat(b, (e - 1) as nat) > 0,
        ;
    }
}

/// Exponents add.
pub proof fn lemma_pow_adds(b: nat, e1: nat, e2: nat)
    ensures
        pow_nat(b, e1 + e2) == pow_nat(b, e1) * pow_nat(b, e2),
    decreases e1,
{
    if e1 > 0 {
        lemma_pow_adds(b, (e1 - 1) as nat, e2);
        assert((e1 + e2 - 1) as nat == ((e1 - 1) as nat + e2) as nat);
        assert(pow_nat(b, e1 + e2) == b * pow_nat(b, (e1 + e2 - 1) as nat));
        assert(pow_nat(b, e1) == b * pow_nat(b, (e1 - 1) as nat));
        let x = pow_nat(b, (e1 - 1) as nat);
        let y = pow_nat(b, e2);
        let s = pow_nat(b, e1 + e2);
        let p = pow_nat(b, e1);
        assert(s == p * y) by (nonlinear_arith)
            requires
                s == b * pow_nat(b, (e1 + e2 - 1) as nat),
                pow_nat(b, (e1 + e2 - 1) as nat) == x * y,
                p == b * x,
        ;
        assert(s == p * y);
    } else {
        assert(pow_nat(b, e1) == 1);
        assert(e1 + e2 == e2);
    }
}

/// `10^e == 2^e * 5^e`.
pub proof fn lemma_pow_ten(e: nat)
    ensures
        pow_nat(10, e) == pow_nat(2, e) * pow_nat(5, e),
    decreases e,
{
    if e > 0 {
        lemma_pow_ten((e - 1) as nat);
        let a = pow_nat(2, (e - 1) as nat);
        let c = pow_nat(5, (e - 1) as nat);
        assert(pow_nat(10, e) == 10 * pow_nat(10, (e - 1) as nat));
        assert(pow_nat(2, e) == 2 * a);
        assert(pow_nat(5, e) == 5 * c);
        assert(pow_nat(10, (e - 1) as nat) == a * c);
        let p10 = pow_nat(10, e);
        let p2 = pow_nat(2, e);
        let p5 = pow_nat(5, e);
        assert(p10 == p2 * p5) by (nonlinear_arith)
            requires
                p10 == 10 * pow_nat(10, (e - 1) as nat),
                pow_nat(10, (e - 1) as nat) == a * c,
                p2 == 2 * a,
                p5 == 5 * c,
        ;
        assert(p10 == p2 * p5);
    } else {
        assert(pow_nat(10, e) == 1);
        assert(pow_nat(2, e) == 1);
        assert(pow_nat(5, e) == 1);
        let p2 = pow_nat(2, e);
        let p5 = pow_nat(5, e);
        assert(p2 * p5 == 1) by (nonlinear_arith)
            requires
                p2 == 1,
                p5 == 1,
        ;
    }
}

/// Whether `c` is one of `0` to `9`.
pub open spec fn is_digit(c: char) -> bool {
    '0' <= c && c <= '9'
}

/// Whether every character of `s` is a decimal digit.
pub open spec fn all_digits(s: Seq<char>) -> bool {
    forall|i: int| 0 <= i < s.len() ==> is_digit(#[trigger] s[i])
}

/// The value of one decimal digit.
pub open spec fn digit_value(c: char) -> nat {
    if c == '1' {
        1
    } else if c == '2' {
        2
    } else if c == '3' {
        3
    } else if c == '4' {
        4
    } else if c == '5' {
        5
    } else if c == '6' {
        6
    } else if c == '7' {
        7
    } else if c == '8' {
        8
    } else if c == '9' {
        9
    } else {
        0
    }
}

/// The digit character for a value below ten.
pub open spec fn digit_char(d: nat) -> char {
    if d == 1 {
        '1'
    } else if d == 2 {
        '2'
    } else if d == 3 {
        '3'
    } else if d == 4 {
        '4'
    } else if d == 5 {
        '5'
    } else if d == 6 {
        '6'
    } else if d == 7 {
        '7'
    } else if d == 8 {
        '8'
    } else if d == 9 {
        '9'
    } else {
        '0'
    }
}

/// The number a string of decimal digits denotes (most significant first).
pub open spec fn digits_value(s: Seq<char>) -> nat
    decreases s.len(),
{
    if s.len() == 0 {
        0
    } else {
        digits_value(s.drop_last()) * 10 + digit_value(s.last())
    }
}

/// The canonical decimal rendering of `n`: no leading zeros, `0` for zero.
pub open spec fn decimal(n: nat) -> Seq<char>
    decreases n,
{
    if n < 10 {
        seq![digit_char(n)]
    } else {
        decimal(n / 10).push(digit_char(n % 10))
    }
}

/// `count` copies of the character `0`.
pub open spec fn zeros(count: nat) -> Seq<char> {
    Seq::new(count, |i: int| '0')
}

/// `n` in decimal, padded on the left with zeros to at least `width` digits.
pub open spec fn zero_padded(n: nat, width: nat) -> Seq<char> {
    let d = decimal(n);
    if d.len() >= width {
        d
    } else {
        zeros((width - d.len()) as nat) + d
    }
}

/// `s` without its trailing `0` characters.
pub open spec fn trim_trailing_zeros(s: Seq<char>) -> Seq<char>
    decreases s.len(),
{
    if s.len() > 0 && s.last() == '0' {
        trim_trailing_zeros(s.drop_last())
    } else {
        s
    }
}

/// Exact decimal text for `mag / 2^frac_bits`, with a sign when `neg` and the
/// value is not zero, and always at least one fractional digit.
pub open spec fn exact_decimal_text(neg: bool, mag: nat, frac_bits: nat) -> Seq<char> {
    let int_part = mag / pow_nat(2, frac_bits);
    let frac_part = mag % pow_nat(2, frac_bits);
    let sign = if neg && mag != 0 {
        seq!['-']
    } else {
        Seq::<char>::empty()
    };
    let frac = if frac_part == 0 {
        seq!['0']
    } else {
        trim_trailing_zeros(zero_padded(frac_part * pow_nat(5, frac_bits), frac_bits))
    };
    sign + decimal(int_part) + seq!['.'] + frac
}

pub proof fn lemma_digit_round_trip(d: nat)
    requires
        d < 10,
    ensures
        digit_value(digit_char(d)) == d,
        is_digit(digit_char(d)),
{
}

/// The rendering of `n` is digits only, never empty, and denotes `n`.
pub proof fn lemma_decimal(n: nat)
    ensures
        all_digits(decimal(n)),
        decimal(n).len() >= 1,
        digits_value(decimal(n)) == n,
        n < 10 ==> decimal(n).len() == 1,
        n >= 10 ==> decimal(n).len() == decimal(n / 10).len() + 1,
    decreases n,
{
    if n < 10 {
        lemma_digit_round_trip(n);
        assert(decimal(n).drop_last() =~= Seq::<char>::empty());
        assert(digits_value(Seq::<char>::empty()) == 0);
        assert(decimal(n).last() == digit_char(n));
        assert(digits_value(decimal(n)) == digits_value(decimal(n).drop_last()) * 10 + digit_value(decimal(n).last()));
    } else {
        lemma_decimal(n / 10);
        lemma_digit_round_trip(n % 10);
        let d = decimal(n);
        assert(d.drop_last() =~= decimal(n / 10));
        assert(n == (n / 10) * 10 + n % 10);
        assert(digits_value(decimal(n / 10)) == n / 10);
        assert(digits_value(d) == digits_value(decimal(n / 10)) * 10 + digit_value(digit_char(n % 10)));
        assert forall|i: int| 0 <= i < d.len() implies is_digit(#[trigger] d[i]) by {
            if i < d.len() - 1 {
                assert(d[i] == decimal(n / 10)[i]);
            }
        }
    }
}

/// Leading zeros do not change the value of a digit string.
pub proof fn lemma_leading_zeros(count: nat, s: Seq<char>)
    ensures
        digits_value(zeros(count) + s) == digits_value(s),
    decreases s.len(), count,
{
    if s.len() == 0 {
        assert(zeros(count) + s =~= zeros(count));
        if count > 0 {
            assert(zeros(count).drop_last() =~= zeros((count - 1) as nat));
            lemma_leading_zeros((count - 1) as nat, s);
            assert(zeros((count - 1) as nat) + s =~= zeros((count - 1) as nat));
        }
    } else {
        lemma_leading_zeros(count, s.drop_last());
        assert((zeros(count) + s).drop_last() =~= zeros(count) + s.drop_last());
    }
}

/// Every zero-padded rendering is digits only, at least `width` long, and
/// denotes `n`; it is exactly `width` long when `n < 10^width`.
pub proof fn lemma_zero_padded(n: nat, width: nat)
    ensures
        all_digits(zero_padded(n, width)),
        zero_padded(n, width).len() >= width,
        digits_value(zero_padded(n, width)) == n,
{
    lemma_decimal(n);
    let d = decimal(n);
    if d.len() < width {
        lemma_leading_zeros((width - d.len()) as nat, d);
        let p = zeros((width - d.len()) as nat) + d;
        assert forall|i: int| 0 <= i < p.len() implies is_digit(#[trigger] p[i]) by {
            if i >= width - d.len() {
                assert(p[i] == d[i - (width - d.len())]);
            }
        }
    }
}

/// A digit string has at most as many digits as `10^len` allows.
pub proof fn lemma_digits_value_bound(s: Seq<char>)
    requires
        all_digits(s),
    ensures
        digits_value(s) < pow_nat(10, s.len()),
    decreases s.len(),
{
    if s.len() > 0 {
        lemma_digits_value_bound(s.drop_last());
        let v = digits_value(s.drop_last());
        let p = pow_nat(10, (s.len() - 1) as nat);
        assert(is_digit(s[s.len() - 1]));
        assert(digit_value(s.last()) < 10);
        assert(v * 10 + digit_value(s.last()) < 10 * p) by (nonlinear_arith)
            requires
                v < p,
                digit_value(s.last()) < 10,
        ;
    }
}

/// The rendering of `n` has fewer than `width + 1` digits when `n < 10^width`.
pub proof fn lemma_decimal_len(n: nat, width: nat)
    requires
        n < pow_nat(10, width),
        width >= 1,
    ensures
        decimal(n).len() <= width,
    decreases width,
{
    lemma_decimal(n);
    if n >= 10 && width > 1 {
        assert(n / 10 < pow_nat(10, (width - 1) as nat)) by (nonlinear_arith)
            requires
                n < 10 * pow_nat(10, (width - 1) as nat),
        ;
        lemma_decimal_len(n / 10, (width - 1) as nat);
    } else if n >= 10 {
        assert(pow_nat(10, 1) == 10) by {
            assert(pow_nat(10, 0) == 1);
        }
    }
}

/// Trimming trailing zeros leaves a prefix and divides the value by a power
/// of ten.
pub proof fn lemma_trim_trailing_zeros(s: Seq<char>)
    requires
        all_digits(s),
    ensures
        trim_trailing_zeros(s).len() <= s.len(),
        trim_trailing_zeros(s) =~= s.take(trim_trailing_zeros(s).len() as int),
        trim_trailing_zeros(s).len() == 0 || trim_trailing_zeros(s).last() != '0',
        all_digits(trim_trailing_zeros(s)),
        digits_value(s) == digits_value(trim_trailing_zeros(s)) * pow_nat(
            10,
            (s.len() - trim_trailing_zeros(s).len()) as nat,
        ),
    decreases s.len(),
{
    if s.len() > 0 && s.last() == '0' {
        let t = s.drop_last();
        lemma_trim_trailing_zeros(t);
        let r = trim_trailing_zeros(t);
        assert(trim_trailing_zeros(s) == r);
        assert(r =~= s.take(r.len() as int));
        let k = (t.len() - r.len()) as nat;
        assert((s.len() - r.len()) as nat == k + 1);
        assert(digit_value(s.last()) == 0);
        assert(digits_value(s) == digits_value(t) * 10);
        assert(pow_nat(10, k + 1) == 10 * pow_nat(10, k));
        let dv = digits_value(r);
        let p = pow_nat(10, k);
        let whole = digits_value(s);
        let p1 = pow_nat(10, k + 1);
        assert(whole == dv * p1) by (nonlinear_arith)
            requires
                whole == digits_value(t) * 10,
                digits_value(t) == dv * p,
                p1 == 10 * p,
        ;
    } else {
        assert(s.take(s.len() as int) =~= s);
        assert(pow_nat(10, 0) == 1);
        let v = digits_value(s);
        let p = pow_nat(10, (s.len() - trim_trailing_zeros(s).len()) as nat);
        assert(v == v * p) by (nonlinear_arith)
            requires
                p == 1,
        ;
    }
}

// ---------------------------------------------------------------------------
// Rendering
// ---------------------------------------------------------------------------

fn digit_of(d: u128) -> (c: char)
    requires
        d < 10,
    ensures
        c == digit_char(d as nat),
{
    if d == 1 {
        '1'
    } else if d == 2 {
        '2'
    } else if d == 3 {
        '3'
    } else if d == 4 {
        '4'
    } else if d == 5 {
        '5'
    } else if d == 6 {
        '6'
    } else if d == 7 {
        '7'
    } else if d == 8 {
        '8'
    } else if d == 9 {
        '9'
    } else {
        '0'
    }
}

/// Append the decimal rendering of `n`.
pub fn push_decimal(out: &mut Vec<char>, n: u128)
    ensures
        final(out)@ == old(out)@ + decimal(n as nat),
    decreases n,
{
    if n >= 10 {
        push_decimal(out, n / 10);
    }
    let c = digit_of(n % 10);
    out.push(c);
    proof {
        if n >= 10 {
            assert(decimal(n as nat) == decimal((n / 10) as nat).push(digit_char((n % 10) as nat)));
        } else {
            assert(n % 10 == n);
        }
    }
}

/// The decimal rendering of `n`.
pub fn decimal_chars(n: u128) -> (out: Vec<char>)
    ensures
        out@ == decimal(n as nat),
{
    let mut out = Vec::new();
    push_decimal(&mut out, n);
    assert(out@ =~= decimal(n as nat));
    out
}

/// Remove trailing `0` characters.
pub fn trim_zeros(v: &mut Vec<char>)
    ensures
        final(v)@ == trim_trailing_zeros(old(v)@),
{
    while v.len() > 0 && v[v.len() - 1] == '0'
        invariant
            trim_trailing_zeros(v@) == trim_trailing_zeros(old(v)@),
        decreases v.len(),
    {
        let ghost before = v@;
        v.pop();
        assert(v@ =~= before.drop_last());
    }
}

/// `5^k` as an integer.
fn pow5(k: u32) -> (p: u128)
    requires
        k <= 38,
    ensures
        p == pow_nat(5, k as nat),
{
    let mut p: u128 = 1;
    let mut i: u32 = 0;
    while i < k
        invariant
            i <= k <= 38,
            p == pow_nat(5, i as nat),
        decreases k - i,
    {
        proof {
            lemma_pow_positive(5, i as nat);
            lemma_pow_bounds();
            lemma_pow_monotone(5, (i + 1) as nat, 38);
        }
        p = p * 5;
        i = i + 1;
    }
    p
}

/// The largest powers the renderers rely on fit their integer types.
pub proof fn lemma_pow_bounds()
    ensures
        pow_nat(5, 38) <= u128::MAX,
        pow_nat(10, 38) <= u128::MAX,
        pow_nat(2, 38) <= u64::MAX,
{
    reveal_with_fuel(pow_nat, 40);
    assert(pow_nat(5, 38) == 363797880709171295166015625nat);
    assert(pow_nat(10, 38) == 100000000000000000000000000000000000000nat);
    assert(pow_nat(2, 38) == 274877906944nat);
}

/// `10^30`, the most digits an exact decimal may carry.
pub proof fn lemma_pow_ten_30()
    ensures
        pow_nat(10, 30) == 1_000_000_000_000_000_000_000_000_000_000nat,
{
    reveal_with_fuel(pow_nat, 31);
}

/// Larger exponents give larger powers.
pub proof fn lemma_pow_monotone(b: nat, e1: nat, e2: nat)
    requires
        b >= 1,
        e1 <= e2,
    ensures
        pow_nat(b, e1) <= pow_nat(b, e2),
    decreases e2,
{
    if e1 < e2 {
        lemma_pow_monotone(b, e1, (e2 - 1) as nat);
        lemma_pow_positive(b, (e2 - 1) as nat);
        assert(pow_nat(b, (e2 - 1) as nat) <= b * pow_nat(b, (e2 - 1) as nat)) by (nonlinear_arith)
            requires
                b >= 1,
        ;
    }
}

/// `2^k` as an integer.
fn pow2_u64(k: u32) -> (p: u64)
    requires
        k <= 38,
    ensures
        p == pow_nat(2, k as nat),
{
    let mut p: u64 = 1;
    let mut i: u32 = 0;
    while i < k
        invariant
            i <= k <= 38,
            p == pow_nat(2, i as nat),
        decreases k - i,
    {
        proof {
            lemma_pow_bounds();
            lemma_pow_monotone(2, (i + 1) as nat, 38);
        }
        p = p * 2;
        i = i + 1;
    }
    p
}

/// Render `mag / 2^frac_bits` as an exact decimal, with an explicit sign and
/// always at least one fractional digit.
///
/// Any power-of-two denominator has a terminating decimal expansion, because
/// `1/2^k` is `5^k/10^k`. That is the whole reason fixed-point survives a text
/// round trip where floats do not.
pub fn exact_decimal_pow2(neg: bool, mag: u64, frac_bits: u32) -> (out: String)
    requires
        frac_bits <= 38,
    ensures
        out@ == exact_decimal_text(neg, mag as nat, frac_bits as nat),
{
    let denominator = pow2_u64(frac_bits);
    proof {
        lemma_pow_positive(2, frac_bits as nat);
    }
    let int_part = mag / denominator;
    let frac_part = mag % denominator;

    let mut text: Vec<char> = Vec::new();
    if neg && (int_part != 0 || frac_part != 0) {
        text.push('-');
    }
    let ghost sign = text@;
    proof {
        assert(mag == denominator * int_part + frac_part && ((int_part != 0 || frac_part != 0)
            == (mag != 0))) by (nonlinear_arith)
            requires
                int_part == mag / denominator,
                frac_part == mag % denominator,
                denominator > 0,
        ;
    }
    push_decimal(&mut text, int_part as u128);
    text.push('.');
    let ghost head = text@;
    if frac_part == 0 {
        text.push('0');
    } else {
        let p5 = pow5(frac_bits);
        proof {
            lemma_pow_ten(frac_bits as nat);
            lemma_pow_positive(5, frac_bits as nat);
            lemma_pow_bounds();
            lemma_pow_monotone(10, frac_bits as nat, 38);
            assert(frac_part * p5 < denominator * p5) by (nonlinear_arith)
                requires
                    frac_part < denominator,
                    p5 > 0,
            ;
        }
        let scaled = frac_part as u128 * p5;
        let mut digits = decimal_chars(scaled);
        let width = frac_bits as usize;
        let mut padded: Vec<char> = Vec::new();
        let mut pad = digits.len();
        while pad < width
            invariant
                digits@.len() <= pad <= width || (pad == digits@.len() && pad >= width),
                padded@ == zeros((pad - digits@.len()) as nat),
            decreases width - pad,
        {
            padded.push('0');
            pad = pad + 1;
            assert(padded@ =~= zeros((pad - digits@.len()) as nat));
        }
        let ghost before = padded@;
        padded.append(&mut digits);
        proof {
            assert(padded@ =~= zero_padded(scaled as nat, frac_bits as nat));
        }
        trim_zeros(&mut padded);
        text.append(&mut padded);
    }
    let out = crate::text::string_of(text.as_slice());
    proof {
        assert(out@ =~= exact_decimal_text(neg, mag as nat, frac_bits as nat));
    }
    out
}


// ---------------------------------------------------------------------------
// Parsing
// ---------------------------------------------------------------------------

/// Whether `c` has the Unicode `White_Space` property, which is what
/// `str::trim` strips from both ends.
pub open spec fn is_whitespace(c: char) -> bool {
    ('\u{9}' <= c && c <= '\u{d}') || c == ' ' || c == '\u{85}' || c == '\u{a0}' || c
        == '\u{1680}' || ('\u{2000}' <= c && c <= '\u{200a}') || c == '\u{2028}' || c
        == '\u{2029}' || c == '\u{202f}' || c == '\u{205f}' || c == '\u{3000}'
}

/// `s` without leading whitespace.
pub open spec fn trim_start(s: Seq<char>) -> Seq<char>
    decreases s.len(),
{
    if s.len() > 0 && is_whitespace(s[0]) {
        trim_start(s.drop_first())
    } else {
        s
    }
}

/// `s` without trailing whitespace.
pub open spec fn trim_end(s: Seq<char>) -> Seq<char>
    decreases s.len(),
{
    if s.len() > 0 && is_whitespace(s.last()) {
        trim_end(s.drop_last())
    } else {
        s
    }
}

/// `s` without whitespace at either end.
pub open spec fn trim(s: Seq<char>) -> Seq<char> {
    trim_end(trim_start(s))
}

/// Whether `c` is the lowercase letter `lower` or its ASCII capital, for the
/// letters that matter when refusing `inf` and `nan`.
pub open spec fn same_letter_ignoring_case(c: char, lower: char) -> bool {
    c == lower || (lower == 'i' && c == 'I') || (lower == 'n' && c == 'N') || (lower == 'f' && c
        == 'F') || (lower == 'a' && c == 'A')
}

/// Whether `t` contains `word` at position `at`, ignoring ASCII case.
pub open spec fn word_at(t: Seq<char>, at: int, word: Seq<char>) -> bool {
    0 <= at && at + word.len() <= t.len() && forall|j: int|
        0 <= j < word.len() ==> #[trigger] same_letter_ignoring_case(t[at + j], word[j])
}

/// Whether `t` contains `word` anywhere, ignoring ASCII case.
pub open spec fn contains_word(t: Seq<char>, word: Seq<char>) -> bool {
    exists|at: int| word_at(t, at, word)
}

/// Whether `t` has an exponent marker.
pub open spec fn has_exponent(t: Seq<char>) -> bool {
    exists|i: int| 0 <= i < t.len() && (t[i] == 'e' || t[i] == 'E')
}

/// The sign of a literal and the text after it.
pub open spec fn sign_split(t: Seq<char>) -> (bool, Seq<char>) {
    if t.len() > 0 && t[0] == '-' {
        (true, t.drop_first())
    } else if t.len() > 0 && t[0] == '+' {
        (false, t.drop_first())
    } else {
        (false, t)
    }
}

/// `s` with every `_` digit separator removed.
pub open spec fn drop_underscores(s: Seq<char>) -> Seq<char>
    decreases s.len(),
{
    if s.len() == 0 {
        s
    } else if s.last() == '_' {
        drop_underscores(s.drop_last())
    } else {
        drop_underscores(s.drop_last()).push(s.last())
    }
}

/// Where the first `.` in `s` is.
pub open spec fn first_dot(s: Seq<char>) -> Option<int>
    decreases s.len(),
{
    if s.len() == 0 {
        None
    } else if s[0] == '.' {
        Some(0)
    } else {
        match first_dot(s.drop_first()) {
            Some(i) => Some(i + 1),
            None => None,
        }
    }
}

/// The integer digits and the fraction digits of a literal, split at its
/// first `.`.
pub open spec fn split_at_dot(s: Seq<char>) -> (Seq<char>, Seq<char>) {
    match first_dot(s) {
        Some(i) => (s.take(i), s.skip(i + 1)),
        None => (s, Seq::<char>::empty()),
    }
}

/// Why a decimal literal was refused, over the text it carries.
pub enum DecimalFault {
    /// Not a plain decimal number; carries the input as given.
    Malformed(Seq<char>),
    /// Exponent notation, infinity or NaN; carries which.
    UnsupportedForm(Seq<char>),
    /// Well formed but not exactly representable; carries the trimmed input.
    NotRepresentable(Seq<char>),
    /// Exactly representable but out of range.
    OutOfRange,
}

/// The shape every exact-decimal parser agrees on: trimmed, no exponent, no
/// infinity or NaN, an optional sign, `_` separators ignored, digits on both
/// sides of at most one point, and at least one digit in all.
///
/// Yields the sign and the integer and fraction digit strings.
pub open spec fn decimal_body(s: Seq<char>) -> Result<(bool, Seq<char>, Seq<char>), DecimalFault> {
    let t = trim(s);
    if t.len() == 0 {
        Err(DecimalFault::Malformed(s))
    } else if has_exponent(t) {
        Err(DecimalFault::UnsupportedForm("exponent notation"@))
    } else if contains_word(t, seq!['i', 'n', 'f']) || contains_word(t, seq!['n', 'a', 'n']) {
        Err(DecimalFault::UnsupportedForm("inf/nan"@))
    } else {
        let rest = drop_underscores(sign_split(t).1);
        let (int_digits, frac_digits) = split_at_dot(rest);
        if int_digits.len() == 0 && frac_digits.len() == 0 {
            Err(DecimalFault::Malformed(s))
        } else if !all_digits(int_digits) || !all_digits(frac_digits) {
            Err(DecimalFault::Malformed(s))
        } else {
            Ok((sign_split(t).0, int_digits, frac_digits))
        }
    }
}

/// The value of a decimal literal as `(negative, integer part, fraction in
/// 65536ths)`, refusing any fraction that is not a whole number of 65536ths.
pub open spec fn parse_decimal_spec(s: Seq<char>) -> Result<(bool, nat, nat), DecimalFault> {
    match decimal_body(s) {
        Err(e) => Err(e),
        Ok((neg, int_digits, frac_digits)) => {
            let whole = digits_value(int_digits);
            let frac = trim_trailing_zeros(frac_digits);
            if whole > u128::MAX {
                Err(DecimalFault::OutOfRange)
            } else if frac.len() == 0 {
                Ok((neg, whole, 0))
            } else if frac.len() > 16 {
                Err(DecimalFault::NotRepresentable(trim(s)))
            } else if (digits_value(frac) * 65536) % pow_nat(10, frac.len()) != 0 {
                Err(DecimalFault::NotRepresentable(trim(s)))
            } else {
                Ok((neg, whole, (digits_value(frac) * 65536) / pow_nat(10, frac.len())))
            }
        },
    }
}

/// A decimal literal as `(negative, digits, places)` with value
/// `digits / 10^places`, trailing fraction zeros dropped.
pub open spec fn split_decimal_spec(s: Seq<char>) -> Result<(bool, nat, nat), DecimalFault> {
    match decimal_body(s) {
        Err(e) => Err(e),
        Ok((neg, int_digits, frac_digits)) => {
            let frac = trim_trailing_zeros(frac_digits);
            if int_digits.len() > 30 || frac.len() > 30 - int_digits.len() {
                Err(DecimalFault::OutOfRange)
            } else {
                Ok((neg, digits_value(int_digits + frac), frac.len()))
            }
        },
    }
}

/// Why a decimal string could not become an [`crate::fx::Fx`] or
/// [`crate::fx::FxWide`].
#[derive(Debug, PartialEq, Eq)]
pub enum FxParseError {
    /// The string is not a plain decimal number.
    Malformed(String),
    /// Exponent notation, infinities and NaN are refused outright.
    UnsupportedForm(&'static str),
    /// The value is a well-formed decimal, but not exactly representable.
    NotRepresentable(String),
    /// The value is exactly representable but outside the type's range.
    OutOfRange,
}

/// The message of a parse error.
pub open spec fn parse_error_text(e: FxParseError) -> Seq<char> {
    match e {
        FxParseError::Malformed(s) => "not a decimal number: \""@ + s@ + seq!['"'],
        FxParseError::UnsupportedForm(what) => what@ + " is not accepted in scene files; write the value out in full"@,
        FxParseError::NotRepresentable(s) => s@ + " is not exactly representable in fixed-point (the resolution is 1/65536)"@,
        FxParseError::OutOfRange => "value is outside the representable range"@,
    }
}

impl FxParseError {
    /// The refusal this error stands for.
    pub open spec fn fault(&self) -> DecimalFault {
        match self {
            FxParseError::Malformed(s) => DecimalFault::Malformed(s@),
            FxParseError::UnsupportedForm(s) => DecimalFault::UnsupportedForm(s@),
            FxParseError::NotRepresentable(s) => DecimalFault::NotRepresentable(s@),
            FxParseError::OutOfRange => DecimalFault::OutOfRange,
        }
    }

    /// The human-readable message.
    pub fn message(&self) -> (out: String)
        ensures
            out@ == parse_error_text(*self),
    {
        let mut out = String::new();
        match self {
            FxParseError::Malformed(s) => {
                crate::text::push_str(&mut out, "not a decimal number: \"");
                crate::text::push_str(&mut out, s.as_str());
                push_char(&mut out, '"');
            },
            FxParseError::UnsupportedForm(what) => {
                crate::text::push_str(&mut out, what);
                crate::text::push_str(
                    &mut out,
                    " is not accepted in scene files; write the value out in full",
                );
            },
            FxParseError::NotRepresentable(s) => {
                crate::text::push_str(&mut out, s.as_str());
                crate::text::push_str(
                    &mut out,
                    " is not exactly representable in fixed-point (the resolution is 1/65536)",
                );
            },
            FxParseError::OutOfRange => {
                crate::text::push_str(&mut out, "value is outside the representable range");
            },
        }
        out
    }
}

fn is_whitespace_exec(c: char) -> (r: bool)
    ensures
        r == is_whitespace(c),
{
    ('\u{9}' <= c && c <= '\u{d}') || c == ' ' || c == '\u{85}' || c == '\u{a0}' || c
        == '\u{1680}' || ('\u{2000}' <= c && c <= '\u{200a}') || c == '\u{2028}' || c
        == '\u{2029}' || c == '\u{202f}' || c == '\u{205f}' || c == '\u{3000}'
}

/// Whitespace removed from both ends.
pub fn trim_chars(cs: &[char]) -> (t: Vec<char>)
    ensures
        t@ == trim(cs@),
{
    let mut start: usize = 0;
    assert(cs@.skip(0) =~= cs@);
    while start < cs.len() && is_whitespace_exec(cs[start])
        invariant
            start <= cs@.len(),
            trim_start(cs@) == trim_start(cs@.skip(start as int)),
        decreases cs.len() - start,
    {
        assert(cs@.skip(start as int).drop_first() =~= cs@.skip(start + 1));
        start = start + 1;
    }
    assert(trim_start(cs@) == cs@.skip(start as int));
    let mut t: Vec<char> = Vec::new();
    let mut i = start;
    while i < cs.len()
        invariant
            start <= i <= cs@.len(),
            t@ == cs@.subrange(start as int, i as int),
        decreases cs.len() - i,
    {
        t.push(cs[i]);
        i = i + 1;
        assert(t@ =~= cs@.subrange(start as int, i as int));
    }
    assert(t@ =~= cs@.skip(start as int));
    while t.len() > 0 && is_whitespace_exec(t[t.len() - 1])
        invariant
            trim_end(t@) == trim(cs@),
        decreases t.len(),
    {
        let ghost before = t@;
        t.pop();
        assert(t@ =~= before.drop_last());
    }
    t
}

fn has_exponent_exec(t: &[char]) -> (r: bool)
    ensures
        r == has_exponent(t@),
{
    for i in 0..t.len()
        invariant
            forall|j: int| 0 <= j < i ==> !(t@[j] == 'e' || t@[j] == 'E'),
    {
        if t[i] == 'e' || t[i] == 'E' {
            return true;
        }
    }
    false
}

fn same_letter_exec(c: char, lower: char) -> (r: bool)
    ensures
        r == same_letter_ignoring_case(c, lower),
{
    c == lower || (lower == 'i' && c == 'I') || (lower == 'n' && c == 'N') || (lower == 'f' && c
        == 'F') || (lower == 'a' && c == 'A')
}

/// Whether `t` holds the three-letter word `a b c` anywhere, ignoring ASCII
/// case.
fn contains_word_exec(t: &[char], a: char, b: char, c: char) -> (r: bool)
    ensures
        r == contains_word(t@, seq![a, b, c]),
{
    let ghost word = seq![a, b, c];
    if t.len() < 3 {
        assert forall|k: int| !word_at(t@, k, word) by {}
        return false;
    }
    let mut i: usize = 0;
    while i <= t.len() - 3
        invariant
            t@.len() >= 3,
            word == seq![a, b, c],
            forall|k: int| 0 <= k < i ==> !word_at(t@, k, word),
        decreases t.len() - i,
    {
        if same_letter_exec(t[i], a) && same_letter_exec(t[i + 1], b) && same_letter_exec(
            t[i + 2],
            c,
        ) {
            assert forall|j: int| 0 <= j < 3 implies #[trigger] same_letter_ignoring_case(
                t@[i + j],
                word[j],
            ) by {
                if j == 0 {
                } else if j == 1 {
                } else {
                }
            }
            assert(word_at(t@, i as int, word));
            return true;
        }
        assert(!word_at(t@, i as int, word)) by {
            if word_at(t@, i as int, word) {
                assert(same_letter_ignoring_case(t@[i + 0], word[0]));
                assert(same_letter_ignoring_case(t@[i + 1], word[1]));
                assert(same_letter_ignoring_case(t@[i + 2], word[2]));
            }
        }
        i = i + 1;
    }
    assert forall|k: int| !word_at(t@, k, word) by {
        if 0 <= k && k + 3 <= t@.len() {
            assert(k < i);
        }
    }
    false
}

/// `t` with every `_` removed.
fn drop_underscores_exec(t: &[char]) -> (out: Vec<char>)
    ensures
        out@ == drop_underscores(t@),
{
    let mut out: Vec<char> = Vec::new();
    for i in 0..t.len()
        invariant
            out@ == drop_underscores(t@.take(i as int)),
    {
        assert(t@.take(i + 1).drop_last() =~= t@.take(i as int));
        if t[i] != '_' {
            out.push(t[i]);
        }
    }
    assert(t@.take(t@.len() as int) =~= t@);
    out
}

/// Where the first `.` is, computed.
fn first_dot_exec(t: &[char]) -> (r: Option<usize>)
    ensures
        r matches Some(i) ==> first_dot(t@) == Some(i as int) && i < t@.len(),
        r is None ==> first_dot(t@) is None,
{
    for i in 0..t.len()
        invariant
            forall|j: int| 0 <= j < i ==> t@[j] != '.',
    {
        if t[i] == '.' {
            proof {
                lemma_first_dot_at(t@, i as int);
            }
            return Some(i);
        }
    }
    proof {
        lemma_first_dot_none(t@);
    }
    None
}

proof fn lemma_first_dot_at(s: Seq<char>, i: int)
    requires
        0 <= i < s.len(),
        s[i] == '.',
        forall|j: int| 0 <= j < i ==> s[j] != '.',
    ensures
        first_dot(s) == Some(i),
    decreases i,
{
    if i > 0 {
        lemma_first_dot_at(s.drop_first(), i - 1);
    }
}

proof fn lemma_first_dot_none(s: Seq<char>)
    requires
        forall|j: int| 0 <= j < s.len() ==> s[j] != '.',
    ensures
        first_dot(s) is None,
    decreases s.len(),
{
    if s.len() > 0 {
        lemma_first_dot_none(s.drop_first());
    }
}

fn all_digits_exec(t: &[char]) -> (r: bool)
    ensures
        r == all_digits(t@),
{
    for i in 0..t.len()
        invariant
            forall|j: int| 0 <= j < i ==> is_digit(t@[j]),
    {
        if !('0' <= t[i] && t[i] <= '9') {
            return false;
        }
    }
    true
}

fn digit_value_exec(c: char) -> (d: u128)
    requires
        is_digit(c),
    ensures
        d == digit_value(c),
        d < 10,
{
    if c == '1' {
        1
    } else if c == '2' {
        2
    } else if c == '3' {
        3
    } else if c == '4' {
        4
    } else if c == '5' {
        5
    } else if c == '6' {
        6
    } else if c == '7' {
        7
    } else if c == '8' {
        8
    } else if c == '9' {
        9
    } else {
        0
    }
}

/// The value of a digit string, or `None` when it does not fit in `u128`.
pub fn digits_to_u128(t: &[char]) -> (r: Option<u128>)
    requires
        all_digits(t@),
    ensures
        r matches Some(v) ==> v == digits_value(t@),
        r is None <==> digits_value(t@) > u128::MAX,
{
    let mut acc: u128 = 0;
    for i in 0..t.len()
        invariant
            all_digits(t@),
            acc == digits_value(t@.take(i as int)),
    {
        assert(t@.take(i + 1).drop_last() =~= t@.take(i as int));
        assert(is_digit(t@[i as int]));
        let d = digit_value_exec(t[i]);
        proof {
            lemma_digits_value_prefix(t@, i + 1);
        }
        match acc.checked_mul(10) {
            Some(m) => match m.checked_add(d) {
                Some(v) => {
                    acc = v;
                },
                None => {
                    return None;
                },
            },
            None => {
                return None;
            },
        }
    }
    assert(t@.take(t@.len() as int) =~= t@);
    Some(acc)
}

/// A prefix of a digit string never denotes more than the whole.
pub proof fn lemma_digits_value_prefix(s: Seq<char>, k: int)
    requires
        0 <= k <= s.len(),
    ensures
        digits_value(s.take(k)) <= digits_value(s),
    decreases s.len() - k,
{
    if k < s.len() {
        lemma_digits_value_prefix(s, k + 1);
        assert(s.take(k + 1).drop_last() =~= s.take(k));
    } else {
        assert(s.take(k) =~= s);
    }
}

/// The sign, integer digits and fraction digits of a literal.
fn decimal_body_exec(s: &str) -> (r: Result<(bool, Vec<char>, Vec<char>), FxParseError>)
    ensures
        match (r, decimal_body(s@)) {
            (Ok((neg, i, f)), Ok((n2, i2, f2))) => neg == n2 && i@ == i2 && f@ == f2,
            (Err(e), Err(e2)) => e.fault() == e2,
            _ => false,
        },
{
    let cs = crate::text::chars_of(s);
    let t = trim_chars(cs.as_slice());
    if t.len() == 0 {
        return Err(FxParseError::Malformed(crate::text::string_from(s)));
    }
    if has_exponent_exec(t.as_slice()) {
        return Err(FxParseError::UnsupportedForm("exponent notation"));
    }
    if contains_word_exec(t.as_slice(), 'i', 'n', 'f') || contains_word_exec(
        t.as_slice(),
        'n',
        'a',
        'n',
    ) {
        return Err(FxParseError::UnsupportedForm("inf/nan"));
    }
    let (neg, start) = if t[0] == '-' {
        (true, 1usize)
    } else if t[0] == '+' {
        (false, 1usize)
    } else {
        (false, 0usize)
    };
    let mut body: Vec<char> = Vec::new();
    let mut i = start;
    while i < t.len()
        invariant
            start <= i <= t@.len(),
            body@ == t@.subrange(start as int, i as int),
        decreases t.len() - i,
    {
        body.push(t[i]);
        i = i + 1;
        assert(body@ =~= t@.subrange(start as int, i as int));
    }
    assert(body@ =~= sign_split(t@).1);
    let rest = drop_underscores_exec(body.as_slice());
    let (int_digits, frac_digits) = match first_dot_exec(rest.as_slice()) {
        Some(dot) => {
            let mut a: Vec<char> = Vec::new();
            let mut b: Vec<char> = Vec::new();
            for j in 0..dot
                invariant
                    dot < rest@.len(),
                    a@ == rest@.take(j as int),
            {
                a.push(rest[j]);
                assert(a@ =~= rest@.take(j + 1));
            }
            let len = rest.len();
            assert(dot < len);
            let mut k = dot + 1;
            while k < rest.len()
                invariant
                    dot + 1 <= k <= rest@.len(),
                    b@ == rest@.subrange(dot + 1, k as int),
                decreases rest.len() - k,
            {
                b.push(rest[k]);
                k = k + 1;
                assert(b@ =~= rest@.subrange(dot + 1, k as int));
            }
            assert(b@ =~= rest@.skip(dot + 1));
            (a, b)
        },
        None => (rest, Vec::new()),
    };
    assert((int_digits@, frac_digits@) == split_at_dot(drop_underscores(sign_split(t@).1)));
    if int_digits.len() == 0 && frac_digits.len() == 0 {
        return Err(FxParseError::Malformed(crate::text::string_from(s)));
    }
    if !all_digits_exec(int_digits.as_slice()) || !all_digits_exec(frac_digits.as_slice()) {
        return Err(FxParseError::Malformed(crate::text::string_from(s)));
    }
    Ok((neg, int_digits, frac_digits))
}

/// Shared decimal parser. Returns `(negative, integer_part, raw_fraction)`
/// where `raw_fraction` is the numerator over 65536.
pub fn parse_decimal(s: &str) -> (r: Result<(bool, u128, u32), FxParseError>)
    ensures
        match (r, parse_decimal_spec(s@)) {
            (Ok((neg, whole, frac)), Ok((n2, i2, f2))) => neg == n2 && whole == i2 && frac == f2,
            (Err(e), Err(e2)) => e.fault() == e2,
            _ => false,
        },
{
    let (neg, int_digits, frac_digits) = match decimal_body_exec(s) {
        Ok(b) => b,
        Err(e) => {
            return Err(e);
        },
    };
    let whole = match digits_to_u128(int_digits.as_slice()) {
        Some(v) => v,
        None => {
            return Err(FxParseError::OutOfRange);
        },
    };
    let mut frac = frac_digits;
    trim_zeros(&mut frac);
    if frac.len() == 0 {
        return Ok((neg, whole, 0));
    }
    if frac.len() > 16 {
        let cs = crate::text::chars_of(s);
        let t = trim_chars(cs.as_slice());
        return Err(FxParseError::NotRepresentable(crate::text::string_of(t.as_slice())));
    }
    proof {
        lemma_trim_trailing_zeros(frac_digits@);
        lemma_digits_value_bound(frac@);
        lemma_pow_monotone(10, frac@.len(), 16);
        assert(pow_nat(10, 16) == 10000000000000000nat) by {
            reveal_with_fuel(pow_nat, 17);
        }
    }
    let numerator = match digits_to_u128(frac.as_slice()) {
        Some(v) => v,
        None => {
            return Err(FxParseError::OutOfRange);
        },
    };
    let denominator = pow10(frac.len() as u32);
    proof {
        lemma_pow_positive(10, frac@.len());
    }
    let scaled = numerator * 65536;
    if scaled % denominator != 0 {
        let cs = crate::text::chars_of(s);
        let t = trim_chars(cs.as_slice());
        return Err(FxParseError::NotRepresentable(crate::text::string_of(t.as_slice())));
    }
    proof {
        assert(scaled / denominator < 65536) by (nonlinear_arith)
            requires
                numerator < denominator,
                scaled == numerator * 65536,
                denominator > 0,
        ;
    }
    Ok((neg, whole, (scaled / denominator) as u32))
}

/// `10^k` as an integer.
pub fn pow10(k: u32) -> (p: u128)
    requires
        k <= 38,
    ensures
        p == pow_nat(10, k as nat),
{
    let mut p: u128 = 1;
    let mut i: u32 = 0;
    while i < k
        invariant
            i <= k <= 38,
            p == pow_nat(10, i as nat),
        decreases k - i,
    {
        proof {
            lemma_pow_bounds();
            lemma_pow_monotone(10, (i + 1) as nat, 38);
        }
        p = p * 10;
        i = i + 1;
    }
    p
}

/// Split a decimal literal into `(negative, digits, decimal_places)` such that
/// the value is `digits / 10^decimal_places`.
///
/// Shared by every exact-decimal parser in the engine so that they agree on
/// what counts as well-formed.
pub fn split_decimal(s: &str) -> (r: Result<(bool, u128, u32), FxParseError>)
    ensures
        match (r, split_decimal_spec(s@)) {
            (Ok((neg, digits, places)), Ok((n2, d2, p2))) => neg == n2 && digits == d2 && places
                == p2,
            (Err(e), Err(e2)) => e.fault() == e2,
            _ => false,
        },
        r matches Ok((_, digits, places)) ==> (digits < pow_nat(10, 30) && places <= 30),
{
    let (neg, int_digits, frac_digits) = match decimal_body_exec(s) {
        Ok(b) => b,
        Err(e) => {
            return Err(e);
        },
    };
    let mut frac = frac_digits;
    trim_zeros(&mut frac);
    if int_digits.len() > 30 || frac.len() > 30 - int_digits.len() {
        return Err(FxParseError::OutOfRange);
    }
    let mut all = int_digits;
    let ghost int_part = all@;
    let ghost frac_part = frac@;
    proof {
        lemma_trim_trailing_zeros(frac_digits@);
    }
    let mut tail = frac.clone();
    all.append(&mut tail);
    proof {
        assert(all@ =~= int_part + frac_part);
        assert forall|i: int| 0 <= i < all@.len() implies is_digit(#[trigger] all@[i]) by {
            if i < int_part.len() {
                assert(all@[i] == int_part[i]);
            } else {
                assert(all@[i] == frac_part[i - int_part.len()]);
            }
        }
        lemma_digits_value_bound(all@);
        lemma_pow_bounds();
        lemma_pow_monotone(10, all@.len(), 38);
        lemma_pow_monotone(10, all@.len(), 30);
    }
    let digits = match digits_to_u128(all.as_slice()) {
        Some(v) => v,
        None => {
            return Err(FxParseError::OutOfRange);
        },
    };
    Ok((neg, digits, frac.len() as u32))
}


// ---------------------------------------------------------------------------
// Rendering then parsing gives the value back
// ---------------------------------------------------------------------------

/// A character that exact decimal text is made of.
pub open spec fn plain_char(c: char) -> bool {
    is_digit(c) || c == '-' || c == '.'
}

/// Every character of `t` is a digit, a minus sign or a point.
pub open spec fn all_plain(t: Seq<char>) -> bool {
    forall|i: int| 0 <= i < t.len() ==> #[trigger] plain_char(t[i])
}

/// Text made of plain characters, starting and ending without whitespace,
/// passes the trimming, exponent and inf/nan checks untouched.
proof fn lemma_plain_passes_checks(t: Seq<char>)
    requires
        t.len() > 0,
        all_plain(t),
    ensures
        trim(t) == t,
        !has_exponent(t),
        !contains_word(t, seq!['i', 'n', 'f']),
        !contains_word(t, seq!['n', 'a', 'n']),
{
    assert(plain_char(t[0]));
    assert(plain_char(t[t.len() - 1]));
    assert(trim_start(t) == t);
    assert(trim_end(t) == t);
    assert(!has_exponent(t)) by {
        if has_exponent(t) {
            let i = choose|i: int| 0 <= i < t.len() && (t[i] == 'e' || t[i] == 'E');
            assert(plain_char(t[i]));
        }
    }
    assert(!contains_word(t, seq!['i', 'n', 'f'])) by {
        if contains_word(t, seq!['i', 'n', 'f']) {
            let at = choose|at: int| word_at(t, at, seq!['i', 'n', 'f']);
            assert(same_letter_ignoring_case(t[at + 0], seq!['i', 'n', 'f'][0]));
            assert(plain_char(t[at]));
        }
    }
    assert(!contains_word(t, seq!['n', 'a', 'n'])) by {
        if contains_word(t, seq!['n', 'a', 'n']) {
            let at = choose|at: int| word_at(t, at, seq!['n', 'a', 'n']);
            assert(same_letter_ignoring_case(t[at + 0], seq!['n', 'a', 'n'][0]));
            assert(plain_char(t[at]));
        }
    }
}

/// Text without `_` is unchanged by dropping separators.
proof fn lemma_no_underscores(t: Seq<char>)
    requires
        all_plain(t),
    ensures
        drop_underscores(t) == t,
    decreases t.len(),
{
    if t.len() > 0 {
        assert(plain_char(t[t.len() - 1]));
        assert(all_plain(t.drop_last())) by {
            assert forall|i: int| 0 <= i < t.drop_last().len() implies #[trigger] plain_char(
                t.drop_last()[i],
            ) by {
                assert(plain_char(t[i]));
            }
        }
        lemma_no_underscores(t.drop_last());
        assert(t.drop_last().push(t.last()) =~= t);
    }
}

/// The first point in `d + "." + f`, where `d` has none, is right after `d`.
proof fn lemma_first_dot_after_digits(d: Seq<char>, f: Seq<char>)
    requires
        all_digits(d),
    ensures
        first_dot(d + seq!['.'] + f) == Some(d.len() as int),
    decreases d.len(),
{
    let t = d + seq!['.'] + f;
    if d.len() == 0 {
        assert(t[0] == '.');
    } else {
        assert(is_digit(d[0]));
        assert(t[0] == d[0]);
        let rest = d.drop_first();
        assert(all_digits(rest)) by {
            assert forall|i: int| 0 <= i < rest.len() implies is_digit(#[trigger] rest[i]) by {
                assert(rest[i] == d[i + 1]);
            }
        }
        lemma_first_dot_after_digits(rest, f);
        assert(t.drop_first() =~= rest + seq!['.'] + f);
    }
}

/// Trimming text that already ends in a nonzero digit changes nothing.
proof fn lemma_trim_trailing_zeros_idempotent(s: Seq<char>)
    requires
        all_digits(s),
    ensures
        trim_trailing_zeros(trim_trailing_zeros(s)) == trim_trailing_zeros(s),
{
    lemma_trim_trailing_zeros(s);
}

/// The fraction digits of exact text for `fp / 65536`, read back, give `fp`.
proof fn lemma_fraction_digits(fp: nat)
    requires
        0 < fp < 65536,
    ensures
        ({
            let f = trim_trailing_zeros(zero_padded(fp * pow_nat(5, 16), 16));
            &&& all_digits(f)
            &&& 0 < f.len() <= 16
            &&& trim_trailing_zeros(f) == f
            &&& (digits_value(f) * 65536) % pow_nat(10, f.len()) == 0
            &&& (digits_value(f) * 65536) / pow_nat(10, f.len()) == fp
        }),
{
    let p5 = pow_nat(5, 16);
    let p10 = pow_nat(10, 16);
    reveal_with_fuel(pow_nat, 17);
    assert(pow_nat(5, 16) == 152587890625nat);
    assert(pow_nat(10, 16) == 10000000000000000nat);
    assert(pow_nat(2, 16) == 65536nat);
    let n = fp * p5;
    assert(0 < n < p10) by (nonlinear_arith)
        requires
            0 < fp < 65536,
            p5 == 152587890625nat,
            p10 == 10000000000000000nat,
            n == fp * p5,
    ;
    lemma_zero_padded(n, 16);
    lemma_decimal_len(n, 16);
    let z = zero_padded(n, 16);
    assert(z.len() == 16);
    lemma_trim_trailing_zeros(z);
    lemma_trim_trailing_zeros_idempotent(z);
    let f = trim_trailing_zeros(z);
    let l = f.len();
    let k = (16 - l) as nat;
    let v = digits_value(f);
    let pk = pow_nat(10, k);
    let pl = pow_nat(10, l);
    assert(n == v * pk);
    if l == 0 {
        assert(v == 0);
        assert(false) by (nonlinear_arith)
            requires
                n == v * pk,
                v == 0,
                n > 0,
        ;
    }
    lemma_pow_adds(10, k, l);
    assert(k + l == 16);
    lemma_pow_positive(10, k);
    lemma_pow_positive(10, l);
    // v * 10^k == fp * 5^16, and 65536 * 5^16 == 10^16 == 10^k * 10^l,
    // so v * 65536 == fp * 10^l.
    assert(v * 65536 == fp * pl) by (nonlinear_arith)
        requires
            n == v * pk,
            n == fp * p5,
            p10 == pk * pl,
            p5 == 152587890625nat,
            p10 == 10000000000000000nat,
            pk > 0,
    ;
    assert((fp * pl) % pl == 0 && (fp * pl) / pl == fp) by (nonlinear_arith)
        requires
            pl > 0,
    ;
}

/// The fraction digits of exact text for `mag / 2^bits`: `0` for a whole
/// number, else the fraction's exact decimal digits, trailing zeros dropped.
pub open spec fn fraction_text(mag: nat, bits: nat) -> Seq<char> {
    let fp = mag % pow_nat(2, bits);
    if fp == 0 {
        seq!['0']
    } else {
        trim_trailing_zeros(zero_padded(fp * pow_nat(5, bits), bits))
    }
}

/// Exact decimal text splits into its sign, the digits of its whole part,
/// and its fraction digits.
pub(crate) proof fn lemma_exact_text_body(neg: bool, mag: nat, bits: nat)
    requires
        all_digits(fraction_text(mag, bits)),
    ensures
        decimal_body(exact_decimal_text(neg, mag, bits)) == Ok::<(bool, Seq<char>, Seq<char>), DecimalFault>(
            (neg && mag != 0, decimal(mag / pow_nat(2, bits)), fraction_text(mag, bits)),
        ),
{
    let ip = mag / pow_nat(2, bits);
    let sign = if neg && mag != 0 {
        seq!['-']
    } else {
        Seq::<char>::empty()
    };
    let frac = fraction_text(mag, bits);
    let d = decimal(ip);
    let body = d + seq!['.'] + frac;
    let t = exact_decimal_text(neg, mag, bits);
    assert(t =~= sign + body);
    lemma_decimal(ip);
    assert(all_plain(body)) by {
        assert forall|i: int| 0 <= i < body.len() implies #[trigger] plain_char(body[i]) by {
            if i < d.len() {
                assert(body[i] == d[i]);
            } else if i > d.len() {
                assert(body[i] == frac[i - d.len() - 1]);
            }
        }
    }
    assert(all_plain(t)) by {
        assert forall|i: int| 0 <= i < t.len() implies #[trigger] plain_char(t[i]) by {
            if i >= sign.len() {
                assert(t[i] == body[i - sign.len()]);
            }
        }
    }
    lemma_plain_passes_checks(t);
    assert(sign_split(t) == (neg && mag != 0, body)) by {
        if neg && mag != 0 {
            assert(t.drop_first() =~= body);
        } else {
            assert(t =~= body);
            assert(is_digit(d[0]));
        }
    }
    lemma_no_underscores(body);
    lemma_first_dot_after_digits(d, frac);
    assert(body.take(d.len() as int) =~= d);
    assert(body.skip(d.len() as int + 1) =~= frac);
    assert(split_at_dot(body) == (d, frac));
}

/// Exact decimal text with 16 fractional bits parses back to the sign, whole
/// part and 65536ths it was rendered from.
pub proof fn lemma_exact_text_parses(neg: bool, mag: nat)
    requires
        mag / 65536 <= u128::MAX,
    ensures
        parse_decimal_spec(exact_decimal_text(neg, mag, 16)) == Ok::<(bool, nat, nat), DecimalFault>(
            (neg && mag != 0, mag / 65536, mag % 65536),
        ),
{
    reveal_with_fuel(pow_nat, 17);
    assert(pow_nat(2, 16) == 65536nat);
    let ip = mag / 65536;
    let fp = mag % 65536;
    let frac = fraction_text(mag, 16);
    lemma_decimal(ip);
    if fp == 0 {
        assert(all_digits(frac));
        assert(trim_trailing_zeros(frac.drop_last()) == Seq::<char>::empty());
        assert(trim_trailing_zeros(frac) =~= Seq::<char>::empty());
    } else {
        lemma_fraction_digits(fp);
    }
    lemma_exact_text_body(neg, mag, 16);
}

/// A digit string followed by another denotes the first shifted left by the
/// second's length, plus the second.
pub proof fn lemma_digits_value_concat(a: Seq<char>, b: Seq<char>)
    ensures
        digits_value(a + b) == digits_value(a) * pow_nat(10, b.len()) + digits_value(b),
    decreases b.len(),
{
    if b.len() == 0 {
        assert(a + b =~= a);
        assert(pow_nat(10, 0) == 1);
        assert(digits_value(b) == 0);
    } else {
        lemma_digits_value_concat(a, b.drop_last());
        assert((a + b).drop_last() =~= a + b.drop_last());
        assert((a + b).last() == b.last());
        let p = pow_nat(10, (b.len() - 1) as nat);
        let va = digits_value(a);
        let vb = digits_value(b.drop_last());
        let last = digit_value(b.last());
        assert(pow_nat(10, b.len()) == 10 * p);
        assert(digits_value(a + b) == (va * p + vb) * 10 + last);
        assert(digits_value(b) == vb * 10 + last);
        assert((va * p + vb) * 10 + last == va * (10 * p) + (vb * 10 + last)) by (nonlinear_arith);
    }
}

/// The fraction digits of exact text for `fp / 8192`: nonempty digits
/// ending in a nonzero digit, which shifted by the digits missing from
/// thirteen give `fp * 5^13`.
pub(crate) proof fn lemma_fraction_digits_13(fp: nat)
    requires
        0 < fp < 8192,
    ensures
        ({
            let f = trim_trailing_zeros(zero_padded(fp * pow_nat(5, 13), 13));
            &&& all_digits(f)
            &&& 0 < f.len() <= 13
            &&& trim_trailing_zeros(f) == f
            &&& digits_value(f) * pow_nat(10, (13 - f.len()) as nat) == fp * pow_nat(5, 13)
        }),
{
    let p5 = pow_nat(5, 13);
    let p10 = pow_nat(10, 13);
    reveal_with_fuel(pow_nat, 14);
    assert(p5 == 1220703125nat);
    assert(p10 == 10000000000000nat);
    let n = fp * p5;
    assert(0 < n < p10) by (nonlinear_arith)
        requires
            0 < fp < 8192,
            p5 == 1220703125nat,
            p10 == 10000000000000nat,
            n == fp * p5,
    ;
    lemma_zero_padded(n, 13);
    lemma_decimal_len(n, 13);
    let z = zero_padded(n, 13);
    assert(z.len() == 13);
    lemma_trim_trailing_zeros(z);
    lemma_trim_trailing_zeros_idempotent(z);
    let f = trim_trailing_zeros(z);
    let l = f.len();
    let k = (13 - l) as nat;
    let v = digits_value(f);
    assert(n == v * pow_nat(10, k));
    if l == 0 {
        assert(v == 0);
        assert(false) by (nonlinear_arith)
            requires
                n == v * pow_nat(10, k),
                v == 0,
                n > 0,
        ;
    }
}

} // verus!
