//! Character-level helpers shared by every parser and renderer in the crate.
//!
//! Text is handled as a sequence of `char`s: a string is turned into a `Vec<char>`
//! once, and rendered text is built by pushing characters onto a `String`.
use vstd::prelude::*;

verus! {

/// The characters of `s`, in order.
pub fn chars_of(s: &str) -> (out: Vec<char>)
    ensures
        out@ == s@,
{
    let mut out: Vec<char> = Vec::new();
    for c in it: s.chars()
        invariant
            out@ == it.seq().take(it.index() as int),
    {
        out.push(c);
    }
    out
}

/// Append one character to a string.
#[verifier::external_body]
pub(crate) fn push_char(s: &mut String, c: char)
    ensures
        final(s)@ == old(s)@.push(c),
{
    s.push(c);
}

/// Append a sequence of characters to a string.
pub fn push_chars(s: &mut String, cs: &[char])
    ensures
        final(s)@ == old(s)@ + cs@,
{
    let ghost start = s@;
    for i in 0..cs.len()
        invariant
            s@ == start + cs@.take(i as int),
    {
        push_char(s, cs[i]);
        assert(cs@.take(i + 1) == cs@.take(i as int).push(cs@[i as int]));
    }
    assert(cs@.take(cs@.len() as int) == cs@);
}

/// Append the characters of `t` to a string.
pub fn push_str(s: &mut String, t: &str)
    ensures
        final(s)@ == old(s)@ + t@,
{
    let cs = chars_of(t);
    push_chars(s, cs.as_slice());
}

/// A string holding exactly the given characters.
pub fn string_of(cs: &[char]) -> (out: String)
    ensures
        out@ == cs@,
{
    let mut out = String::new();
    push_chars(&mut out, cs);
    out
}

/// A string holding the characters of `t`.
pub fn string_from(t: &str) -> (out: String)
    ensures
        out@ == t@,
{
    let mut out = String::new();
    push_str(&mut out, t);
    out
}

/// Whether two character slices hold the same characters.
pub fn chars_eq(a: &[char], b: &[char]) -> (r: bool)
    ensures
        r == (a@ == b@),
{
    if a.len() != b.len() {
        return false;
    }
    for i in 0..a.len()
        invariant
            a@.len() == b@.len(),
            forall|j: int| 0 <= j < i ==> a@[j] == b@[j],
    {
        if a[i] != b[i] {
            return false;
        }
    }
    assert(a@ =~= b@);
    true
}

/// Whether two strings hold the same characters.
pub fn str_eq(a: &str, b: &str) -> (r: bool)
    ensures
        r == (a@ == b@),
{
    let x = chars_of(a);
    let y = chars_of(b);
    chars_eq(x.as_slice(), y.as_slice())
}

/// Append the decimal rendering of `n`.
pub fn push_usize(s: &mut String, n: usize)
    ensures
        final(s)@ == old(s)@ + crate::decimal::decimal(n as nat),
{
    let digits = crate::decimal::decimal_chars(n as u128);
    push_chars(s, digits.as_slice());
}

/// Append the decimal rendering of `n`.
pub fn push_u64(s: &mut String, n: u64)
    ensures
        final(s)@ == old(s)@ + crate::decimal::decimal(n as nat),
{
    let digits = crate::decimal::decimal_chars(n as u128);
    push_chars(s, digits.as_slice());
}

/// What Rust's `Debug` formatting writes for a string: quoted, with escapes.
pub uninterp spec fn debug_text(s: Seq<char>) -> Seq<char>;

/// What Rust's `Debug` formatting writes for a character: single-quoted,
/// with escapes.
pub uninterp spec fn debug_char_text(c: char) -> Seq<char>;

/// `<str as Debug>::fmt`, through `format!`: the string quoted and escaped
/// the way Rust writes it.
#[verifier::external_body]
pub(crate) fn debug_str(s: &str) -> (out: String)
    ensures
        out@ == debug_text(s@),
{
    format!("{:?}", s)
}

/// `<char as Debug>::fmt`, through `format!`.
#[verifier::external_body]
pub(crate) fn debug_char(c: char) -> (out: String)
    ensures
        out@ == debug_char_text(c),
{
    format!("{:?}", c)
}

/// `"true"` or `"false"`.
pub open spec fn bool_text(b: bool) -> Seq<char> {
    if b {
        "true"@
    } else {
        "false"@
    }
}

/// Append `true` or `false`.
pub fn push_bool(s: &mut String, b: bool)
    ensures
        final(s)@ == old(s)@ + bool_text(b),
{
    if b {
        push_str(s, "true");
    } else {
        push_str(s, "false");
    }
}

} // verus!
