//! The command-line surface's argument parsing.
//!
//! Every failure is a [`Diagnostics`] batch carrying a `DIM####` code, so an
//! agent never has to parse prose to find out whether something worked.
use vstd::prelude::*;

pub mod cli;
pub mod mcp;

use crate::decimal::{parse_error_text, DecimalFault, FxParseError};
use crate::fx::{decimal_raw, fits_i32};
use crate::diag::{
    diagnostic_text, field_lookup, registered_severity, Code, Diagnostic, Diagnostics, FieldValue,
};
use crate::fx::Fx;
use crate::text::debug_text;
use crate::vec::Vec2Fx;

verus! {

/// Whether `c` is white space, as Unicode's `White_Space` property has it.
pub open spec fn is_space(c: char) -> bool {
    let u = c as u32;
    (0x09 <= u && u <= 0x0d) || u == 0x20 || u == 0x85 || u == 0xa0 || u == 0x1680 || (0x2000 <= u
        && u <= 0x200a) || u == 0x2028 || u == 0x2029 || u == 0x202f || u == 0x205f || u == 0x3000
}

/// How many characters at the front of `s` are white space.
pub open spec fn leading_space(s: Seq<char>) -> int
    decreases s.len(),
{
    if s.len() > 0 && is_space(s[0]) {
        1 + leading_space(s.drop_first())
    } else {
        0
    }
}

/// How many characters at the back of `s` are white space.
pub open spec fn trailing_space(s: Seq<char>) -> int
    decreases s.len(),
{
    if s.len() > 0 && is_space(s.last()) {
        1 + trailing_space(s.drop_last())
    } else {
        0
    }
}

/// `s` with white space trimmed from both ends.
pub open spec fn trimmed(s: Seq<char>) -> Seq<char> {
    let t = s.skip(leading_space(s));
    t.take(t.len() - trailing_space(t))
}

/// Whether `c` is white space.
fn is_space_exec(c: char) -> (r: bool)
    ensures
        r == is_space(c),
{
    let u = c as u32;
    (0x09 <= u && u <= 0x0d) || u == 0x20 || u == 0x85 || u == 0xa0 || u == 0x1680 || (0x2000 <= u
        && u <= 0x200a) || u == 0x2028 || u == 0x2029 || u == 0x202f || u == 0x205f || u == 0x3000
}

/// Lemma: the leading white space lies within the text.
proof fn lemma_leading_space_bound(s: Seq<char>)
    ensures
        0 <= leading_space(s) <= s.len(),
    decreases s.len(),
{
    if s.len() > 0 && is_space(s[0]) {
        lemma_leading_space_bound(s.drop_first());
    }
}

/// Lemma: the trailing white space lies within the text.
proof fn lemma_trailing_space_bound(s: Seq<char>)
    ensures
        0 <= trailing_space(s) <= s.len(),
    decreases s.len(),
{
    if s.len() > 0 && is_space(s.last()) {
        lemma_trailing_space_bound(s.drop_last());
    }
}

/// White space trimmed from both ends of `s[from..to]`.
fn trim_range(s: &Vec<char>, from: usize, to: usize) -> (r: Vec<char>)
    requires
        from <= to <= s@.len(),
    ensures
        r@ == trimmed(s@.subrange(from as int, to as int)),
{
    let ghost whole = s@.subrange(from as int, to as int);
    let mut a = from;
    while a < to && is_space_exec(s[a])
        invariant
            from <= a <= to <= s@.len(),
            whole == s@.subrange(from as int, to as int),
            leading_space(whole) == (a - from) + leading_space(s@.subrange(a as int, to as int)),
        decreases to - a,
    {
        proof {
            assert(s@.subrange(a as int, to as int).drop_first() =~= s@.subrange(a + 1, to as int));
        }
        a = a + 1;
    }
    proof {
        lemma_leading_space_bound(whole);
        assert(leading_space(s@.subrange(a as int, to as int)) == 0);
        assert(whole.skip(leading_space(whole)) =~= s@.subrange(a as int, to as int));
    }
    let ghost t = s@.subrange(a as int, to as int);
    let mut b = to;
    while b > a && is_space_exec(s[b - 1])
        invariant
            from <= a <= b <= to <= s@.len(),
            t == s@.subrange(a as int, to as int),
            trailing_space(t) == (to - b) + trailing_space(s@.subrange(a as int, b as int)),
        decreases b - a,
    {
        proof {
            assert(s@.subrange(a as int, b as int).drop_last() =~= s@.subrange(a as int, b - 1));
        }
        b = b - 1;
    }
    proof {
        assert(trailing_space(s@.subrange(a as int, b as int)) == 0);
        assert(t.take(t.len() - trailing_space(t)) =~= s@.subrange(a as int, b as int));
    }
    let mut out: Vec<char> = Vec::new();
    let mut k = a;
    while k < b
        invariant
            a <= k <= b <= s@.len(),
            out@ == s@.subrange(a as int, k as int),
        decreases b - k,
    {
        out.push(s[k]);
        proof {
            assert(s@.subrange(a as int, k + 1) =~= s@.subrange(a as int, k as int).push(s@[k as int]));
        }
        k = k + 1;
    }
    out
}

/// The position of the first `c` in `s`, if any.
pub open spec fn first_index(s: Seq<char>, c: char) -> Option<int>
    decreases s.len(),
{
    if s.len() == 0 {
        None
    } else if s.last() != c && first_index(s.drop_last(), c) is None {
        None
    } else {
        match first_index(s.drop_last(), c) {
            Some(i) => Some(i),
            None => Some(s.len() - 1),
        }
    }
}

/// The position of the first `c`, by scanning.
fn find_char(s: &Vec<char>, c: char) -> (r: Option<usize>)
    ensures
        match r {
            Some(i) => first_index(s@, c) == Some(i as int) && i < s@.len() && s@[i as int] == c,
            None => first_index(s@, c) is None,
        },
{
    let mut i: usize = 0;
    while i < s.len()
        invariant
            i <= s@.len(),
            first_index(s@.take(i as int), c) is None,
        decreases s@.len() - i,
    {
        proof {
            assert(s@.take(i + 1).drop_last() =~= s@.take(i as int));
        }
        if s[i] == c {
            proof {
                lemma_first_index_prefix(s@, c, i + 1);
            }
            return Some(i);
        }
        i = i + 1;
    }
    proof {
        assert(s@.take(i as int) =~= s@);
    }
    None
}

/// A `c` first found in a prefix is found at the same place in the whole.
proof fn lemma_first_index_prefix(s: Seq<char>, c: char, n: int)
    requires
        0 <= n <= s.len(),
        first_index(s.take(n), c) is Some,
    ensures
        first_index(s, c) == first_index(s.take(n), c),
    decreases s.len() - n,
{
    if n < s.len() {
        assert(s.take(n + 1).drop_last() =~= s.take(n));
        lemma_first_index_prefix(s, c, n + 1);
    } else {
        assert(s.take(n) =~= s);
    }
}

/// A batch of one.
fn one(d: Diagnostic) -> (r: Diagnostics)
    ensures
        r.0@ == seq![d],
{
    let mut v: Vec<Diagnostic> = Vec::new();
    v.push(d);
    Diagnostics(v)
}

/// Split `key=value` at its first `=`, trimming both sides.
pub fn split_assignment(text: &str) -> (r: Result<(String, String), Diagnostics>)
    ensures
        match first_index(text@, '=') {
            Some(i) => r matches Ok((k, v)) && k@ == trimmed(text@.take(i)) && v@ == trimmed(text@.skip(i + 1)),
            None => r matches Err(ds) && ds.0@.len() == 1 && ds.0@[0].code.0@ == "DIM0802"@ && ds.0@[0].message@
                == "expected key=value, found "@ + debug_text(text@) && (field_lookup(ds.0@[0].fields@, "argument"@)
                matches Some(FieldValue::Text(t)) && t@ == text@),
        },
{
    let cs = crate::text::chars_of(text);
    match find_char(&cs, '=') {
        Some(i) => {
            assert(i < cs.len());
            let k = trim_range(&cs, 0, i);
            let v = trim_range(&cs, i + 1, cs.len());
            proof {
                assert(cs@.subrange(0, i as int) =~= text@.take(i as int));
                assert(cs@.subrange(i + 1, cs@.len() as int) =~= text@.skip(i + 1));
                assert(k@ == trimmed(text@.take(i as int)));
                assert(v@ == trimmed(text@.skip(i + 1)));
            }
            let ks = crate::text::string_of(k.as_slice());
            let vs = crate::text::string_of(v.as_slice());
            proof {
                assert(ks@ == k@);
            }
            Ok((ks, vs))
        },
        None => {
            let mut m = crate::text::string_from("expected key=value, found ");
            let q = crate::text::debug_str(text);
            crate::text::push_str(&mut m, q.as_str());
            let d = Diagnostic::new(Code::BAD_ARGUMENT(), m).with_field(
                "argument",
                FieldValue::Text(crate::text::string_from(text)),
            );
            Err(one(d))
        },
    }
}

/// The value of a run of ASCII digits.
pub open spec fn digits_value(s: Seq<char>) -> int
    decreases s.len(),
{
    if s.len() == 0 {
        0
    } else {
        digits_value(s.drop_last()) * 10 + (s.last() as int - '0' as int)
    }
}

/// Whether every character is an ASCII digit.
pub open spec fn all_digits(s: Seq<char>) -> bool {
    forall|i: int| 0 <= i < s.len() ==> '0' <= #[trigger] s[i] && s[i] <= '9'
}

/// What `str::parse` makes of `s` as an integer between `lo` and `hi`: an
/// optional sign (a minus only when negatives are allowed), then at least one
/// digit, and nothing else.
pub open spec fn parse_int(s: Seq<char>, lo: int, hi: int) -> Option<int> {
    let neg = s.len() > 0 && s[0] == '-';
    let signed = s.len() > 0 && (s[0] == '-' || s[0] == '+');
    let rest = if signed { s.drop_first() } else { s };
    if rest.len() == 0 || !all_digits(rest) || (neg && lo >= 0) {
        None
    } else {
        let v = if neg { -digits_value(rest) } else { digits_value(rest) };
        if lo <= v <= hi { Some(v) } else { None }
    }
}

/// Parse an integer between `lo` and `hi`, as `str::parse` does.
fn parse_int_exec(s: &Vec<char>, lo: i64, hi: i64) -> (r: Option<i64>)
    requires
        i32::MIN <= lo <= hi <= u32::MAX,
    ensures
        match parse_int(s@, lo as int, hi as int) {
            Some(v) => r == Some(v as i64),
            None => r is None,
        },
{
    let n = s.len();
    if n == 0 {
        return None;
    }
    let neg = s[0] == '-';
    let signed = s[0] == '-' || s[0] == '+';
    let start: usize = if signed { 1 } else { 0 };
    let ghost rest = if signed { s@.drop_first() } else { s@ };
    proof {
        assert(rest =~= s@.skip(start as int));
    }
    if start == n {
        return None;
    }
    if neg && lo >= 0 {
        return None;
    }
    // Accumulate, stopping once the value is past any bound.
    let mut v: i64 = 0;
    let mut big = false;
    let mut k = start;
    while k < n
        invariant
            start <= k <= n,
            n == s@.len(),
            rest == s@.skip(start as int),
            rest == (if s@.len() > 0 && (s@[0] == '-' || s@[0] == '+') { s@.drop_first() } else { s@ }),
            all_digits(s@.subrange(start as int, k as int)),
            !big ==> v == digits_value(s@.subrange(start as int, k as int)) && 0 <= v <= 0x1_0000_0000,
            big ==> digits_value(s@.subrange(start as int, k as int)) > 0x1_0000_0000,
        decreases n - k,
    {
        let c = s[k];
        if !('0' <= c && c <= '9') {
            proof {
                assert(rest[k - start] == c);
                assert(!all_digits(rest));
            }
            return None;
        }
        proof {
            crate::rng::lemma_char_code(c);
            let t = s@.subrange(start as int, k + 1);
            assert(t.drop_last() =~= s@.subrange(start as int, k as int));
            assert(t.last() == c);
            lemma_digits_value_nonneg(s@.subrange(start as int, k as int));
        }
        let d = (c as u32 - '0' as u32) as i64;
        if !big {
            let next = v * 10 + d;
            if next > 0x1_0000_0000 {
                big = true;
            } else {
                v = next;
            }
        }
        k = k + 1;
    }
    proof {
        assert(s@.subrange(start as int, n as int) =~= rest);
    }
    if big {
        proof {
            lemma_digits_value_nonneg(rest);
        }
        return None;
    }
    let value = if neg { -v } else { v };
    if value < lo || value > hi {
        return None;
    }
    Some(value)
}

/// Digits have a non-negative value.
proof fn lemma_digits_value_nonneg(s: Seq<char>)
    requires
        all_digits(s),
    ensures
        digits_value(s) >= 0,
    decreases s.len(),
{
    if s.len() > 0 {
        assert(all_digits(s.drop_last())) by {
            assert forall|i: int| 0 <= i < s.drop_last().len() implies '0' <= #[trigger] s.drop_last()[i] && s.drop_last()[i] <= '9' by {
                assert(s.drop_last()[i] == s[i]);
            }
        }
        lemma_digits_value_nonneg(s.drop_last());
        assert('0' <= s.last() && s.last() <= '9');
    }
}

/// What [`Fx::parse_exact`] makes of `s`: the raw value, or why not.
pub open spec fn fx_parse(s: Seq<char>) -> Result<int, DecimalFault> {
    match decimal_raw(s) {
        Err(e) => Err(e),
        Ok(v) => if fits_i32(v) { Ok(v) } else { Err(DecimalFault::OutOfRange) },
    }
}

/// The message of the parse error that stands for a refusal.
pub open spec fn fault_message(f: DecimalFault) -> Seq<char> {
    match f {
        DecimalFault::Malformed(s) => "not a decimal number: \""@ + s + seq!['"'],
        DecimalFault::UnsupportedForm(what) => what + " is not accepted in scene files; write the value out in full"@,
        DecimalFault::NotRepresentable(s) => s + " is not exactly representable in fixed-point (the resolution is 1/65536)"@,
        DecimalFault::OutOfRange => "value is outside the representable range"@,
    }
}

/// `ds` is one diagnostic with this code and message.
pub open spec fn single(ds: Diagnostics, code: Seq<char>, message: Seq<char>) -> bool {
    &&& ds.0@.len() == 1
    &&& ds.0@[0].code.0@ == code
    &&& ds.0@[0].message@ == message
}

/// One scalar of a vector literal.
fn parse_component(cs: &Vec<char>, from: usize, to: usize) -> (r: Result<Fx, Diagnostics>)
    requires
        from <= to <= cs@.len(),
    ensures
        ({
            let t = trimmed(cs@.subrange(from as int, to as int));
            match fx_parse(t) {
                Ok(v) => r matches Ok(x) && x@ == v,
                Err(f) => r matches Err(ds) && single(ds, "DIM0203"@, fault_message(f)) && (field_lookup(
                    ds.0@[0].fields@,
                    "literal"@,
                ) matches Some(FieldValue::Text(l)) && l@ == t),
            }
        }),
{
    let t = trim_range(cs, from, to);
    let text = crate::text::string_of(t.as_slice());
    match Fx::parse_exact(text.as_str()) {
        Ok(x) => Ok(x),
        Err(e) => {
            let d = Diagnostic::new(Code::NOT_REPRESENTABLE(), e.message()).with_field(
                "literal",
                FieldValue::Text(text),
            );
            Err(one(d))
        },
    }
}

/// Parse `x,y` into a vector, each component an exact decimal.
pub fn parse_vec2(text: &str) -> (r: Result<Vec2Fx, Diagnostics>)
    ensures
        match first_index(text@, ',') {
            None => r matches Err(ds) && single(ds, "DIM0802"@, "expected `x,y`, found "@ + debug_text(text@)),
            Some(i) => {
                let xs = trimmed(text@.take(i));
                let ys = trimmed(text@.skip(i + 1));
                match (fx_parse(xs), fx_parse(ys)) {
                    (Err(f), _) => r matches Err(ds) && single(ds, "DIM0203"@, fault_message(f)),
                    (Ok(_), Err(f)) => r matches Err(ds) && single(ds, "DIM0203"@, fault_message(f)),
                    (Ok(a), Ok(b)) => r matches Ok(v) && v.x@ == a && v.y@ == b,
                }
            },
        },
{
    let cs = crate::text::chars_of(text);
    match find_char(&cs, ',') {
        None => {
            let mut m = crate::text::string_from("expected `x,y`, found ");
            let q = crate::text::debug_str(text);
            crate::text::push_str(&mut m, q.as_str());
            Err(one(Diagnostic::new(Code::BAD_ARGUMENT(), m)))
        },
        Some(i) => {
            proof {
                assert(cs@.subrange(0, i as int) =~= text@.take(i as int));
                assert(cs@.subrange(i + 1, cs@.len() as int) =~= text@.skip(i + 1));
            }
            let x = match parse_component(&cs, 0, i) {
                Ok(x) => x,
                Err(ds) => return Err(ds),
            };
            let y = match parse_component(&cs, i + 1, cs.len()) {
                Ok(y) => y,
                Err(ds) => return Err(ds),
            };
            Ok(Vec2Fx::new(x, y))
        },
    }
}

/// `s` split at every `sep`.
pub open spec fn split_on(s: Seq<char>, sep: char) -> Seq<Seq<char>>
    decreases s.len(),
{
    if s.len() == 0 {
        seq![Seq::empty()]
    } else {
        let before = split_on(s.drop_last(), sep);
        if s.last() == sep {
            before.push(Seq::empty())
        } else {
            before.update(before.len() - 1, before.last().push(s.last()))
        }
    }
}

/// Split sequences always have a last piece.
proof fn lemma_split_nonempty(s: Seq<char>, sep: char)
    ensures
        split_on(s, sep).len() >= 1,
    decreases s.len(),
{
    if s.len() > 0 {
        lemma_split_nonempty(s.drop_last(), sep);
    }
}

/// The pieces of `text` between commas, trimmed.
pub open spec fn comma_pieces(text: Seq<char>) -> Seq<Seq<char>> {
    let parts = split_on(text, ',');
    Seq::new(parts.len(), |k: int| trimmed(parts[k]))
}

/// The first of `pieces` from `k` on that is not an `i32`.
pub open spec fn first_bad_int(pieces: Seq<Seq<char>>, k: int) -> Option<int>
    decreases pieces.len() - k,
{
    if k >= pieces.len() {
        None
    } else if parse_int(pieces[k], i32::MIN as int, i32::MAX as int) is None {
        Some(k)
    } else {
        first_bad_int(pieces, k + 1)
    }
}

/// Split `text` at its commas into raw pieces.
fn split_commas(cs: &Vec<char>) -> (out: Vec<Vec<char>>)
    ensures
        out@.len() == split_on(cs@, ',').len(),
        forall|k: int| 0 <= k < out@.len() ==> (#[trigger] out@[k])@ == split_on(cs@, ',')[k],
{
    let mut out: Vec<Vec<char>> = Vec::new();
    let mut cur: Vec<char> = Vec::new();
    let mut i: usize = 0;
    while i < cs.len()
        invariant
            i <= cs@.len(),
            split_on(cs@.take(i as int), ',').len() == out@.len() + 1,
            forall|k: int| 0 <= k < out@.len() ==> (#[trigger] out@[k])@ == split_on(cs@.take(i as int), ',')[k],
            cur@ == split_on(cs@.take(i as int), ',').last(),
        decreases cs@.len() - i,
    {
        proof {
            assert(cs@.take(i + 1).drop_last() =~= cs@.take(i as int));
            assert(cs@.take(i + 1).last() == cs@[i as int]);
            lemma_split_nonempty(cs@.take(i as int), ',');
        }
        let c = cs[i];
        if c == ',' {
            let done = cur;
            out.push(done);
            cur = Vec::new();
            proof {
                let before = split_on(cs@.take(i as int), ',');
                assert forall|k: int| 0 <= k < out@.len() implies (#[trigger] out@[k])@ == split_on(cs@.take(i + 1), ',')[k] by {
                    if k < out@.len() - 1 {
                        assert(split_on(cs@.take(i + 1), ',')[k] == before[k]);
                    }
                }
            }
        } else {
            cur.push(c);
            proof {
                let before = split_on(cs@.take(i as int), ',');
                assert forall|k: int| 0 <= k < out@.len() implies (#[trigger] out@[k])@ == split_on(cs@.take(i + 1), ',')[k] by {
                    assert(split_on(cs@.take(i + 1), ',')[k] == before[k]);
                }
            }
        }
        i = i + 1;
    }
    proof {
        assert(cs@.take(i as int) =~= cs@);
    }
    out.push(cur);
    out
}

/// Parse `n` comma-separated integers.
pub fn parse_ints(text: &str, n: usize) -> (r: Result<Vec<i32>, Diagnostics>)
    ensures
        ({
            let pieces = comma_pieces(text@);
            if pieces.len() != n {
                r matches Err(ds) && single(
                    ds,
                    "DIM0802"@,
                    "expected "@ + crate::decimal::decimal(n as nat) + " comma-separated integers, found "@
                        + debug_text(text@),
                )
            } else {
                match first_bad_int(pieces, 0) {
                    Some(k) => r matches Err(ds) && single(ds, "DIM0802"@, debug_text(pieces[k]) + " is not an integer"@),
                    None => r matches Ok(v) && v@.len() == n && forall|k: int|
                        0 <= k < n ==> parse_int(pieces[k], i32::MIN as int, i32::MAX as int) == Some(#[trigger] v@[k] as int),
                }
            }
        }),
{
    let cs = crate::text::chars_of(text);
    let parts = split_commas(&cs);
    let ghost pieces = comma_pieces(text@);
    if parts.len() != n {
        let mut m = crate::text::string_from("expected ");
        crate::text::push_usize(&mut m, n);
        crate::text::push_str(&mut m, " comma-separated integers, found ");
        let q = crate::text::debug_str(text);
        crate::text::push_str(&mut m, q.as_str());
        return Err(one(Diagnostic::new(Code::BAD_ARGUMENT(), m)));
    }
    let mut out: Vec<i32> = Vec::new();
    let mut k: usize = 0;
    proof {
        assert(first_bad_int(pieces, 0) == first_bad_int(pieces, 0));
    }
    while k < parts.len()
        invariant
            k <= parts@.len(),
            parts@.len() == n,
            pieces == comma_pieces(text@),
            pieces.len() == n,
            cs@ == text@,
            forall|j: int| 0 <= j < parts@.len() ==> (#[trigger] parts@[j])@ == split_on(cs@, ',')[j],
            first_bad_int(pieces, 0) == first_bad_int(pieces, k as int),
            out@.len() == k,
            forall|j: int| 0 <= j < k ==> parse_int(pieces[j], i32::MIN as int, i32::MAX as int) == Some(#[trigger] out@[j] as int),
        decreases parts@.len() - k,
    {
        let piece = &parts[k];
        let t = trim_range(piece, 0, piece.len());
        proof {
            assert(piece@.subrange(0, piece@.len() as int) =~= piece@);
            assert(t@ == pieces[k as int]);
        }
        match parse_int_exec(&t, i32::MIN as i64, i32::MAX as i64) {
            Some(v) => {
                out.push(v as i32);
            },
            None => {
                let pt = crate::text::string_of(t.as_slice());
                let q = crate::text::debug_str(pt.as_str());
                let mut m = crate::text::string_from(q.as_str());
                crate::text::push_str(&mut m, " is not an integer");
                return Err(one(Diagnostic::new(Code::BAD_ARGUMENT(), m)));
            },
        }
        k = k + 1;
    }
    Ok(out)
}

/// The position of the first `x` or `X`.
pub open spec fn first_times(s: Seq<char>) -> Option<int>
    decreases s.len(),
{
    if s.len() == 0 {
        None
    } else {
        match first_times(s.drop_last()) {
            Some(i) => Some(i),
            None => if s.last() == 'x' || s.last() == 'X' { Some(s.len() - 1) } else { None },
        }
    }
}

/// One side of a size: a whole number of pixels.
fn parse_side(cs: &Vec<char>, from: usize, to: usize) -> (r: Result<u32, Diagnostics>)
    requires
        from <= to <= cs@.len(),
    ensures
        ({
            let raw = cs@.subrange(from as int, to as int);
            match parse_int(trimmed(raw), 0, u32::MAX as int) {
                Some(v) => r == Ok::<u32, Diagnostics>(v as u32),
                None => r matches Err(ds) && single(ds, "DIM0802"@, debug_text(raw) + " is not a number of pixels"@),
            }
        }),
{
    let t = trim_range(cs, from, to);
    match parse_int_exec(&t, 0, u32::MAX as i64) {
        Some(v) => Ok(v as u32),
        None => {
            let mut raw: Vec<char> = Vec::new();
            let mut k = from;
            while k < to
                invariant
                    from <= k <= to <= cs@.len(),
                    raw@ == cs@.subrange(from as int, k as int),
                decreases to - k,
            {
                raw.push(cs[k]);
                proof {
                    assert(cs@.subrange(from as int, k + 1) =~= cs@.subrange(from as int, k as int).push(cs@[k as int]));
                }
                k = k + 1;
            }
            let rs = crate::text::string_of(raw.as_slice());
            let q = crate::text::debug_str(rs.as_str());
            let mut m = crate::text::string_from(q.as_str());
            crate::text::push_str(&mut m, " is not a number of pixels");
            Err(one(Diagnostic::new(Code::BAD_ARGUMENT(), m)))
        },
    }
}

/// Parse a size like `480x270`; each side at least one pixel.
pub fn parse_size(text: &str) -> (r: Result<(u32, u32), Diagnostics>)
    ensures
        match first_times(text@) {
            None => r matches Err(ds) && single(ds, "DIM0802"@, "expected a size like 480x270, found "@ + debug_text(text@)),
            Some(i) => {
                let w = text@.take(i);
                let h = text@.skip(i + 1);
                match (parse_int(trimmed(w), 0, u32::MAX as int), parse_int(trimmed(h), 0, u32::MAX as int)) {
                    (None, _) => r matches Err(ds) && single(ds, "DIM0802"@, debug_text(w) + " is not a number of pixels"@),
                    (Some(_), None) => r matches Err(ds) && single(ds, "DIM0802"@, debug_text(h) + " is not a number of pixels"@),
                    (Some(a), Some(b)) => r matches Ok((x, y)) && x == (if a > 1 { a } else { 1 }) && y == (if b > 1 { b } else { 1 }),
                }
            },
        },
{
    let cs = crate::text::chars_of(text);
    let mut i: usize = 0;
    while i < cs.len() && cs[i] != 'x' && cs[i] != 'X'
        invariant
            i <= cs@.len(),
            first_times(cs@.take(i as int)) is None,
        decreases cs@.len() - i,
    {
        proof {
            assert(cs@.take(i + 1).drop_last() =~= cs@.take(i as int));
        }
        i = i + 1;
    }
    if i == cs.len() {
        proof {
            assert(cs@.take(i as int) =~= cs@);
        }
        let mut m = crate::text::string_from("expected a size like 480x270, found ");
        let q = crate::text::debug_str(text);
        crate::text::push_str(&mut m, q.as_str());
        return Err(one(Diagnostic::new(Code::BAD_ARGUMENT(), m)));
    }
    proof {
        assert(cs@.take(i + 1).drop_last() =~= cs@.take(i as int));
        lemma_first_times_prefix(cs@, i + 1);
        assert(cs@.subrange(0, i as int) =~= text@.take(i as int));
        assert(cs@.subrange(i + 1, cs@.len() as int) =~= text@.skip(i + 1));
    }
    let w = match parse_side(&cs, 0, i) {
        Ok(w) => w,
        Err(ds) => return Err(ds),
    };
    let h = match parse_side(&cs, i + 1, cs.len()) {
        Ok(h) => h,
        Err(ds) => return Err(ds),
    };
    Ok((if w > 1 { w } else { 1 }, if h > 1 { h } else { 1 }))
}

/// An `x` first found in a prefix is found at the same place in the whole.
proof fn lemma_first_times_prefix(s: Seq<char>, n: int)
    requires
        0 <= n <= s.len(),
        first_times(s.take(n)) is Some,
    ensures
        first_times(s) == first_times(s.take(n)),
    decreases s.len() - n,
{
    if n < s.len() {
        assert(s.take(n + 1).drop_last() =~= s.take(n));
        lemma_first_times_prefix(s, n + 1);
    } else {
        assert(s.take(n) =~= s);
    }
}

} // verus!
