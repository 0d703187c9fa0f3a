//! Stable identity.
//!
//! A uid is the `n_k3xq7a2p` string that appears in a scene file and in every
//! cross-reference: a prefix and eight characters. Permanent: renaming,
//! reparenting and moving a node never change it.
//!
//! Uids are random rather than sequential, which looks worse and merges far
//! better: two branches each producing a random 40-bit id do not collide.
//!
//! A uid stores its eight characters rather than the bits behind them, so the
//! text that went into a scene file is the text that comes back out.
use vstd::prelude::*;

use crate::decimal::decimal;
use crate::rng::{wide_draw, Rng};
use crate::text::{debug_char_text, debug_text};

verus! {

/// Characters in the body of a uid.
pub const UID_LEN: usize = 8;

/// Bits of entropy in a generated uid.
pub const UID_BITS: u32 = 40;

/// The generation alphabet: Crockford-style base32, minus the characters
/// that are easy to misread.
pub open spec fn alphabet() -> Seq<char> {
    seq![
        '0', '1', '2', '3', '4', '5', '6', '7', '8', '9', 'a', 'b', 'c', 'd', 'e', 'f', 'g', 'h',
        'j', 'k', 'm', 'n', 'p', 'q', 'r', 's', 't', 'v', 'w', 'x', 'y', 'z',
    ]
}

/// The alphabet generated ids are drawn from, for documentation.
///
/// Parsing is more permissive: any of `[0-9a-z_]`.
pub fn generated_alphabet() -> (r: &'static str)
    ensures
        r@ == alphabet(),
{
    let a = "0123456789abcdefghjkmnpqrstvwxyz";
    proof {
        reveal_strlit("0123456789abcdefghjkmnpqrstvwxyz");
        assert(a@ =~= alphabet());
    }
    a
}

/// Entry `k` of the generation alphabet, as a byte.
fn alphabet_byte(k: u64) -> (b: u8)
    requires
        k < 32,
    ensures
        b as char == alphabet()[k as int],
        b < 128,
        uid_char(b as char),
{
    let b: u8 = if k < 10 {
        48 + k as u8
    } else if k < 18 {
        97 + (k - 10) as u8
    } else if k < 20 {
        106 + (k - 18) as u8
    } else if k < 22 {
        109 + (k - 20) as u8
    } else if k < 27 {
        112 + (k - 22) as u8
    } else {
        118 + (k - 27) as u8
    };
    b
}

/// Whether a character may appear in a uid body.
pub open spec fn uid_char(c: char) -> bool {
    ('a' <= c && c <= 'z') || ('0' <= c && c <= '9') || c == '_'
}

/// Why a uid string was rejected.
#[derive(Debug, Clone, PartialEq, Eq)]
pub enum UidError {
    /// The expected prefix was missing.
    BadPrefix {
        /// The prefix the type requires.
        expected: &'static str,
        /// What was actually supplied.
        found: String,
    },
    /// The body was not eight characters.
    BadLength(usize),
    /// The body contained something outside `[0-9a-z_]`.
    BadCharacter(char),
}

/// A uid refusal, over plain values.
pub enum UidFault {
    /// Missing prefix; carries the prefix wanted and the whole input.
    BadPrefix(Seq<char>, Seq<char>),
    /// Wrong length; carries the body's character count.
    BadLength(nat),
    /// A character outside `[0-9a-z_]`; the first one.
    BadCharacter(char),
}

impl UidError {
    /// The refusal this error stands for.
    pub open spec fn fault(&self) -> UidFault {
        match self {
            UidError::BadPrefix { expected, found } => UidFault::BadPrefix(expected@, found@),
            UidError::BadLength(n) => UidFault::BadLength(*n as nat),
            UidError::BadCharacter(c) => UidFault::BadCharacter(*c),
        }
    }

    /// The human-readable message.
    pub fn message(&self) -> (out: String)
        ensures
            out@ == uid_error_text(self.fault()),
    {
        let mut out = String::new();
        match self {
            UidError::BadPrefix { expected, found } => {
                crate::text::push_str(&mut out, "expected a ");
                let e = crate::text::debug_str(expected);
                crate::text::push_str(&mut out, e.as_str());
                crate::text::push_str(&mut out, " prefix on ");
                let f = crate::text::debug_str(found.as_str());
                crate::text::push_str(&mut out, f.as_str());
            },
            UidError::BadLength(n) => {
                crate::text::push_str(&mut out, "expected 8 characters after the prefix, found ");
                crate::text::push_usize(&mut out, *n);
            },
            UidError::BadCharacter(c) => {
                let d = crate::text::debug_char(*c);
                crate::text::push_str(&mut out, d.as_str());
                crate::text::push_str(&mut out, " is not a valid uid character; use [0-9a-z_]");
            },
        }
        out
    }
}

/// The message a uid refusal is shown with.
pub open spec fn uid_error_text(f: UidFault) -> Seq<char> {
    match f {
        UidFault::BadPrefix(expected, found) => "expected a "@ + debug_text(expected) + " prefix on "@
            + debug_text(found),
        UidFault::BadLength(n) => "expected 8 characters after the prefix, found "@ + decimal(n),
        UidFault::BadCharacter(c) => debug_char_text(c) + " is not a valid uid character; use [0-9a-z_]"@,
    }
}

/// Whether every character is ASCII.
pub open spec fn all_ascii(s: Seq<char>) -> bool {
    forall|i: int| 0 <= i < s.len() ==> (#[trigger] s[i] as u32) < 128
}

/// The first character of `s` outside `[0-9a-z_]`, if any.
pub open spec fn first_bad_char(s: Seq<char>) -> Option<char>
    decreases s.len(),
{
    if s.len() == 0 {
        None
    } else if !uid_char(s[0]) {
        Some(s[0])
    } else {
        first_bad_char(s.drop_first())
    }
}

/// How a uid with `prefix` parses: its body, or why it was refused.
pub open spec fn uid_parse(prefix: Seq<char>, s: Seq<char>) -> Result<Seq<char>, UidFault> {
    if !(s.len() >= prefix.len() && s.take(prefix.len() as int) == prefix) {
        Err(UidFault::BadPrefix(prefix, s))
    } else {
        let body = s.skip(prefix.len() as int);
        if !all_ascii(body) || body.len() != 8 {
            Err(UidFault::BadLength(body.len()))
        } else {
            match first_bad_char(body) {
                Some(c) => Err(UidFault::BadCharacter(c)),
                None => Ok(body),
            }
        }
    }
}

/// Parsing accepts exactly the bodies of eight characters each a lowercase
/// ASCII letter, a digit or `_`: after any prefix, such a body parses to
/// itself, and a body of eight ASCII characters with any other character
/// is refused.
pub proof fn lemma_uid_parse_accepts_the_id_alphabet(prefix: Seq<char>, body: Seq<char>)
    requires
        body.len() == 8,
    ensures
        (forall|i: int| 0 <= i < 8 ==> {
            let c = #[trigger] body[i];
            ('a' <= c <= 'z') || ('0' <= c <= '9') || c == '_'
        }) ==> uid_parse(prefix, prefix + body) == Ok::<Seq<char>, UidFault>(body),
        (forall|i: int| 0 <= i < 8 ==> (#[trigger] body[i] as u32) < 128) && (exists|i: int| 0 <= i < 8 && {
            let c = #[trigger] body[i];
            !(('a' <= c <= 'z') || ('0' <= c <= '9') || c == '_')
        }) ==> uid_parse(prefix, prefix + body) is Err,
{
    let s = prefix + body;
    assert(s.take(prefix.len() as int) =~= prefix);
    assert(s.skip(prefix.len() as int) =~= body);
    if forall|i: int| 0 <= i < 8 ==> {
        let c = #[trigger] body[i];
        ('a' <= c <= 'z') || ('0' <= c <= '9') || c == '_'
    } {
        assert forall|i: int| 0 <= i < body.len() implies (#[trigger] body[i] as u32) < 128 by {
            let c = body[i];
            assert(('a' <= c <= 'z') || ('0' <= c <= '9') || c == '_');
        }
        lemma_alphabet_has_no_bad_char(body);
    }
    if exists|i: int| 0 <= i < 8 && {
        let c = #[trigger] body[i];
        !(('a' <= c <= 'z') || ('0' <= c <= '9') || c == '_')
    } {
        let i = choose|i: int| 0 <= i < 8 && {
            let c = #[trigger] body[i];
            !(('a' <= c <= 'z') || ('0' <= c <= '9') || c == '_')
        };
        lemma_bad_char_found(body, i);
    }
}

/// Only eight-character bodies after the right prefix parse: a body of any
/// other length is refused, and so is text that does not start with the
/// prefix.
pub proof fn lemma_uid_parse_needs_prefix_and_eight(prefix: Seq<char>, s: Seq<char>)
    ensures
        (s.len() < prefix.len() || s.take(prefix.len() as int) != prefix) ==> uid_parse(prefix, s) is Err,
        s.len() >= prefix.len() && s.len() != prefix.len() + 8 ==> uid_parse(prefix, s) is Err,
        uid_parse(prefix, s) matches Ok(b) ==> s == prefix + b && b.len() == 8,
{
    if uid_parse(prefix, s) is Ok {
        assert(s =~= s.take(prefix.len() as int) + s.skip(prefix.len() as int));
    }
}

/// A body of allowed characters has no first bad one.
proof fn lemma_alphabet_has_no_bad_char(b: Seq<char>)
    requires
        forall|i: int| 0 <= i < b.len() ==> {
            let c = #[trigger] b[i];
            ('a' <= c <= 'z') || ('0' <= c <= '9') || c == '_'
        },
    ensures
        first_bad_char(b) is None,
    decreases b.len(),
{
    if b.len() > 0 {
        let c = b[0];
        assert(('a' <= c <= 'z') || ('0' <= c <= '9') || c == '_');
        assert forall|i: int| 0 <= i < b.drop_first().len() implies {
            let c = #[trigger] b.drop_first()[i];
            ('a' <= c <= 'z') || ('0' <= c <= '9') || c == '_'
        } by {
            let c = b[i + 1];
            assert(('a' <= c <= 'z') || ('0' <= c <= '9') || c == '_');
        }
        lemma_alphabet_has_no_bad_char(b.drop_first());
    }
}

/// A body with a character outside the alphabet has a first bad one.
proof fn lemma_bad_char_found(b: Seq<char>, i: int)
    requires
        0 <= i < b.len(),
        !(('a' <= b[i] <= 'z') || ('0' <= b[i] <= '9') || b[i] == '_'),
    ensures
        first_bad_char(b) is Some,
    decreases b.len(),
{
    if i > 0 && uid_char(b[0]) {
        assert(b.drop_first()[i - 1] == b[i]);
        lemma_bad_char_found(b.drop_first(), i - 1);
    }
}

/// The characters a byte array spells, one per byte.
pub open spec fn byte_chars(b: Seq<u8>) -> Seq<char> {
    Seq::new(b.len(), |i: int| b[i] as char)
}

/// The body a generated uid gets from 64 random bits: the low 40 bits, five
/// at a time from the top.
pub open spec fn generated_body(bits: u64) -> Seq<char> {
    Seq::new(8, |i: int| alphabet()[((bits >> ((7 - i) * 5) as u64) & 31u64) as int])
}

/// A well-formed uid body: eight ASCII characters from `[0-9a-z_]`.
pub open spec fn valid_body(b: Seq<char>) -> bool {
    &&& b.len() == 8
    &&& forall|i: int| 0 <= i < 8 ==> uid_char(#[trigger] b[i]) && (b[i] as u32) < 128
}

/// A body made only of uid characters has no bad character.
proof fn lemma_no_bad_char(b: Seq<char>)
    requires
        forall|i: int| 0 <= i < b.len() ==> uid_char(#[trigger] b[i]),
    ensures
        first_bad_char(b) is None,
    decreases b.len(),
{
    if b.len() > 0 {
        assert(uid_char(b[0]));
        assert forall|i: int| 0 <= i < b.drop_first().len() implies uid_char(#[trigger] b.drop_first()[i]) by {
            assert(uid_char(b[i + 1]));
        }
        lemma_no_bad_char(b.drop_first());
    }
}

/// A uid's text parses back to the same body: what `to_text` writes, `parse`
/// reads unchanged.
pub proof fn lemma_uid_text_round_trip(prefix: Seq<char>, body: Seq<char>)
    requires
        valid_body(body),
    ensures
        uid_parse(prefix, prefix + body) == Ok::<Seq<char>, UidFault>(body),
{
    let s = prefix + body;
    assert(s.take(prefix.len() as int) =~= prefix);
    assert(s.skip(prefix.len() as int) =~= body);
    assert forall|i: int| 0 <= i < body.len() implies uid_char(#[trigger] body[i]) by {}
    lemma_no_bad_char(body);
}

/// `std::str::from_utf8` on bytes that are ASCII, which always succeeds.
#[verifier::external_body]
fn ascii_str(b: &[u8]) -> (s: &str)
    requires
        forall|i: int| 0 <= i < b@.len() ==> #[trigger] b@[i] < 128,
    ensures
        s@ == byte_chars(b@),
{
    match std::str::from_utf8(b) {
        Ok(s) => s,
        Err(_) => "",
    }
}

/// Check a uid body and pack it, or say why not.
fn parse_body(prefix: &'static str, s: &str) -> (r: Result<[u8; 8], UidError>)
    ensures
        match uid_parse(prefix@, s@) {
            Ok(body) => r matches Ok(b) && byte_chars(b@) == body,
            Err(f) => r matches Err(e) && e.fault() == f,
        },
        r matches Ok(b) ==> forall|i: int| 0 <= i < 8 ==> #[trigger] b@[i] < 128 && uid_char(b@[i] as char),
{
    let cs = crate::text::chars_of(s);
    let ps = crate::text::chars_of(prefix);
    let n = ps.len();
    let mut starts = cs.len() >= n;
    if starts {
        let mut i: usize = 0;
        proof {
            assert(cs@.take(0) =~= ps@.take(0));
        }
        while i < n
            invariant
                i <= n,
                n == ps@.len(),
                cs@.len() >= n,
                starts == (cs@.take(i as int) == ps@.take(i as int)),
            decreases n - i,
        {
            proof {
                assert(cs@.take(i + 1) =~= cs@.take(i as int).push(cs@[i as int]));
                assert(ps@.take(i + 1) =~= ps@.take(i as int).push(ps@[i as int]));
                assert(cs@.take(i + 1).take(i as int) =~= cs@.take(i as int));
                assert(ps@.take(i + 1).take(i as int) =~= ps@.take(i as int));
                if cs@.take(i + 1) == ps@.take(i + 1) {
                    assert(cs@.take(i + 1)[i as int] == ps@.take(i + 1)[i as int]);
                }
            }
            starts = starts && cs[i] == ps[i];
            i = i + 1;
        }
        proof {
            assert(ps@.take(n as int) =~= ps@);
        }
    }
    if !starts {
        return Err(UidError::BadPrefix { expected: prefix, found: crate::text::string_from(s) });
    }
    let ghost body = s@.skip(n as int);
    let mut ascii = true;
    let mut i: usize = n;
    while i < cs.len()
        invariant
            n <= i <= cs@.len(),
            cs@ == s@,
            body == cs@.skip(n as int),
            ascii == (forall|k: int| 0 <= k < i - n ==> (#[trigger] body[k] as u32) < 128),
        decreases cs.len() - i,
    {
        proof {
            crate::rng::lemma_char_code(cs@[i as int]);
            assert(body[i - n] == cs@[i as int]);
        }
        ascii = ascii && (cs[i] as u32) < 128;
        i = i + 1;
    }
    if !ascii || cs.len() - n != 8 {
        return Err(UidError::BadLength(cs.len() - n));
    }
    let mut out = [0u8; 8];
    let mut k: usize = 0;
    proof {
        assert(body.skip(0) =~= body);
        assert(ps@ == prefix@);
        assert(all_ascii(body));
        assert(uid_parse(prefix@, s@) == match first_bad_char(body) {
            Some(c) => Err(UidFault::BadCharacter(c)),
            None => Ok::<Seq<char>, UidFault>(body),
        });
    }
    while k < 8
        invariant
            k <= 8,
            cs@.len() == n + 8,
            n + 8 <= usize::MAX,
            uid_parse(prefix@, s@) == match first_bad_char(body) {
                Some(c) => Err(UidFault::BadCharacter(c)),
                None => Ok::<Seq<char>, UidFault>(body),
            },
            forall|j: int| 0 <= j < k ==> (#[trigger] out@[j]) < 128,
            body == cs@.skip(n as int),
            all_ascii(body),
            forall|j: int| 0 <= j < k ==> uid_char(#[trigger] body[j]),
            forall|j: int| 0 <= j < k ==> (#[trigger] out@[j]) as char == body[j],
            first_bad_char(body) == first_bad_char(body.skip(k as int)),
        decreases 8 - k,
    {
        let c = cs[n + k];
        proof {
            assert(body.skip(k as int)[0] == c);
            assert(body.skip(k as int).drop_first() =~= body.skip(k + 1));
        }
        if !(('a' <= c && c <= 'z') || ('0' <= c && c <= '9') || c == '_') {
            proof {
                assert(!uid_char(body.skip(k as int)[0]));
                assert(first_bad_char(body.skip(k as int)) == Some(c));
            }
            return Err(UidError::BadCharacter(c));
        }
        proof {
            crate::rng::lemma_char_code(c);
            assert((body[k as int] as u32) < 128);
        }
        let code = c as u32;
        out[k] = code as u8;
        k = k + 1;
    }
    proof {
        assert(body.skip(8) =~= Seq::<char>::empty());
        assert(byte_chars(out@) =~= body);
    }
    Ok(out)
}

/// A permanent node identifier: `n_` plus eight characters.
#[derive(Clone, Copy, PartialEq, Eq, PartialOrd, Ord, Hash, Debug)]
pub struct NodeUid([u8; 8]);

impl NodeUid {
    /// The eight body characters.
    pub closed spec fn body_chars(&self) -> Seq<char> {
        byte_chars(self.0@)
    }

    /// Every body character is one of `[0-9a-z_]`.
    #[verifier::type_invariant]
    spec fn valid(self) -> bool {
        &&& self.0@.len() == 8
        &&& forall|i: int| 0 <= i < 8 ==> #[trigger] self.0@[i] < 128 && uid_char(self.0@[i] as char)
    }

    /// The textual prefix this id carries.
    #[allow(non_snake_case)]
    pub fn PREFIX() -> (r: &'static str)
        ensures
            r@ == "n_"@,
    {
        "n_"
    }

    /// Draw a fresh id from a seeded stream: 40 bits of one `next_u64`, five
    /// bits per character.
    ///
    /// Ids come from the project's generator rather than the operating
    /// system so that applying a recorded command log reproduces the same
    /// ids.
    pub fn generate(rng: &mut Rng) -> (r: NodeUid)
        ensures
            r.body_chars() == generated_body(wide_draw(old(rng)@.state, old(rng)@.inc)),
            final(rng)@.state == crate::rng::advance(old(rng)@.state, old(rng)@.inc, 2),
            final(rng)@.inc == old(rng)@.inc,
    {
        let bits = rng.next_u64();
        let mut body = [0u8; 8];
        let mut i: usize = 0;
        while i < 8
            invariant
                i <= 8,
                body@.len() == 8,
                forall|j: int| 0 <= j < i ==> (#[trigger] body@[j]) < 128 && body@[j] as char
                    == generated_body(bits)[j] && uid_char(body@[j] as char),
            decreases 8 - i,
        {
            let shift = ((7 - i) * 5) as u64;
            assert((bits >> shift) & 31u64 < 32) by (bit_vector);
            body[i] = alphabet_byte((bits >> shift) & 31u64);
            i = i + 1;
        }
        proof {
            assert(byte_chars(body@) =~= generated_body(bits));
        }
        NodeUid(body)
    }

    /// The eight body characters, without the prefix.
    pub fn body(&self) -> (s: &str)
        ensures
            s@ == self.body_chars(),
            valid_body(self.body_chars()),
    {
        proof {
            use_type_invariant(self);
            assert forall|i: int| 0 <= i < 8 implies uid_char(#[trigger] self.body_chars()[i]) && (self.body_chars()[i] as u32) < 128 by {
                assert(self.body_chars()[i] == self.0@[i] as char);
            }
        }
        ascii_str(&self.0)
    }

    /// Render as the canonical text form.
    pub fn to_text(self) -> (s: String)
        ensures
            s@ == "n_"@ + self.body_chars(),
            valid_body(self.body_chars()),
    {
        let mut s = String::new();
        crate::text::push_str(&mut s, "n_");
        crate::text::push_str(&mut s, self.body());
        s
    }

    /// Parse the canonical text form.
    ///
    /// Parsing accepts any of `[0-9a-z_]`, which is wider than the
    /// generation alphabet, because people do hand-write ids in scene files.
    /// Whatever is accepted is stored verbatim and written back unchanged.
    pub fn parse(s: &str) -> (r: Result<NodeUid, UidError>)
        ensures
            match uid_parse("n_"@, s@) {
                Ok(body) => r matches Ok(u) && u.body_chars() == body,
                Err(f) => r matches Err(e) && e.fault() == f,
            },
    {
        match parse_body("n_", s) {
            Ok(b) => {
                proof {
                    assert forall|i: int| 0 <= i < 8 implies #[trigger] b@[i] < 128 && uid_char(b@[i] as char) by {
                        assert(byte_chars(b@)[i] == b@[i] as char);
                    }
                }
                Ok(NodeUid(b))
            },
            Err(e) => Err(e),
        }
    }
}

/// A permanent asset identifier: `a_` plus eight characters.
#[derive(Clone, Copy, PartialEq, Eq, PartialOrd, Ord, Hash, Debug)]
pub struct AssetId([u8; 8]);

impl AssetId {
    /// The eight body characters.
    pub closed spec fn body_chars(&self) -> Seq<char> {
        byte_chars(self.0@)
    }

    /// The id with a given body.
    pub(crate) fn from_body(body: [u8; 8]) -> (r: AssetId)
        requires
            forall|i: int| 0 <= i < 8 ==> #[trigger] body@[i] < 128 && uid_char(body@[i] as char),
        ensures
            r.body_chars() == byte_chars(body@),
    {
        AssetId(body)
    }

    /// Every body character is one of `[0-9a-z_]`.
    #[verifier::type_invariant]
    spec fn valid(self) -> bool {
        &&& self.0@.len() == 8
        &&& forall|i: int| 0 <= i < 8 ==> #[trigger] self.0@[i] < 128 && uid_char(self.0@[i] as char)
    }

    /// The textual prefix this id carries.
    #[allow(non_snake_case)]
    pub fn PREFIX() -> (r: &'static str)
        ensures
            r@ == "a_"@,
    {
        "a_"
    }

    /// Draw a fresh id from a seeded stream: 40 bits of one `next_u64`, five
    /// bits per character.
    ///
    /// Ids come from the project's generator rather than the operating
    /// system so that applying a recorded command log reproduces the same
    /// ids.
    pub fn generate(rng: &mut Rng) -> (r: AssetId)
        ensures
            r.body_chars() == generated_body(wide_draw(old(rng)@.state, old(rng)@.inc)),
            final(rng)@.state == crate::rng::advance(old(rng)@.state, old(rng)@.inc, 2),
            final(rng)@.inc == old(rng)@.inc,
    {
        let bits = rng.next_u64();
        let mut body = [0u8; 8];
        let mut i: usize = 0;
        while i < 8
            invariant
                i <= 8,
                body@.len() == 8,
                forall|j: int| 0 <= j < i ==> (#[trigger] body@[j]) < 128 && body@[j] as char
                    == generated_body(bits)[j] && uid_char(body@[j] as char),
            decreases 8 - i,
        {
            let shift = ((7 - i) * 5) as u64;
            assert((bits >> shift) & 31u64 < 32) by (bit_vector);
            body[i] = alphabet_byte((bits >> shift) & 31u64);
            i = i + 1;
        }
        proof {
            assert(byte_chars(body@) =~= generated_body(bits));
        }
        AssetId(body)
    }

    /// The eight body characters, without the prefix.
    pub fn body(&self) -> (s: &str)
        ensures
            s@ == self.body_chars(),
            valid_body(self.body_chars()),
    {
        proof {
            use_type_invariant(self);
            assert forall|i: int| 0 <= i < 8 implies uid_char(#[trigger] self.body_chars()[i]) && (self.body_chars()[i] as u32) < 128 by {
                assert(self.body_chars()[i] == self.0@[i] as char);
            }
        }
        ascii_str(&self.0)
    }

    /// Render as the canonical text form.
    pub fn to_text(self) -> (s: String)
        ensures
            s@ == "a_"@ + self.body_chars(),
            valid_body(self.body_chars()),
    {
        let mut s = String::new();
        crate::text::push_str(&mut s, "a_");
        crate::text::push_str(&mut s, self.body());
        s
    }

    /// Parse the canonical text form.
    ///
    /// Parsing accepts any of `[0-9a-z_]`, which is wider than the
    /// generation alphabet, because people do hand-write ids in scene files.
    /// Whatever is accepted is stored verbatim and written back unchanged.
    pub fn parse(s: &str) -> (r: Result<AssetId, UidError>)
        ensures
            match uid_parse("a_"@, s@) {
                Ok(body) => r matches Ok(u) && u.body_chars() == body,
                Err(f) => r matches Err(e) && e.fault() == f,
            },
    {
        match parse_body("a_", s) {
            Ok(b) => {
                proof {
                    assert forall|i: int| 0 <= i < 8 implies #[trigger] b@[i] < 128 && uid_char(b@[i] as char) by {
                        assert(byte_chars(b@)[i] == b@[i] as char);
                    }
                }
                Ok(AssetId(b))
            },
            Err(e) => Err(e),
        }
    }
}

} // verus!
