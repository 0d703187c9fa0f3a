//! Deterministic state hashing.
//!
//! Every tick produces a hash of complete simulation state. Replay compares
//! those hashes tick by tick, which is what turns "the replay broke" into
//! "state diverged at tick 4117".
//!
//! Two rules make a hash trustworthy:
//!
//! 1. **Feed a length or a tag before variable-length data.** Otherwise
//!    `["ab", "c"]` and `["a", "bc"]` hash identically, and a divergence hides.
//! 2. **Feed in a defined order.** Any caller walking a map must sort first.
//!    [`StateHasher`] cannot enforce this, so it is on the caller.
//!
//! The digest itself is BLAKE3, from the `blake3` crate.
use vstd::prelude::*;

use crate::angle::Angle;
use vstd::string::StringSliceAdditionalSpecFns;
use vstd::utf8::encode_utf8;
use crate::fx::{Fx, FxWide};
use crate::id::{AssetId, NodeUid};
use crate::rng::RngState;
use crate::vec::Vec2Fx;

verus! {

// ---------------------------------------------------------------------------
// The blake3 crate
// ---------------------------------------------------------------------------

/// `blake3::Hasher`, the incremental hasher.
#[verifier::external_type_specification]
#[verifier::external_body]
pub struct ExBlake3Hasher(blake3::Hasher);

/// The BLAKE3 digest of `data`: 32 bytes, a function of the input alone.
pub uninterp spec fn blake3_digest(data: Seq<u8>) -> Seq<u8>;

/// Everything that has been fed to a `blake3::Hasher`, in order.
pub uninterp spec fn hasher_input(h: blake3::Hasher) -> Seq<u8>;

/// `blake3::hash`: the digest of `data`.
#[verifier::external_body]
pub(crate) fn blake3_hash(data: &[u8]) -> (d: [u8; 32])
    ensures
        d@ == blake3_digest(data@),
{
    *blake3::hash(data).as_bytes()
}

/// `blake3::Hasher::new`: a hasher that has been fed nothing.
#[verifier::external_body]
fn hasher_new() -> (h: blake3::Hasher)
    ensures
        hasher_input(h) == Seq::<u8>::empty(),
{
    blake3::Hasher::new()
}

/// `blake3::Hasher::update`: feeds `data` after everything fed before.
#[verifier::external_body]
fn hasher_update(h: &mut blake3::Hasher, data: &[u8])
    ensures
        hasher_input(*final(h)) == hasher_input(*old(h)) + data@,
{
    h.update(data);
}

/// `blake3::Hasher::finalize`: the crate documents that the incremental
/// result equals `blake3::hash` of everything fed, concatenated.
#[verifier::external_body]
fn hasher_finalize(h: &blake3::Hasher) -> (d: [u8; 32])
    ensures
        d@ == blake3_digest(hasher_input(*h)),
{
    *h.finalize().as_bytes()
}

// ---------------------------------------------------------------------------
// Little-endian encodings
// ---------------------------------------------------------------------------

/// The little-endian bytes of `v`, lowest first, `n` of them.
pub open spec fn le_bytes(v: nat, n: nat) -> Seq<u8>
    decreases n,
{
    if n == 0 {
        Seq::empty()
    } else {
        seq![(v % 256) as u8] + le_bytes(v / 256, (n - 1) as nat)
    }
}

/// Little-endian bytes of an unsigned value.
fn le_u64(v: u64, n: usize) -> (b: Vec<u8>)
    requires
        n <= 8,
    ensures
        b@ == le_bytes(v as nat, n as nat),
    decreases n,
{
    if n == 0 {
        return Vec::new();
    }
    let mut rest = le_u64(v / 256, n - 1);
    let mut b: Vec<u8> = Vec::new();
    b.push((v % 256) as u8);
    b.append(&mut rest);
    proof {
        assert(b@ =~= seq![(v % 256) as u8] + le_bytes((v / 256) as nat, (n - 1) as nat));
    }
    b
}

/// The two's complement bit pattern of a signed value of `bits` bits.
pub open spec fn twos(v: int, bits: nat) -> nat {
    if v >= 0 {
        v as nat
    } else {
        (v + vstd::arithmetic::power2::pow2(bits)) as nat
    }
}

// ---------------------------------------------------------------------------
// StateHash
// ---------------------------------------------------------------------------

/// A 32-byte state hash.
#[derive(Clone, Copy, PartialEq, Eq, PartialOrd, Ord, Hash, Debug)]
pub struct StateHash(pub [u8; 32]);

/// The lowercase hex digit for `d < 16`.
pub open spec fn hex_digit(d: nat) -> char {
    if d < 10 {
        ((d + 48) as u8) as char
    } else {
        ((d + 87) as u8) as char
    }
}

/// Lowercase hex of `bytes`, two digits per byte, high nibble first.
pub open spec fn hex_text(bytes: Seq<u8>) -> Seq<char>
    decreases bytes.len(),
{
    if bytes.len() == 0 {
        Seq::empty()
    } else {
        hex_text(bytes.drop_last()) + seq![
            hex_digit((bytes.last() / 16) as nat),
            hex_digit((bytes.last() % 16) as nat),
        ]
    }
}

/// The value of an ASCII hex digit in either case, if it is one.
pub open spec fn hex_value(b: u8) -> Option<nat> {
    if 48 <= b <= 57 {
        Some((b - 48) as nat)
    } else if 97 <= b <= 102 {
        Some((b - 87) as nat)
    } else if 65 <= b <= 70 {
        Some((b - 55) as nat)
    } else {
        None
    }
}

/// What `u8::from_str_radix(_, 16)` makes of two ASCII bytes: two hex digits,
/// or a `+` sign and one.
pub open spec fn hex_pair(hi: u8, lo: u8) -> Option<u8> {
    match (hex_value(hi), hex_value(lo)) {
        (Some(h), Some(l)) => Some((h * 16 + l) as u8),
        (None, Some(l)) => if hi == 43 {
            Some(l as u8)
        } else {
            None
        },
        _ => None,
    }
}

/// The 32 bytes that 64 bytes of hex text denote, if each pair is valid.
pub open spec fn hex_bytes(text: Seq<u8>) -> Option<Seq<u8>> {
    if text.len() == 64 && forall|i: int| 0 <= i < 32 ==> #[trigger] hex_pair(text[2 * i], text[2 * i + 1]) is Some {
        Some(Seq::new(32, |i: int| hex_pair(text[2 * i], text[2 * i + 1])->0))
    } else {
        None
    }
}

fn hex_digit_exec(d: u8) -> (c: char)
    requires
        d < 16,
    ensures
        c == hex_digit(d as nat),
{
    if d < 10 {
        (d + 48) as char
    } else {
        (d + 87) as char
    }
}

fn hex_value_exec(b: u8) -> (r: Option<u8>)
    ensures
        match hex_value(b) {
            Some(v) => r == Some(v as u8),
            None => r is None,
        },
{
    if 48 <= b && b <= 57 {
        Some(b - 48)
    } else if 97 <= b && b <= 102 {
        Some(b - 87)
    } else if 65 <= b && b <= 70 {
        Some(b - 55)
    } else {
        None
    }
}

impl StateHash {
    /// The raw bytes.
    pub fn as_bytes(&self) -> (r: &[u8; 32])
        ensures
            r@ == self.0@,
    {
        &self.0
    }

    /// Lowercase hex, the form that appears in input logs and CI output.
    pub fn to_hex(self) -> (s: String)
        ensures
            s@ == hex_text(self.0@),
    {
        let mut s = String::new();
        let mut i: usize = 0;
        while i < 32
            invariant
                i <= 32,
                s@ == hex_text(self.0@.take(i as int)),
            decreases 32 - i,
        {
            let b = self.0[i];
            crate::text::push_char(&mut s, hex_digit_exec(b / 16));
            crate::text::push_char(&mut s, hex_digit_exec(b % 16));
            proof {
                assert(self.0@.take(i + 1).drop_last() =~= self.0@.take(i as int));
            }
            i = i + 1;
        }
        proof {
            assert(self.0@.take(32) =~= self.0@);
        }
        s
    }

    /// The first eight hex characters, for log lines where the full hash is
    /// noise.
    pub fn short(self) -> (s: String)
        ensures
            s@ == hex_text(self.0@).take(8),
    {
        let full = self.to_hex();
        proof {
            lemma_hex_text_len(self.0@);
        }
        let cs = crate::text::chars_of(full.as_str());
        let mut out = String::new();
        let mut i: usize = 0;
        while i < 8
            invariant
                i <= 8,
                cs@ == hex_text(self.0@),
                cs@.len() == 64,
                out@ == cs@.take(i as int),
            decreases 8 - i,
        {
            crate::text::push_char(&mut out, cs[i]);
            proof {
                assert(cs@.take(i + 1) =~= cs@.take(i as int).push(cs@[i as int]));
            }
            i = i + 1;
        }
        out
    }

    /// Parse from hex, either case; each pair of characters is read the way
    /// `u8::from_str_radix` reads it.
    pub fn from_hex(s: &str) -> (r: Option<StateHash>)
        ensures
            match hex_bytes(s.spec_bytes()) {
                Some(b) => r matches Some(h) && h.0@ == b,
                None => r is None,
            },
    {
        let text = s.as_bytes();
        if text.len() != 64 {
            return None;
        }
        let mut out = [0u8; 32];
        let mut i: usize = 0;
        while i < 32
            invariant
                i <= 32,
                text@ == s.spec_bytes(),
                text@.len() == 64,
                forall|k: int| 0 <= k < i ==> #[trigger] hex_pair(text@[2 * k], text@[2 * k + 1]) == Some(out@[k]),
            decreases 32 - i,
        {
            let hi = text[2 * i];
            let lo = text[2 * i + 1];
            let v = match (hex_value_exec(hi), hex_value_exec(lo)) {
                (Some(h), Some(l)) => h * 16 + l,
                (None, Some(l)) => {
                    if hi == 43 {
                        l
                    } else {
                        proof {
                            assert(hex_pair(text@[2 * i as int], text@[2 * i as int + 1]) is None);
                        }
                        return None;
                    }
                },
                _ => {
                    proof {
                        assert(hex_pair(text@[2 * i as int], text@[2 * i as int + 1]) is None);
                    }
                    return None;
                },
            };
            out[i] = v;
            i = i + 1;
        }
        proof {
            let b = Seq::new(32, |k: int| hex_pair(text@[2 * k], text@[2 * k + 1])->0);
            assert(out@ =~= b);
        }
        Some(StateHash(out))
    }
}

/// Accumulates simulation state into a [`StateHash`].
///
/// Only simulation state may be fed in. Presentation state — audio playback
/// position, cosmetic tweens, particles, render interpolation — must never
/// reach a hasher, or replay starts depending on frame timing.
pub struct StateHasher {
    inner: blake3::Hasher,
}

impl StateHasher {
    /// Everything fed so far, in order.
    pub closed spec fn input(&self) -> Seq<u8> {
        hasher_input(self.inner)
    }

    /// A fresh hasher.
    pub fn new() -> (h: StateHasher)
        ensures
            h.input() == Seq::<u8>::empty(),
    {
        StateHasher { inner: hasher_new() }
    }

    /// Finish and produce the hash of everything fed.
    pub fn finish(&self) -> (h: StateHash)
        ensures
            h.0@ == blake3_digest(self.input()),
    {
        StateHash(hasher_finalize(&self.inner))
    }

    fn feed(&mut self, data: &[u8])
        ensures
            final(self).input() == old(self).input() + data@,
    {
        hasher_update(&mut self.inner, data);
    }

    /// Feed a field name, so that reordering or renaming a field changes the
    /// hash rather than silently aliasing with another field: its byte
    /// length, cut to 32 bits, as four little-endian bytes, then its UTF-8
    /// bytes.
    pub fn tag(&mut self, name: &str) -> (r: &mut Self)
        ensures
            r.input() == old(self).input() + le_bytes(name.spec_bytes().len() % 0x1_0000_0000, 4) + name.spec_bytes(),
            *final(self) == *final(r),
    {
        let bytes = name.as_bytes();
        let n = le_u64(bytes.len() as u64 % 0x1_0000_0000, 4);
        self.feed(n.as_slice());
        self.feed(bytes);
        self
    }

    /// Feed a length prefix before a variable-length sequence: eight
    /// little-endian bytes.
    pub fn len(&mut self, n: usize) -> (r: &mut Self)
        ensures
            r.input() == old(self).input() + le_bytes(n as nat, 8),
            *final(self) == *final(r),
    {
        let b = le_u64(n as u64, 8);
        self.feed(b.as_slice());
        self
    }

    /// Feed raw bytes, after their length as eight little-endian bytes.
    pub fn bytes(&mut self, b: &[u8]) -> (r: &mut Self)
        ensures
            r.input() == old(self).input() + le_bytes(b@.len(), 8) + b@,
            *final(self) == *final(r),
    {
        let n = le_u64(b.len() as u64, 8);
        self.feed(n.as_slice());
        self.feed(b);
        self
    }

    /// Feed a string, as its UTF-8 bytes after their length.
    pub fn str(&mut self, s: &str) -> (r: &mut Self)
        ensures
            r.input() == old(self).input() + le_bytes(s.spec_bytes().len(), 8) + s.spec_bytes(),
            *final(self) == *final(r),
    {
        self.bytes(s.as_bytes())
    }

    /// Feed a boolean, as one byte.
    pub fn bool(&mut self, v: bool) -> (r: &mut Self)
        ensures
            r.input() == old(self).input() + seq![if v { 1u8 } else { 0u8 }],
            *final(self) == *final(r),
    {
        let b: [u8; 1] = [if v { 1u8 } else { 0u8 }];
        self.feed(&b);
        self
    }

    /// Feed a signed integer, as eight little-endian two's complement bytes.
    pub fn i64(&mut self, v: i64) -> (r: &mut Self)
        ensures
            r.input() == old(self).input() + le_bytes(twos(v as int, 64), 8),
            *final(self) == *final(r),
    {
        let u: u64 = if v >= 0 { v as u64 } else { (v as i128 + 0x1_0000_0000_0000_0000i128) as u64 };
        proof {
            vstd::arithmetic::power2::lemma2_to64();
            vstd::arithmetic::power2::lemma2_to64_rest();
        }
        let b = le_u64(u, 8);
        self.feed(b.as_slice());
        self
    }

    /// Feed an unsigned integer, as eight little-endian bytes.
    pub fn u64(&mut self, v: u64) -> (r: &mut Self)
        ensures
            r.input() == old(self).input() + le_bytes(v as nat, 8),
            *final(self) == *final(r),
    {
        let b = le_u64(v, 8);
        self.feed(b.as_slice());
        self
    }

    /// Feed a 32-bit signed integer, as four little-endian two's complement
    /// bytes.
    pub fn i32(&mut self, v: i32) -> (r: &mut Self)
        ensures
            r.input() == old(self).input() + le_bytes(twos(v as int, 32), 4),
            *final(self) == *final(r),
    {
        let u: u64 = if v >= 0 { v as u64 } else { (v as i64 + 0x1_0000_0000i64) as u64 };
        proof {
            vstd::arithmetic::power2::lemma2_to64();
        }
        let b = le_u64(u, 4);
        self.feed(b.as_slice());
        self
    }

    /// Feed a scalar, by its exact bits.
    pub fn fx(&mut self, v: Fx) -> (r: &mut Self)
        ensures
            r.input() == old(self).input() + le_bytes(twos(v@, 32), 4),
            *final(self) == *final(r),
    {
        self.i32(v.to_raw())
    }

    /// Feed a wide scalar, by its exact bits.
    pub fn fx_wide(&mut self, v: FxWide) -> (r: &mut Self)
        ensures
            r.input() == old(self).input() + le_bytes(twos(v@, 64), 8),
            *final(self) == *final(r),
    {
        self.i64(v.to_raw())
    }

    /// Feed a vector: `x` then `y`.
    pub fn vec2(&mut self, v: Vec2Fx) -> (r: &mut Self)
        ensures
            r.input() == old(self).input() + le_bytes(twos(v.x@, 32), 4) + le_bytes(twos(v.y@, 32), 4),
            *final(self) == *final(r),
    {
        self.i32(v.x.to_raw());
        self.i32(v.y.to_raw())
    }

    /// Feed an angle, as two little-endian bytes.
    pub fn angle(&mut self, v: Angle) -> (r: &mut Self)
        ensures
            r.input() == old(self).input() + le_bytes(v@ as nat, 2),
            *final(self) == *final(r),
    {
        let b = le_u64(v.to_bam() as u64, 2);
        self.feed(b.as_slice());
        self
    }

    /// Feed a node uid, as its body string.
    pub fn node_uid(&mut self, v: NodeUid) -> (r: &mut Self)
        ensures
            r.input() == old(self).input() + le_bytes(vstd::utf8::encode_utf8(v.body_chars()).len(), 8) + vstd::utf8::encode_utf8(v.body_chars()),
            *final(self) == *final(r),
    {
        self.str(v.body())
    }

    /// Feed an asset id, as its body string.
    pub fn asset_id(&mut self, v: AssetId) -> (r: &mut Self)
        ensures
            r.input() == old(self).input() + le_bytes(vstd::utf8::encode_utf8(v.body_chars()).len(), 8) + vstd::utf8::encode_utf8(v.body_chars()),
            *final(self) == *final(r),
    {
        self.str(v.body())
    }

    /// Feed a generator's state: `state` then `inc`.
    pub fn rng(&mut self, v: RngState) -> (r: &mut Self)
        ensures
            r.input() == old(self).input() + le_bytes(v.state as nat, 8) + le_bytes(v.inc as nat, 8),
            *final(self) == *final(r),
    {
        self.u64(v.state);
        self.u64(v.inc)
    }

    /// Feed another hash, for composing sub-hashes: its 32 bytes.
    pub fn hash(&mut self, v: StateHash) -> (r: &mut Self)
        ensures
            r.input() == old(self).input() + v.0@,
            *final(self) == *final(r),
    {
        self.feed(&v.0);
        self
    }
}

/// Hex text has two characters per byte.
pub proof fn lemma_hex_text_len(bytes: Seq<u8>)
    ensures
        hex_text(bytes).len() == 2 * bytes.len(),
    decreases bytes.len(),
{
    if bytes.len() > 0 {
        lemma_hex_text_len(bytes.drop_last());
    }
}

/// Each byte's two hex digits sit at twice its position.
proof fn lemma_hex_text_at(bytes: Seq<u8>, i: int)
    requires
        0 <= i < bytes.len(),
    ensures
        hex_text(bytes).len() == 2 * bytes.len(),
        hex_text(bytes)[2 * i] == hex_digit((bytes[i] / 16) as nat),
        hex_text(bytes)[2 * i + 1] == hex_digit((bytes[i] % 16) as nat),
    decreases bytes.len(),
{
    lemma_hex_text_len(bytes);
    lemma_hex_text_len(bytes.drop_last());
    if i < bytes.len() - 1 {
        lemma_hex_text_at(bytes.drop_last(), i);
    }
}

/// A hex digit reads back as its value.
proof fn lemma_hex_digit_value(d: nat)
    requires
        d < 16,
    ensures
        (hex_digit(d) as u32) < 128,
        hex_value(hex_digit(d) as u8) == Some(d),
{
}

/// A state hash survives a round trip through its hex text: what
/// [`StateHash::to_hex`] writes, [`StateHash::from_hex`] reads back as the
/// same 32 bytes.
pub proof fn lemma_hex_round_trip(bytes: Seq<u8>)
    requires
        bytes.len() == 32,
    ensures
        hex_bytes(encode_utf8(hex_text(bytes))) == Some(bytes),
{
    let t = hex_text(bytes);
    lemma_hex_text_len(bytes);
    assert(vstd::utf8::is_ascii_chars(t)) by {
        assert forall|k: int| 0 <= k < t.len() implies '\0' <= #[trigger] t[k] <= '\u{7f}' by {
            let i = k / 2;
            lemma_hex_text_at(bytes, i);
            lemma_hex_digit_value((bytes[i] / 16) as nat);
            lemma_hex_digit_value((bytes[i] % 16) as nat);
            assert(k == 2 * i || k == 2 * i + 1);
        }
    }
    vstd::utf8::is_ascii_chars_encode_utf8(t);
    let e = encode_utf8(t);
    assert forall|i: int| 0 <= i < 32 implies #[trigger] hex_pair(e[2 * i], e[2 * i + 1]) == Some(bytes[i]) by {
        lemma_hex_text_at(bytes, i);
        let hi = (bytes[i] / 16) as nat;
        let lo = (bytes[i] % 16) as nat;
        lemma_hex_digit_value(hi);
        lemma_hex_digit_value(lo);
        assert(e[2 * i] == t[2 * i] as u8);
        assert(e[2 * i + 1] == t[2 * i + 1] as u8);
        assert(hi * 16 + lo == bytes[i]);
    }
    assert(hex_bytes(e) == Some(bytes)) by {
        assert(Seq::new(32, |i: int| hex_pair(e[2 * i], e[2 * i + 1])->0) =~= bytes);
    }
}

} // verus!
