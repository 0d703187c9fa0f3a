//! Seeded randomness.
//!
//! Every random value in a simulation comes from one of these, seeded from the
//! run seed. There is no ambient randomness anywhere in the engine.
//!
//! Streams are named. Splitting randomness by purpose — spawn tables, damage
//! rolls, upgrade offers — means adding a new random call in one system does
//! not shift the numbers every other system sees, which is what makes a saved
//! replay survive a gameplay patch.
use vstd::prelude::*;

use crate::angle::Angle;
use crate::fx::{clamp_i32, fixed_product, Fx};
use vstd::string::StringSliceAdditionalSpecFns;
use crate::decimal::{lemma_pow_monotone, pow_nat};
use crate::hash::{blake3_digest, blake3_hash};

verus! {

/// The PCG multiplier.
pub const MULTIPLIER: u64 = 6_364_136_223_846_793_005;

/// One LCG step of the generator's state.
#[verifier::opaque]
pub open spec fn pcg_step(state: u64, inc: u64) -> u64 {
    state.wrapping_mul(MULTIPLIER).wrapping_add(inc)
}

/// `x` rotated right by `r` bits, `r < 32`.
pub open spec fn rotr32(x: u32, r: u32) -> u32 {
    if r == 0 {
        x
    } else {
        (x >> r) | (x << (32 - r) as u32)
    }
}

/// The 32 output bits PCG-XSH-RR derives from a state.
#[verifier::opaque]
pub open spec fn pcg_output(old: u64) -> u32 {
    rotr32((((old >> 18u64) ^ old) >> 27u64) as u32, (old >> 59u64) as u32)
}

/// The state after `k` steps.
pub open spec fn advance(state: u64, inc: u64, k: nat) -> u64
    decreases k,
{
    if k == 0 {
        state
    } else {
        pcg_step(advance(state, inc, (k - 1) as nat), inc)
    }
}

/// The `k`th draw from a generator in `state` (counting from zero).
pub open spec fn draw(state: u64, inc: u64, k: nat) -> u32 {
    pcg_output(advance(state, inc, k))
}

/// Two draws as one 64-bit value, the first in the high half.
pub open spec fn wide_draw(state: u64, inc: u64) -> u64 {
    ((draw(state, inc, 0) as u64) * 0x1_0000_0000 + draw(state, inc, 1) as u64) as u64
}

/// How many draws a full period of the state takes.
pub open spec fn period() -> nat {
    0x1_0000_0000_0000_0000
}

/// The values `below_u32` rejects so that every remainder is equally likely.
pub open spec fn rejection_threshold(bound: u32) -> u32 {
    ((0x1_0000_0000 - bound) % (bound as int)) as u32
}

/// Draw `k` is the first one at or above `threshold`.
pub open spec fn first_accepted(state: u64, inc: u64, threshold: u32, k: nat) -> bool {
    &&& k < period()
    &&& draw(state, inc, k) >= threshold
    &&& forall|j: nat| j < k ==> #[trigger] draw(state, inc, j) < threshold
}

/// Which draw rejection sampling stops at: the first accepted one, or the
/// last of a full period if none is (which a full-period generator rules
/// out in practice).
pub open spec fn stopping_draw(state: u64, inc: u64, threshold: u32) -> nat {
    if exists|k: nat| first_accepted(state, inc, threshold, k) {
        choose|k: nat| first_accepted(state, inc, threshold, k)
    } else {
        (period() - 1) as nat
    }
}

/// What `below_u32(bound)` returns from `state`, and the state it leaves.
#[verifier::opaque]
pub open spec fn below_spec(state: u64, inc: u64, bound: u32) -> (u32, u64) {
    let k = stopping_draw(state, inc, rejection_threshold(bound));
    ((draw(state, inc, k) % bound) as u32, advance(state, inc, k + 1))
}

/// The stream increment for a stream selector.
pub open spec fn stream_inc(stream: u64) -> u64 {
    ((stream << 1u64) | 1u64) as u64
}

/// The state a generator starts in.
pub open spec fn seeded_state(seed: u64, stream: u64) -> u64 {
    let inc = stream_inc(stream);
    pcg_step(pcg_step(0, inc).wrapping_add(seed), inc)
}

/// A generator's complete state. Part of every sim snapshot.
#[derive(Clone, Copy, PartialEq, Eq, Debug, Structural)]
pub struct RngState {
    /// The LCG state.
    pub state: u64,
    /// The stream increment, always odd.
    pub inc: u64,
}

/// A PCG32 generator.
///
/// PCG because it is small, has a well-understood period, and is defined
/// entirely in terms of wrapping integer arithmetic, so it produces identical
/// output on every platform without any floating point anywhere.
#[derive(Clone, Copy, PartialEq, Eq, Debug, Structural)]
pub struct Rng {
    state: u64,
    inc: u64,
}

impl View for Rng {
    type V = RngState;

    closed spec fn view(&self) -> RngState {
        RngState { state: self.state, inc: self.inc }
    }
}

/// Only one first acceptance exists.
proof fn lemma_first_accepted_unique(state: u64, inc: u64, threshold: u32, k: nat, m: nat)
    requires
        first_accepted(state, inc, threshold, k),
        first_accepted(state, inc, threshold, m),
    ensures
        k == m,
{
    if k < m {
        assert(draw(state, inc, k) < threshold);
    } else if m < k {
        assert(draw(state, inc, m) < threshold);
    }
}

/// The stream selector for a stream name: the first eight bytes of the
/// name's BLAKE3 digest, little-endian.
pub open spec fn selector_of(name: Seq<u8>) -> u64 {
    le_value(blake3_digest(name).take(8)) as u64
}

/// The little-endian value of `bytes`.
pub open spec fn le_value(bytes: Seq<u8>) -> nat
    decreases bytes.len(),
{
    if bytes.len() == 0 {
        0
    } else {
        (bytes[0] + 256 * le_value(bytes.drop_first())) as nat
    }
}

/// Map a stream name to a stream selector.
///
/// Hashed rather than assigned by registration order, so a stream keeps its
/// sequence no matter when in the program it is first asked for.
pub fn stream_selector(name: &str) -> (r: u64)
    ensures
        r == selector_of(name.spec_bytes()),
{
    let digest = blake3_hash(name.as_bytes());
    let mut v: u64 = 0;
    let mut i: usize = 8;
    proof {
        reveal_with_fuel(pow_nat, 9);
        assert(pow_nat(256, 7) == 0x100_0000_0000_0000nat);
    }
    while i > 0
        invariant
            i <= 8,
            digest@ == blake3_digest(name.spec_bytes()),
            v == le_value(digest@.subrange(i as int, 8)),
            v < pow_nat(256, (8 - i) as nat),
            pow_nat(256, 7) == 0x100_0000_0000_0000nat,
        decreases i,
    {
        i = i - 1;
        proof {
            let s = digest@.subrange(i as int, 8);
            assert(s.drop_first() =~= digest@.subrange(i + 1, 8));
            lemma_pow_monotone(256, (7 - i) as nat, 7);
            let p = pow_nat(256, (7 - i) as nat);
            assert(pow_nat(256, (8 - i) as nat) == 256 * p);
            assert(v * 256 + digest@[i as int] < 256 * p) by (nonlinear_arith)
                requires
                    v < p,
                    digest@[i as int] < 256,
            ;
        }
        v = (digest[i] as u64) + 256 * v;
    }
    proof {
        assert(digest@.subrange(0, 8) =~= digest@.take(8));
    }
    v
}

impl Rng {
    /// One LCG step.
    fn step(&mut self)
        ensures
            final(self)@ == (RngState { state: pcg_step(old(self)@.state, old(self)@.inc), inc: old(self)@.inc }),
    {
        proof {
            reveal(pcg_step);
        }
        self.state = self.state.wrapping_mul(MULTIPLIER).wrapping_add(self.inc);
    }

    /// Create a generator from a seed and a stream selector.
    ///
    /// Two generators with the same seed and different streams produce
    /// unrelated sequences.
    pub fn new(seed: u64, stream: u64) -> (r: Rng)
        ensures
            r@ == (RngState { state: seeded_state(seed, stream), inc: stream_inc(stream) }),
    {
        let mut rng = Rng { state: 0, inc: (stream << 1u64) | 1u64 };
        rng.step();
        rng.state = rng.state.wrapping_add(seed);
        rng.step();
        rng
    }

    /// Create a generator for a named stream of a run seed.
    pub fn named(seed: u64, stream_name: &str) -> (r: Rng)
        ensures
            r@ == (RngState {
                state: seeded_state(seed, selector_of(stream_name.spec_bytes())),
                inc: stream_inc(selector_of(stream_name.spec_bytes())),
            }),
    {
        Rng::new(seed, stream_selector(stream_name))
    }

    /// The next 32 bits.
    pub fn next_u32(&mut self) -> (r: u32)
        ensures
            r == pcg_output(old(self)@.state),
            final(self)@ == (RngState { state: pcg_step(old(self)@.state, old(self)@.inc), inc: old(self)@.inc }),
    {
        let old = self.state;
        self.step();
        proof {
            reveal(pcg_output);
        }
        let xorshifted = #[verifier::truncate] ((((old >> 18u64) ^ old) >> 27u64) as u32);
        assert((old >> 59u64) < 32) by (bit_vector);
        let rot = (old >> 59u64) as u32;
        if rot == 0 {
            xorshifted
        } else {
            (xorshifted >> rot) | (xorshifted << (32 - rot))
        }
    }

    /// The next 64 bits, as two draws: the first in the high half.
    pub fn next_u64(&mut self) -> (r: u64)
        ensures
            r == wide_draw(old(self)@.state, old(self)@.inc),
            final(self)@ == (RngState { state: advance(old(self)@.state, old(self)@.inc, 2), inc: old(self)@.inc }),
    {
        let hi = self.next_u32() as u64;
        let lo = self.next_u32() as u64;
        proof {
            reveal_with_fuel(advance, 3);
        }
        hi * 0x1_0000_0000 + lo
    }

    /// A uniform value in `0 .. bound`.
    ///
    /// Rejection-sampled rather than a plain modulo, because modulo bias would
    /// make a 1-in-3 drop chance measurably not 1-in-3. The rejection loop is
    /// deterministic: the same state always rejects the same draws.
    pub fn below_u32(&mut self, bound: u32) -> (r: u32)
        requires
            bound > 0,
        ensures
            r < bound,
            (r, final(self)@.state) == below_spec(old(self)@.state, old(self)@.inc, bound),
            final(self)@.inc == old(self)@.inc,
    {
        proof {
            reveal(below_spec);
        }
        let threshold = ((0x1_0000_0000u64 - bound as u64) % (bound as u64)) as u32;
        let ghost s0 = self.state;
        let ghost inc = self.inc;
        let mut n: u64 = 0;
        loop
            invariant
                bound > 0,
                threshold == rejection_threshold(bound),
                s0 == old(self)@.state,
                inc == old(self)@.inc,
                self.inc == inc,
                self.state == advance(s0, inc, n as nat),
                forall|j: nat| j < n ==> #[trigger] draw(s0, inc, j) < threshold,
            decreases u64::MAX - n,
        {
            let ghost before = self.state;
            let r = self.next_u32();
            proof {
                assert(advance(s0, inc, (n + 1) as nat) == pcg_step(advance(s0, inc, n as nat), inc));
                assert(r == draw(s0, inc, n as nat));
            }
            if r >= threshold {
                proof {
                    assert(first_accepted(s0, inc, threshold, n as nat));
                    let k = choose|k: nat| first_accepted(s0, inc, threshold, k);
                    lemma_first_accepted_unique(s0, inc, threshold, k, n as nat);
                    assert(stopping_draw(s0, inc, threshold) == n as nat);
                    reveal(below_spec);
                }
                return r % bound;
            }
            if n == u64::MAX {
                proof {
                    assert forall|k: nat| !first_accepted(s0, inc, threshold, k) by {
                        if first_accepted(s0, inc, threshold, k) {
                            if k < n {
                                assert(draw(s0, inc, k) < threshold);
                            } else {
                                assert(k == n);
                            }
                        }
                    }
                    assert(stopping_draw(s0, inc, threshold) == n as nat);
                    reveal(below_spec);
                }
                return r % bound;
            }
            n = n + 1;
        }
    }

    /// A uniform value in `lo .. hi`, excluding `hi`.
    pub fn range_i32(&mut self, lo: i32, hi: i32) -> (r: i32)
        requires
            lo < hi,
        ensures
            lo <= r < hi,
            r == lo + below_spec(old(self)@.state, old(self)@.inc, (hi - lo) as u32).0,
            final(self)@.state == below_spec(old(self)@.state, old(self)@.inc, (hi - lo) as u32).1,
            final(self)@.inc == old(self)@.inc,
    {
        let span = (hi as i64 - lo as i64) as u32;
        let v = self.below_u32(span);
        (lo as i64 + v as i64) as i32
    }

    /// True with probability `numerator / denominator`.
    pub fn chance(&mut self, numerator: u32, denominator: u32) -> (r: bool)
        requires
            denominator > 0,
        ensures
            r == (below_spec(old(self)@.state, old(self)@.inc, denominator).0 < numerator),
            final(self)@.state == below_spec(old(self)@.state, old(self)@.inc, denominator).1,
            final(self)@.inc == old(self)@.inc,
    {
        self.below_u32(denominator) < numerator
    }

    /// A uniform direction: the low 16 bits of one draw.
    pub fn angle(&mut self) -> (a: Angle)
        ensures
            a@ == pcg_output(old(self)@.state) % 65536,
            final(self)@ == (RngState { state: pcg_step(old(self)@.state, old(self)@.inc), inc: old(self)@.inc }),
    {
        let v = self.next_u32();
        Angle::from_bam((v % 65536) as u16)
    }

    /// Pick an index into a collection of `len` items: a draw below `len`
    /// cut to 32 bits, which must not come to zero.
    pub fn index(&mut self, len: usize) -> (r: usize)
        requires
            (len as int) % 0x1_0000_0000 != 0,
        ensures
            r < len,
            r == below_spec(old(self)@.state, old(self)@.inc, ((len as int) % 0x1_0000_0000) as u32).0,
            final(self)@.state == below_spec(old(self)@.state, old(self)@.inc, ((len as int) % 0x1_0000_0000) as u32).1,
            final(self)@.inc == old(self)@.inc,
    {
        let bound = (len as u64 % 0x1_0000_0000) as u32;
        self.below_u32(bound) as usize
    }

    /// A uniform fixed-point value in `0.0 ..< 1.0`: the high 16 bits of one
    /// draw as the fraction.
    pub fn unit_fx(&mut self) -> (r: Fx)
        ensures
            r@ == pcg_output(old(self)@.state) / 65536,
            final(self)@ == (RngState { state: pcg_step(old(self)@.state, old(self)@.inc), inc: old(self)@.inc }),
    {
        let v = self.next_u32();
        Fx::from_raw((v / 65536) as i32)
    }

    /// A uniform fixed-point value in `lo ..< hi`: the span, narrowed with
    /// saturation, scaled by [`Rng::unit_fx`] and added to `lo`.
    pub fn range_fx(&mut self, lo: Fx, hi: Fx) -> (r: Fx)
        ensures
            r@ == clamp_i32(
                lo@ + clamp_i32(
                    fixed_product(clamp_i32(hi@ - lo@), (pcg_output(old(self)@.state) / 65536) as int),
                ),
            ),
            final(self)@ == (RngState { state: pcg_step(old(self)@.state, old(self)@.inc), inc: old(self)@.inc }),
    {
        let span = hi.wide().sub(lo.wide()).narrow_saturating();
        let u = self.unit_fx();
        lo.add(span.mul(u))
    }

    /// Capture the generator's full state for a snapshot.
    pub fn snapshot(self) -> (s: RngState)
        ensures
            s == self@,
    {
        RngState { state: self.state, inc: self.inc }
    }

    /// Restore a generator from a snapshot.
    pub fn restore(state: RngState) -> (r: Rng)
        ensures
            r@ == state,
    {
        Rng { state: state.state, inc: state.inc }
    }
}

/// `items` with the entries at `i` and `j` exchanged.
pub open spec fn swapped<T>(items: Seq<T>, i: int, j: int) -> Seq<T> {
    items.update(i, items[j]).update(j, items[i])
}

/// Fisher-Yates from index `i` down to 1: the items and the generator state
/// that `shuffle` leaves.
pub open spec fn shuffle_spec<T>(items: Seq<T>, state: u64, inc: u64, i: nat) -> (Seq<T>, u64)
    decreases i,
{
    if i == 0 {
        (items, state)
    } else {
        let (j, next) = below_spec(state, inc, (i + 1) as u32);
        shuffle_spec(swapped(items, i as int, j as int), next, inc, (i - 1) as nat)
    }
}

/// What a shuffle of `items` by the generator `g` gives: the items in their
/// new order, and the generator after its draws.
pub open spec fn shuffle_result<T>(items: Seq<T>, g: RngState) -> (Seq<T>, RngState) {
    if items.len() == 0 {
        (items, g)
    } else {
        let (out, state) = shuffle_spec(items, g.state, g.inc, (items.len() - 1) as nat);
        (out, RngState { state, inc: g.inc })
    }
}

/// A shuffle depends only on the generator and the items: equal generators
/// shuffle equal items alike and end equal; the result is a permutation;
/// and at most one item leaves both the items and the generator unchanged.
pub proof fn lemma_shuffle_depends_only_on_its_inputs<T>(a1: Seq<T>, g1: RngState, a2: Seq<T>, g2: RngState)
    requires
        a1 == a2,
        g1 == g2,
        a1.len() <= u32::MAX,
    ensures
        shuffle_result(a1, g1) == shuffle_result(a2, g2),
        shuffle_result(a1, g1).0.to_multiset() =~= a1.to_multiset(),
        a1.len() <= 1 ==> shuffle_result(a1, g1) == (a1, g1),
{
    if a1.len() > 0 {
        lemma_shuffle_is_permutation(a1, g1.state, g1.inc, (a1.len() - 1) as nat);
    }
}

/// `<[T]>::swap`: exchanges two entries.
#[verifier::external_body]
fn swap_items<T>(items: &mut [T], i: usize, j: usize)
    requires
        i < old(items)@.len(),
        j < old(items)@.len(),
    ensures
        final(items)@ == swapped(old(items)@, i as int, j as int),
{
    items.swap(i, j);
}

/// Exchanging two entries keeps the same items.
pub proof fn lemma_swap_is_permutation<T>(items: Seq<T>, i: int, j: int)
    requires
        0 <= i < items.len(),
        0 <= j < items.len(),
    ensures
        swapped(items, i, j).to_multiset() =~= items.to_multiset(),
        swapped(items, i, j).len() == items.len(),
{
    broadcast use vstd::seq_lib::group_to_multiset_ensures;

    let u = items.update(i, items[j]);
    assert(u.to_multiset() == items.to_multiset().insert(items[j]).remove(items[i]));
    let v = u.update(j, items[i]);
    assert(v.to_multiset() == u.to_multiset().insert(items[i]).remove(u[j]));
    if i == j {
        assert(u =~= items);
        assert(v =~= items);
    } else {
        assert(u[j] == items[j]);
        assert(items.to_multiset().count(items[i]) > 0) by {
            assert(items.contains(items[i]));
        }
        assert(v.to_multiset() =~= items.to_multiset());
    }
}

/// A shuffle only reorders: the same items, each as often as before.
pub proof fn lemma_shuffle_is_permutation<T>(items: Seq<T>, state: u64, inc: u64, i: nat)
    requires
        i < items.len(),
        items.len() <= u32::MAX,
    ensures
        shuffle_spec(items, state, inc, i).0.to_multiset() =~= items.to_multiset(),
        shuffle_spec(items, state, inc, i).0.len() == items.len(),
    decreases i,
{
    if i > 0 {
        let (j, next) = below_spec(state, inc, (i + 1) as u32);
        lemma_below_spec_in_range(state, inc, (i + 1) as u32);
        lemma_swap_is_permutation(items, i as int, j as int);
        lemma_shuffle_is_permutation(swapped(items, i as int, j as int), next, inc, (i - 1) as nat);
    }
}

/// Fisher-Yates from index `i` down never moves an item above `i`.
proof fn lemma_shuffle_keeps_above<T>(items: Seq<T>, state: u64, inc: u64, i: nat, k: int)
    requires
        i < items.len(),
        items.len() <= u32::MAX,
        i < k < items.len(),
    ensures
        shuffle_spec(items, state, inc, i).0[k] == items[k],
    decreases i,
{
    if i > 0 {
        let (j, next) = below_spec(state, inc, (i + 1) as u32);
        lemma_below_spec_in_range(state, inc, (i + 1) as u32);
        let sw = swapped(items, i as int, j as int);
        assert(sw[k] == items[k]);
        lemma_shuffle_keeps_above(sw, next, inc, (i - 1) as nat, k);
    }
}

/// The first step of a shuffle draws, exactly as `below_u32(n)` would, an
/// index anywhere in `0 .. n` — the last position included — and the item
/// there is the one that ends last. So with two items, they stay in order
/// exactly when that draw is 1.
pub proof fn lemma_shuffle_last_is_a_draw_below_the_length<T>(items: Seq<T>, g: RngState)
    requires
        2 <= items.len() <= u32::MAX,
    ensures
        ({
            let n = items.len() as int;
            let j = below_spec(g.state, g.inc, n as u32).0 as int;
            &&& 0 <= j < n
            &&& shuffle_result(items, g).0[n - 1] == items[j]
            &&& n == 2 ==> (shuffle_result(items, g).0 == (if j == 1 { items } else { seq![items[1], items[0]] }))
        }),
{
    let n = items.len() as int;
    let i = (n - 1) as nat;
    let (j, next) = below_spec(g.state, g.inc, (i + 1) as u32);
    lemma_below_spec_in_range(g.state, g.inc, (i + 1) as u32);
    let sw = swapped(items, i as int, j as int);
    assert(shuffle_spec(items, g.state, g.inc, i) == shuffle_spec(sw, next, g.inc, (i - 1) as nat));
    if i >= 1 {
        lemma_shuffle_keeps_above(sw, next, g.inc, (i - 1) as nat, n - 1);
    }
    if n == 2 {
        let out = shuffle_result(items, g).0;
        assert(shuffle_spec(sw, next, g.inc, 0).0 == sw);
        if j == 1 {
            assert(sw =~= items);
        } else {
            assert(sw =~= seq![items[1], items[0]]);
        }
    }
}

/// What rejection sampling returns is below its bound.
pub proof fn lemma_below_spec_in_range(state: u64, inc: u64, bound: u32)
    requires
        bound > 0,
    ensures
        below_spec(state, inc, bound).0 < bound,
{
    reveal(below_spec);
}

impl Rng {
    /// Shuffle in place, using the same Fisher-Yates order everywhere: for
    /// each index from the last down to 1, swap it with a draw below it.
    pub fn shuffle<T>(&mut self, items: &mut [T])
        requires
            old(items)@.len() <= u32::MAX,
        ensures
            (final(items)@, final(self)@) == shuffle_result(old(items)@, old(self)@),
            final(items)@.to_multiset() =~= old(items)@.to_multiset(),
    {
        let len = items.len();
        if len == 0 {
            return;
        }
        let ghost start = items@;
        let ghost s0 = self@.state;
        let ghost inc = self@.inc;
        let mut i = len - 1;
        while i > 0
            invariant
                i < len,
                len == items@.len(),
                len <= u32::MAX,
                start.len() == len,
                self@.inc == inc,
                shuffle_spec(start, s0, inc, (len - 1) as nat) == shuffle_spec(
                    items@,
                    self@.state,
                    inc,
                    i as nat,
                ),
                items@.to_multiset() =~= start.to_multiset(),
            decreases i,
        {
            let ghost before = items@;
            let ghost st = self@.state;
            let j = self.below_u32(i as u32 + 1) as usize;
            proof {
                lemma_swap_is_permutation(before, i as int, j as int);
            }
            swap_items(items, i, j);
            i = i - 1;
        }
        proof {
            lemma_shuffle_is_permutation(start, s0, inc, (len - 1) as nat);
        }
    }
}

/// The named generators belonging to one run, kept in name order so that
/// walking them never depends on a hash seed.
#[derive(Debug)]
pub struct RngStreams {
    seed: u64,
    streams: Vec<(String, Rng)>,
}

/// Named generators as plain values.
pub open spec fn entries_of(v: Seq<(String, Rng)>) -> Seq<(Seq<char>, RngState)> {
    Seq::new(v.len(), |k: int| (v[k].0@, v[k].1@))
}

/// The entries' names are strictly increasing.
pub open spec fn in_name_order(e: Seq<(Seq<char>, RngState)>) -> bool {
    forall|a: int, b: int| 0 <= a < b < e.len() ==> name_less(#[trigger] e[a].0, #[trigger] e[b].0)
}

/// Strict lexicographic order on names, by character.
pub open spec fn name_less(a: Seq<char>, b: Seq<char>) -> bool
    decreases a.len(),
{
    if b.len() == 0 {
        false
    } else if a.len() == 0 {
        true
    } else if a[0] != b[0] {
        (a[0] as u32) < (b[0] as u32)
    } else {
        name_less(a.drop_first(), b.drop_first())
    }
}

pub fn name_less_exec(a: &[char], b: &[char]) -> (r: bool)
    ensures
        r == name_less(a@, b@),
{
    let mut i: usize = 0;
    proof {
        assert(a@.skip(0) =~= a@);
        assert(b@.skip(0) =~= b@);
    }
    while i < a.len() && i < b.len()
        invariant
            i <= a.len(),
            i <= b.len(),
            a@.take(i as int) == b@.take(i as int),
            name_less(a@, b@) == name_less(a@.skip(i as int), b@.skip(i as int)),
        decreases a.len() - i,
    {
        if a[i] != b[i] {
            return (a[i] as u32) < (b[i] as u32);
        }
        proof {
            assert(a@.skip(i as int).drop_first() =~= a@.skip(i + 1));
            assert(b@.skip(i as int).drop_first() =~= b@.skip(i + 1));
            assert(a@.take(i + 1) =~= a@.take(i as int).push(a@[i as int]));
            assert(b@.take(i + 1) =~= b@.take(i as int).push(b@[i as int]));
        }
        i = i + 1;
    }
    i < b.len()
}

impl RngStreams {
    /// The names in order, with each generator's state.
    pub closed spec fn entries(&self) -> Seq<(Seq<char>, RngState)> {
        entries_of(self.streams@)
    }

    /// The run seed.
    pub closed spec fn run_seed(&self) -> u64 {
        self.seed
    }

    /// Names are strictly increasing.
    #[verifier::type_invariant]
    spec fn well_formed(&self) -> bool {
        in_name_order(self.entries())
    }

    /// Create an empty set of streams for a run seed.
    pub fn new(seed: u64) -> (r: RngStreams)
        ensures
            r.run_seed() == seed,
            r.entries() == Seq::<(Seq<char>, RngState)>::empty(),
    {
        let r = RngStreams { seed, streams: Vec::new() };
        assert(r.entries() =~= Seq::<(Seq<char>, RngState)>::empty());
        r
    }

    /// The run seed these streams derive from.
    pub fn seed(&self) -> (r: u64)
        ensures
            r == self.run_seed(),
    {
        self.seed
    }

    /// Every live stream, in name order: each name once.
    pub fn iter(&self) -> (r: Vec<(String, Rng)>)
        ensures
            in_name_order(self.entries()),
            r@.len() == self.entries().len(),
            forall|k: int|
                0 <= k < r@.len() ==> (#[trigger] r@[k]).0@ == self.entries()[k].0 && r@[k].1@
                    == self.entries()[k].1,
    {
        proof {
            use_type_invariant(self);
        }
        let mut out: Vec<(String, Rng)> = Vec::new();
        let mut i: usize = 0;
        while i < self.streams.len()
            invariant
                i <= self.streams@.len(),
                out@.len() == i,
                forall|k: int|
                    0 <= k < i ==> (#[trigger] out@[k]).0@ == self.entries()[k].0 && out@[k].1@
                        == self.entries()[k].1,
            decreases self.streams@.len() - i,
        {
            let name = self.streams[i].0.clone();
            out.push((name, self.streams[i].1));
            i = i + 1;
        }
        out
    }
}

impl Clone for RngStreams {
    /// The same seed and the same streams, each in the state it is in.
    fn clone(&self) -> (r: Self)
        ensures
            r.entries() == self.entries(),
            r.run_seed() == self.run_seed(),
    {
        proof {
            use_type_invariant(self);
        }
        let mut streams: Vec<(String, Rng)> = Vec::new();
        let mut i: usize = 0;
        while i < self.streams.len()
            invariant
                i <= self.streams@.len(),
                streams@.len() == i,
                forall|k: int|
                    0 <= k < i ==> (#[trigger] streams@[k]).0@ == self.streams@[k].0@ && streams@[k].1 == self.streams@[k].1,
            decreases self.streams@.len() - i,
        {
            let name = self.streams[i].0.clone();
            streams.push((name, self.streams[i].1));
            i = i + 1;
        }
        proof {
            assert(entries_of(streams@) =~= entries_of(self.streams@));
        }
        RngStreams { seed: self.seed, streams }
    }
}

/// Name order is transitive.
pub proof fn lemma_name_less_transitive(a: Seq<char>, b: Seq<char>, c: Seq<char>)
    requires
        name_less(a, b),
        name_less(b, c),
    ensures
        name_less(a, c),
    decreases a.len(),
{
    if a.len() > 0 && b.len() > 0 && c.len() > 0 && a[0] == b[0] && b[0] == c[0] {
        lemma_name_less_transitive(a.drop_first(), b.drop_first(), c.drop_first());
    }
}

/// Any two different names are ordered one way or the other.
pub proof fn lemma_name_less_total(a: Seq<char>, b: Seq<char>)
    requires
        a != b,
        !name_less(a, b),
    ensures
        name_less(b, a),
    decreases a.len(),
{
    if a.len() == 0 {
        assert(b.len() == 0 ==> a =~= b);
    } else if b.len() == 0 {
    } else if a[0] == b[0] {
        if a.drop_first() == b.drop_first() {
            assert(a =~= seq![a[0]] + a.drop_first());
            assert(b =~= seq![b[0]] + b.drop_first());
        }
        lemma_name_less_total(a.drop_first(), b.drop_first());
    } else {
        lemma_char_code(a[0]);
        lemma_char_code(b[0]);
    }
}

/// A character's code, as `u32`, is its value.
pub proof fn lemma_char_code(c: char)
    ensures
        c as u32 == c as int,
{
}

/// Name order is asymmetric.
pub proof fn lemma_name_less_asymmetric(a: Seq<char>, b: Seq<char>)
    requires
        name_less(a, b),
    ensures
        !name_less(b, a),
    decreases a.len(),
{
    if a.len() > 0 && b.len() > 0 && a[0] == b[0] {
        lemma_name_less_asymmetric(a.drop_first(), b.drop_first());
    }
}

/// No name is less than itself.
pub proof fn lemma_name_less_irreflexive(a: Seq<char>)
    ensures
        !name_less(a, a),
    decreases a.len(),
{
    if a.len() > 0 {
        lemma_name_less_irreflexive(a.drop_first());
    }
}

/// Where a name belongs among sorted entries: how many names sort before it.
pub open spec fn insertion_point(entries: Seq<(Seq<char>, RngState)>, name: Seq<char>) -> int {
    entries.filter(|e: (Seq<char>, RngState)| name_less(e.0, name)).len() as int
}

/// What asking for the stream `name` does to the entries: an existing
/// stream is handed out as it stands and written back in place; a new one
/// starts as `Rng::named(seed, name)` and goes where its name sorts.
/// `given` is the generator handed out, `left` what it was left as.
pub open spec fn streamed(
    before: Seq<(Seq<char>, RngState)>,
    after: Seq<(Seq<char>, RngState)>,
    seed: u64,
    name: Seq<char>,
    bytes: Seq<u8>,
    given: RngState,
    left: RngState,
) -> bool {
    ||| exists|k: int|
        0 <= k < before.len() && #[trigger] before[k].0 == name && given == before[k].1 && after == before.update(
            k,
            (name, left),
        )
    ||| (forall|k: int| 0 <= k < before.len() ==> #[trigger] before[k].0 != name) && exists|p: int|
        #![trigger before.insert(p, (name, left))]
        0 <= p <= before.len() && (forall|k: int| 0 <= k < p ==> name_less(#[trigger] before[k].0, name)) && (forall|k: int|
            p <= k < before.len() ==> name_less(name, #[trigger] before[k].0)) && given == (RngState {
            state: seeded_state(seed, selector_of(bytes)),
            inc: stream_inc(selector_of(bytes)),
        }) && after == before.insert(p, (name, left))
}

/// The names the entries hold.
pub open spec fn stream_names(entries: Seq<(Seq<char>, RngState)>) -> Set<Seq<char>> {
    Set::new(|n: Seq<char>| exists|k: int| 0 <= k < entries.len() && #[trigger] entries[k].0 == n)
}

/// Asking for a stream adds its name to the names held and changes no other
/// name or, apart from the one handed out, any generator: so after any
/// sequence of requests, the entries (which stay in strict name order) hold
/// each requested name exactly once.
pub proof fn lemma_stream_adds_its_name(
    before: Seq<(Seq<char>, RngState)>,
    after: Seq<(Seq<char>, RngState)>,
    seed: u64,
    name: Seq<char>,
    bytes: Seq<u8>,
    given: RngState,
    left: RngState,
)
    requires
        streamed(before, after, seed, name, bytes, given, left),
    ensures
        stream_names(after) == stream_names(before).insert(name),
        forall|k: int|
            0 <= k < before.len() && #[trigger] before[k].0 != name ==> exists|j: int|
                0 <= j < after.len() && #[trigger] after[j] == before[k],
{
    if exists|k: int| 0 <= k < before.len() && #[trigger] before[k].0 == name && given == before[k].1 && after == before.update(k, (name, left)) {
        let k = choose|k: int| 0 <= k < before.len() && #[trigger] before[k].0 == name && given == before[k].1 && after == before.update(k, (name, left));
        assert forall|n: Seq<char>| stream_names(after).contains(n) <==> stream_names(before).insert(name).contains(n) by {
            if stream_names(before).contains(n) {
                let j = choose|j: int| 0 <= j < before.len() && #[trigger] before[j].0 == n;
                assert(after[j].0 == n);
            }
            if stream_names(after).contains(n) {
                let j = choose|j: int| 0 <= j < after.len() && #[trigger] after[j].0 == n;
                assert(before[j].0 == n);
            }
            if n == name {
                assert(after[k].0 == n);
            }
        }
        assert(stream_names(after) =~= stream_names(before).insert(name));
        assert forall|i: int|
            0 <= i < before.len() && #[trigger] before[i].0 != name implies exists|j: int|
                0 <= j < after.len() && #[trigger] after[j] == before[i] by {
            assert(i != k);
            assert(after[i] == before[i]);
        }
    } else {
        let p = choose|p: int|
            #![trigger before.insert(p, (name, left))]
            0 <= p <= before.len() && (forall|k: int| 0 <= k < p ==> name_less(#[trigger] before[k].0, name)) && (forall|k: int|
                p <= k < before.len() ==> name_less(name, #[trigger] before[k].0)) && given == (RngState {
                state: seeded_state(seed, selector_of(bytes)),
                inc: stream_inc(selector_of(bytes)),
            }) && after == before.insert(p, (name, left));
        assert forall|n: Seq<char>| stream_names(after).contains(n) <==> stream_names(before).insert(name).contains(n) by {
            if stream_names(before).contains(n) {
                let j = choose|j: int| 0 <= j < before.len() && #[trigger] before[j].0 == n;
                if j < p {
                    assert(after[j].0 == n);
                } else {
                    assert(after[j + 1].0 == n);
                }
            }
            if stream_names(after).contains(n) {
                let j = choose|j: int| 0 <= j < after.len() && #[trigger] after[j].0 == n;
                if j < p {
                    assert(before[j].0 == n);
                } else if j > p {
                    assert(before[j - 1].0 == n);
                }
            }
            if n == name {
                assert(after[p].0 == n);
            }
        }
        assert(stream_names(after) =~= stream_names(before).insert(name));
        assert forall|i: int|
            0 <= i < before.len() && #[trigger] before[i].0 != name implies exists|j: int|
                0 <= j < after.len() && #[trigger] after[j] == before[i] by {
            if i < p {
                assert(after[i] == before[i]);
            } else {
                assert(after[i + 1] == before[i]);
            }
        }
    }
}

/// The generator held under `name`, if any: the entry of that name.
pub open spec fn stream_state(e: Seq<(Seq<char>, RngState)>, name: Seq<char>) -> Option<RngState> {
    if exists|k: int| 0 <= k < e.len() && #[trigger] e[k].0 == name {
        Some(e[choose|k: int| 0 <= k < e.len() && #[trigger] e[k].0 == name].1)
    } else {
        None
    }
}

/// In name order no name is held twice.
proof fn lemma_in_order_names_distinct(e: Seq<(Seq<char>, RngState)>, a: int, b: int)
    requires
        in_name_order(e),
        0 <= a < e.len(),
        0 <= b < e.len(),
        e[a].0 == e[b].0,
    ensures
        a == b,
{
    if a < b {
        assert(name_less(e[a].0, e[b].0));
        lemma_name_less_irreflexive(e[a].0);
    } else if b < a {
        assert(name_less(e[b].0, e[a].0));
        lemma_name_less_irreflexive(e[a].0);
    }
}

/// In name order, the generator under a name is the one in its entry.
proof fn lemma_stream_state_at(e: Seq<(Seq<char>, RngState)>, k: int)
    requires
        in_name_order(e),
        0 <= k < e.len(),
    ensures
        stream_state(e, e[k].0) == Some(e[k].1),
{
    let j = choose|j: int| 0 <= j < e.len() && #[trigger] e[j].0 == e[k].0;
    lemma_in_order_names_distinct(e, j, k);
}

/// Streams are kept apart by name: asking for `name` hands out the
/// generator already held under it, in the state earlier draws left it in,
/// or, the first time, `Rng::named(seed, name)`; afterwards `name` holds
/// what the caller left it as, and every other name holds exactly what it
/// held before.
pub proof fn lemma_streams_kept_apart(
    before: Seq<(Seq<char>, RngState)>,
    after: Seq<(Seq<char>, RngState)>,
    seed: u64,
    name: Seq<char>,
    bytes: Seq<u8>,
    given: RngState,
    left: RngState,
)
    requires
        in_name_order(before),
        in_name_order(after),
        streamed(before, after, seed, name, bytes, given, left),
    ensures
        match stream_state(before, name) {
            Some(held) => given == held,
            None => given == (RngState {
                state: seeded_state(seed, selector_of(bytes)),
                inc: stream_inc(selector_of(bytes)),
            }),
        },
        stream_state(after, name) == Some(left),
        forall|other: Seq<char>| other != name ==> #[trigger] stream_state(after, other) == stream_state(before, other),
{
    if exists|k: int|
        0 <= k < before.len() && #[trigger] before[k].0 == name && given == before[k].1 && after == before.update(k, (name, left)) {
        let k = choose|k: int|
            0 <= k < before.len() && #[trigger] before[k].0 == name && given == before[k].1 && after == before.update(k, (name, left));
        lemma_stream_state_at(before, k);
        assert(after[k] == (name, left));
        lemma_stream_state_at(after, k);
        assert forall|other: Seq<char>| other != name implies #[trigger] stream_state(after, other) == stream_state(before, other) by {
            if exists|j: int| 0 <= j < before.len() && #[trigger] before[j].0 == other {
                let j = choose|j: int| 0 <= j < before.len() && #[trigger] before[j].0 == other;
                lemma_stream_state_at(before, j);
                assert(after[j] == before[j]);
                lemma_stream_state_at(after, j);
            } else {
                assert forall|j: int| 0 <= j < after.len() implies #[trigger] after[j].0 != other by {
                    if j != k {
                        assert(after[j] == before[j]);
                    }
                }
            }
        }
    } else {
        let p = choose|p: int|
            #![trigger before.insert(p, (name, left))]
            0 <= p <= before.len() && (forall|k: int| 0 <= k < p ==> name_less(#[trigger] before[k].0, name)) && (forall|k: int|
                p <= k < before.len() ==> name_less(name, #[trigger] before[k].0)) && given == (RngState {
                state: seeded_state(seed, selector_of(bytes)),
                inc: stream_inc(selector_of(bytes)),
            }) && after == before.insert(p, (name, left));
        assert(after[p] == (name, left));
        lemma_stream_state_at(after, p);
        assert(stream_state(before, name) is None);
        assert forall|other: Seq<char>| other != name implies #[trigger] stream_state(after, other) == stream_state(before, other) by {
            if exists|j: int| 0 <= j < before.len() && #[trigger] before[j].0 == other {
                let j = choose|j: int| 0 <= j < before.len() && #[trigger] before[j].0 == other;
                lemma_stream_state_at(before, j);
                if j < p {
                    assert(after[j] == before[j]);
                    lemma_stream_state_at(after, j);
                } else {
                    assert(after[j + 1] == before[j]);
                    lemma_stream_state_at(after, j + 1);
                }
            } else {
                assert forall|j: int| 0 <= j < after.len() implies #[trigger] after[j].0 != other by {
                    if j < p {
                        assert(after[j] == before[j]);
                    } else if j > p {
                        assert(after[j] == before[j - 1]);
                    }
                }
            }
        }
    }
}

/// After any sequence of requests on fresh streams, the names held are
/// exactly the names requested: with the entries in strict name order,
/// which [`RngStreams::iter`] hands back, each requested name comes once,
/// in order. `states[i]` is what the entries were before request `i`.
pub proof fn lemma_requests_give_their_names(
    states: Seq<Seq<(Seq<char>, RngState)>>,
    seed: u64,
    names: Seq<Seq<char>>,
    bytes: Seq<Seq<u8>>,
    given: Seq<RngState>,
    left: Seq<RngState>,
)
    requires
        states.len() == names.len() + 1,
        bytes.len() == names.len(),
        given.len() == names.len(),
        left.len() == names.len(),
        states[0].len() == 0,
        forall|i: int|
            0 <= i < names.len() ==> streamed(#[trigger] states[i], states[i + 1], seed, names[i], bytes[i], given[i], left[i]),
    ensures
        stream_names(states[names.len() as int]) == names.to_set(),
    decreases names.len(),
{
    let n = names.len() as int;
    if n == 0 {
        assert(stream_names(states[0]) =~= Set::<Seq<char>>::empty());
        assert(names.to_set() =~= Set::<Seq<char>>::empty());
    } else {
        let m = n - 1;
        let ps = states.take(n);
        let pn = names.take(m);
        assert forall|i: int| 0 <= i < pn.len() implies streamed(#[trigger] ps[i], ps[i + 1], seed, pn[i], bytes.take(m)[i], given.take(m)[i], left.take(m)[i]) by {
            assert(streamed(states[i], states[i + 1], seed, names[i], bytes[i], given[i], left[i]));
        }
        lemma_requests_give_their_names(ps, seed, pn, bytes.take(m), given.take(m), left.take(m));
        assert(streamed(states[m], states[n], seed, names[m], bytes[m], given[m], left[m]));
        lemma_stream_adds_its_name(states[m], states[n], seed, names[m], bytes[m], given[m], left[m]);
        assert(names.to_set() =~= pn.to_set().insert(names[m])) by {
            assert(names =~= pn.push(names[m]));
            pn.lemma_push_to_set_commute(names[m]);
        }
    }
}

/// The generator in entry `i`, borrowed mutably.
fn rng_at(v: &mut Vec<(String, Rng)>, i: usize) -> (r: &mut Rng)
    requires
        i < old(v)@.len(),
    ensures
        *r == old(v)@[i as int].1,
        final(v)@ == old(v)@.update(i as int, (old(v)@[i as int].0, *final(r))),
    no_unwind
{
    &mut v[i].1
}

impl RngStreams {
    /// Borrow a named stream, creating it on first use.
    ///
    /// A new stream is `Rng::named(seed, name)` and goes where its name sorts.
    pub fn stream(&mut self, name: &str) -> (r: &mut Rng)
        ensures
            in_name_order(final(self).entries()),
            final(self).run_seed() == old(self).run_seed(),
            streamed(old(self).entries(), final(self).entries(), old(self).run_seed(), name@, name.spec_bytes(), r@, final(r)@),
    {
        proof {
            use_type_invariant(&*self);
        }
        let key = crate::text::chars_of(name);
        let ghost before = self.entries();
        let mut i: usize = 0;
        while i < self.streams.len()
            invariant
                i <= self.streams@.len(),
                self.entries() == before,
                in_name_order(before),
                key@ == name@,
                forall|k: int| 0 <= k < i ==> name_less(#[trigger] before[k].0, name@),
            ensures
                i <= self.streams@.len(),
                self.entries() == before,
                in_name_order(before),
                key@ == name@,
                forall|k: int| 0 <= k < i ==> name_less(#[trigger] before[k].0, name@),
                i < self.streams@.len() ==> !name_less(before[i as int].0, name@),
            decreases self.streams@.len() - i,
        {
            let here = crate::text::chars_of(self.streams[i].0.as_str());
            if !name_less_exec(here.as_slice(), key.as_slice()) {
                break;
            }
            i = i + 1;
        }
        let found = if i < self.streams.len() {
            let here = crate::text::chars_of(self.streams[i].0.as_str());
            crate::text::chars_eq(here.as_slice(), key.as_slice())
        } else {
            false
        };
        if !found {
            let rng = Rng::named(self.seed, name);
            let label = crate::text::string_from(name);
            proof {
                assert forall|k: int| i <= k < before.len() implies name_less(name@, #[trigger] before[k].0) by {
                    assert(!name_less(before[i as int].0, name@));
                    assert(before[i as int].0 != name@);
                    lemma_name_less_total(before[i as int].0, name@);
                    if k > i {
                        lemma_name_less_transitive(name@, before[i as int].0, before[k].0);
                    }
                }
                assert forall|k: int| 0 <= k < before.len() implies #[trigger] before[k].0 != name@ by {
                    if k < i {
                        lemma_name_less_irreflexive(name@);
                    } else {
                        lemma_name_less_irreflexive(name@);
                    }
                }
            }
            let mut v: Vec<(String, Rng)> = Vec::new();
            std::mem::swap(&mut v, &mut self.streams);
            v.insert(i, (label, rng));
            proof {
                let e = entries_of(v@);
                assert(e =~= before.insert(i as int, (name@, rng@)));
                assert forall|a: int, b: int| 0 <= a < b < e.len() implies name_less(#[trigger] e[a].0, #[trigger] e[b].0) by {
                    if b < i {
                    } else if a > i {
                    } else if a == i {
                    } else if b == i {
                    } else {
                        assert(e[a] == before[a] && e[b] == before[b - 1]);
                        if a < i && b > i {
                            lemma_name_less_transitive(before[a].0, name@, before[b - 1].0);
                        }
                    }
                }
            }
            self.streams = v;
            proof {
                assert(self.entries() =~= before.insert(i as int, (name@, rng@)));
            }
        }
        proof {
            if found {
                assert(self.entries()[i as int].0 == name@);
            } else {
                let mid = self.entries();
                assert forall|x: RngState| #[trigger] mid.update(i as int, (name@, x)) == before.insert(
                    i as int,
                    (name@, x),
                ) by {
                    assert(mid.update(i as int, (name@, x)) =~= before.insert(i as int, (name@, x)));
                }
            }
        }
        self.borrow_entry(i)
    }

    /// The generator of entry `i`, borrowed mutably; the names stay as they
    /// are.
    fn borrow_entry(&mut self, i: usize) -> (r: &mut Rng)
        requires
            i < old(self).entries().len(),
        ensures
            r@ == old(self).entries()[i as int].1,
            final(self).entries() == old(self).entries().update(
                i as int,
                (old(self).entries()[i as int].0, final(r)@),
            ),
            final(self).run_seed() == old(self).run_seed(),
    {
        proof {
            use_type_invariant(&*self);
            let old_e = self.entries();
            assert forall|x: Rng| #[trigger] in_name_order(entries_of(self.streams@.update(i as int, (self.streams@[i as int].0, x)))) by {
                let e = entries_of(self.streams@.update(i as int, (self.streams@[i as int].0, x)));
                assert forall|a: int, b: int| 0 <= a < b < e.len() implies name_less(#[trigger] e[a].0, #[trigger] e[b].0) by {
                    assert(e[a].0 == old_e[a].0 && e[b].0 == old_e[b].0);
                }
            }
        }
        let r = rng_at(&mut self.streams, i);
        r
    }
}

/// Restoring a snapshot replays the exact sequence: every future draw of the
/// restored generator is the draw the original would have made.
pub proof fn lemma_snapshot_replays(original: RngState, restored: RngState, k: nat)
    requires
        restored == original,
    ensures
        draw(restored.state, restored.inc, k) == draw(original.state, original.inc, k),
        advance(restored.state, restored.inc, k) == advance(original.state, original.inc, k),
{
}

} // verus!
