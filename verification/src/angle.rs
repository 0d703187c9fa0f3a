//! Binary angles.
//!
//! An [`Angle`] is a 16-bit fraction of a turn: 0 is east, 16384 is a quarter
//! turn, and 65536 wraps back to zero for free because the type is `u16`. No
//! range reduction, no accumulated drift, no `-pi..pi` versus `0..2pi`
//! argument.
//!
//! Trigonometry reads fixed lookup tables and interpolates in fixed point.
//! Calling the platform's `sin` instead would be faster to write and would
//! silently break replay across operating systems.
use vstd::prelude::*;

use crate::decimal::{
    exact_decimal_pow2, exact_decimal_text, pow10, pow_nat, split_decimal, split_decimal_spec,
    DecimalFault, FxParseError,
    all_digits, decimal, digits_value, fraction_text, lemma_decimal, lemma_decimal_len, lemma_digits_value_concat,
    lemma_exact_text_body, lemma_fraction_digits_13, lemma_pow_adds, lemma_pow_positive, trim_trailing_zeros,
};
use crate::fx::{clamp_i32, Fx};
use crate::trig_table::{atan_unit, atan_unit_table, sin_q, sin_q_table};
use crate::vec::Vec2Fx;

verus! {

broadcast use crate::fx::lemma_fx_view_range;

/// Binary angle units in a full turn.
pub const TURN: u32 = 65536;

/// Binary angle units in a quarter turn.
pub const QUARTER: u32 = 16384;

/// A direction, stored as a 16-bit fraction of a turn.
///
/// Its view is the number of binary angle units, `0 ..< 65536`.
#[derive(Clone, Copy, PartialEq, Eq, PartialOrd, Ord, Hash, Default, Debug, Structural)]
pub struct Angle(u16);

impl View for Angle {
    type V = int;

    closed spec fn view(&self) -> int {
        self.0 as int
    }
}

/// Every angle is a number of units below a full turn.
pub broadcast proof fn lemma_angle_view_range(a: Angle)
    ensures
        0 <= #[trigger] a@ < 65536,
{
}

/// Two angles with the same number of units are the same angle.
pub broadcast proof fn lemma_angle_view_injective(a: Angle, b: Angle)
    ensures
        #![trigger a@, b@]
        a@ == b@ ==> a == b,
{
}

/// `d` read as a signed 16-bit difference: `-32768 ..= 32767`.
pub open spec fn signed_turn(d: int) -> int {
    let w = d % 65536;
    if w >= 32768 {
        w - 65536
    } else {
        w
    }
}

/// `from` turned toward `to` by the short way round, at most `max_step`
/// units: the signed difference, clamped to the step.
pub open spec fn rotated_toward(from: int, to: int, max_step: int) -> int {
    let delta = signed_turn(to - from);
    let step = if delta < -max_step {
        -max_step
    } else if delta > max_step {
        max_step
    } else {
        delta
    };
    (from + step) % 65536
}

/// Rotating toward a target lands on it when it is within the step, and
/// otherwise moves exactly the step, the short way round: seen from where
/// it started, the new angle is `max_step` units toward the target.
pub proof fn lemma_rotate_toward_reaches_or_steps(from: u16, to: u16, max_step: u16)
    ensures
        ({
            let d = signed_turn(to - from);
            let r = rotated_toward(from as int, to as int, max_step as int);
            &&& -max_step <= d <= max_step ==> r == to
            &&& d > max_step ==> signed_turn(r - from) == max_step
            &&& d < -max_step ==> signed_turn(r - from) == -max_step
        }),
{
    let d = signed_turn(to - from);
    let r = rotated_toward(from as int, to as int, max_step as int);
    if to >= from {
        assert((to - from) % 65536 == to - from);
    } else {
        assert((to - from) % 65536 == to - from + 65536);
    }
    if d > max_step {
        assert(r == (from + max_step) % 65536);
        if from + max_step < 65536 {
            assert((r - from) % 65536 == max_step);
        } else {
            assert(r == from + max_step - 65536);
            assert((r - from) % 65536 == max_step);
        }
    } else if d < -max_step {
        assert(r == (from - max_step) % 65536);
        if max_step == 0 {
            assert(r == from);
        } else if from >= max_step {
            assert(r == from - max_step);
            assert((r - from) % 65536 == 65536 - max_step);
        } else {
            assert(r == from - max_step + 65536);
            assert((r - from) % 65536 == 65536 - max_step);
        }
    }
}

/// `digits / 10^places` degrees in binary units (`8192 / 45` to the degree),
/// rounded half away from zero.
pub open spec fn rounded_bam_spec(digits: nat, places: nat) -> nat {
    let num = digits * 8192;
    let den = 45 * pow_nat(10, places);
    (2 * num + den) / (2 * den)
}

/// Binary angle units for `digits / 10^places` degrees (negated when `neg`),
/// rounded half away from zero and wrapped into one turn.
pub open spec fn degrees_to_bam(neg: bool, digits: nat, places: nat) -> int {
    let bam = rounded_bam_spec(digits, places) as int;
    (if neg {
        -bam
    } else {
        bam
    }) % 65536
}

/// `floor(d * frac / scale)` added to `lo`: linear interpolation between two
/// table entries.
pub open spec fn interpolate(lo: int, hi: int, frac: int, scale: int) -> int {
    lo + ((hi - lo) * frac) / scale
}

/// Sine over a quarter turn, `rem` in `0 ..= 16384`, scaled by 65536.
pub open spec fn sin_quarter_spec(rem: int) -> int {
    let index = rem / 16;
    if index >= 1024 {
        sin_q()[1024] as int
    } else {
        interpolate(sin_q()[index] as int, sin_q()[index + 1] as int, rem % 16, 16)
    }
}

/// `atan(small / large)` in binary units.
pub open spec fn atan_unit_ratio_spec(small: int, large: int) -> int {
    let ratio = (small * 65536) / large;
    let index = ratio / 256;
    if index >= 256 {
        atan_unit()[256] as int
    } else {
        interpolate(atan_unit()[index] as int, atan_unit()[index + 1] as int, ratio % 256, 256)
    }
}

/// The sine of `bam` units as a raw [`Fx`] value, by quadrant.
pub open spec fn sin_spec(bam: int) -> int {
    let quadrant = bam / 16384;
    let rem = bam % 16384;
    let magnitude = if quadrant == 0 || quadrant == 2 {
        sin_quarter_spec(rem)
    } else {
        sin_quarter_spec(16384 - rem)
    };
    if quadrant >= 2 {
        clamp_i32(-magnitude)
    } else {
        magnitude
    }
}

/// The direction of `(x, y)` in binary units, given raw components.
pub open spec fn from_vector_spec(x: int, y: int) -> int {
    if x == 0 && y == 0 {
        0
    } else {
        let ax = if x < 0 {
            -x
        } else {
            x
        };
        let ay = if y < 0 {
            -y
        } else {
            y
        };
        let octant = if ay <= ax {
            atan_unit_ratio_spec(ay, ax)
        } else {
            16384 - atan_unit_ratio_spec(ax, ay)
        };
        let bam = if x >= 0 && y >= 0 {
            octant
        } else if x < 0 && y >= 0 {
            32768 - octant
        } else if x < 0 {
            32768 + octant
        } else {
            65536 - octant
        };
        bam % 65536
    }
}

/// Mirroring a vector mirrors its direction: flipping `x` reflects the
/// angle about the vertical axis (`a` becomes a half turn minus `a`), and
/// flipping `y` reflects it about the horizontal axis (`a` becomes a full
/// turn minus `a`), both wrapped into one turn.
pub proof fn lemma_from_vector_mirrors(x: int, y: int)
    ensures
        x != 0 ==> from_vector_spec(-x, y) == (32768 - from_vector_spec(x, y)) % 65536,
        y != 0 ==> from_vector_spec(x, -y) == (65536 - from_vector_spec(x, y)) % 65536,
{
    let ax = if x < 0 { -x } else { x };
    let ay = if y < 0 { -y } else { y };
    let o = if ay <= ax { atan_unit_ratio_spec(ay, ax) } else { 16384 - atan_unit_ratio_spec(ax, ay) };
    lemma_wrap_sub(32768, o);
    lemma_wrap_sub(32768, 32768 - o);
    lemma_wrap_sub(32768, 32768 + o);
    lemma_wrap_sub(32768, 65536 - o);
    lemma_wrap_sub(65536, o);
    lemma_wrap_sub(65536, 32768 - o);
    lemma_wrap_sub(65536, 32768 + o);
    lemma_wrap_sub(65536, 65536 - o);
}

/// Subtracting a wrapped value wraps like subtracting the value.
proof fn lemma_wrap_sub(c: int, a: int)
    ensures
        (c - a % 65536) % 65536 == (c - a) % 65536,
{
    let q = a / 65536;
    assert(a == q * 65536 + a % 65536);
    assert((c - a % 65536) == (c - a) + q * 65536);
    vstd::arithmetic::div_mod::lemma_mod_multiples_vanish(q, c - a, 65536);
}

/// Swapping the components of a vector in the first quadrant reflects its
/// direction about the diagonal: `a` becomes a quarter turn minus `a`. The
/// diagonal itself is an eighth of a turn.
pub proof fn lemma_from_vector_diagonal(x: int, y: int)
    requires
        x > 0,
        y > 0,
    ensures
        from_vector_spec(y, x) == (16384 - from_vector_spec(x, y)) % 65536,
        from_vector_spec(x, x) == 8192,
{
    lemma_wrap_sub(16384, atan_unit_ratio_spec(y, x));
    lemma_wrap_sub(16384, 16384 - atan_unit_ratio_spec(x, y));
    assert((x * 65536) / x == 65536) by (nonlinear_arith)
        requires
            x > 0,
    ;
    assert(atan_unit()[256] == 8192);
    assert(atan_unit_ratio_spec(x, x) == 8192);
    lemma_wrap_sub(16384, 8192);
}

/// The axes: a vector pointing along +x is angle 0, along +y a quarter
/// turn, along -x a half turn, along -y three quarters.
pub proof fn lemma_from_vector_axes(d: int)
    requires
        d > 0,
    ensures
        from_vector_spec(d, 0) == 0,
        from_vector_spec(0, d) == 16384,
        from_vector_spec(-d, 0) == 32768,
        from_vector_spec(0, -d) == 49152,
{
    assert((0int * 65536) / d == 0);
    assert(atan_unit()[0] == 0);
    assert(atan_unit_ratio_spec(0, d) == 0);
}

/// Interpolating between two entries stays between them.
proof fn lemma_interpolate_between(lo: int, hi: int, frac: int, scale: int)
    requires
        scale > 0,
        0 <= frac < scale,
    ensures
        lo <= hi ==> lo <= interpolate(lo, hi, frac, scale) <= hi,
        hi < lo ==> hi <= interpolate(lo, hi, frac, scale) <= lo,
{
    let d = hi - lo;
    if d >= 0 {
        assert(0 <= d * frac && d * frac <= d * scale) by (nonlinear_arith)
            requires
                d >= 0,
                0 <= frac < scale,
        ;
        assert(0 <= (d * frac) / scale <= d) by (nonlinear_arith)
            requires
                0 <= d * frac <= d * scale,
                scale > 0,
        ;
    } else {
        assert(d * scale <= d * frac && d * frac <= 0) by (nonlinear_arith)
            requires
                d < 0,
                0 <= frac < scale,
        ;
        assert(d <= (d * frac) / scale <= 0) by (nonlinear_arith)
            requires
                d * scale <= d * frac <= 0,
                scale > 0,
        ;
    }
}

/// `x / 2^shift` rounded toward negative infinity, as an arithmetic right
/// shift computes it.
fn floor_div(x: i64, d: i64) -> (q: i64)
    requires
        d > 0,
        x > i64::MIN,
    ensures
        q == x / d,
{
    if x >= 0 {
        x / d
    } else {
        let m = -x;
        let q0 = m / d;
        let r0 = m % d;
        assert(m == q0 * d + r0 && 0 <= r0 < d) by (nonlinear_arith)
            requires
                m > 0,
                d > 0,
                q0 == m / d,
                r0 == m % d,
        ;
        if r0 == 0 {
            assert(-q0 == x / d) by (nonlinear_arith)
                requires
                    x == -(q0 * d),
                    d > 0,
            ;
            -q0
        } else {
            assert(x == (-q0 - 1) * d + (d - r0)) by (nonlinear_arith)
                requires
                    x == -m,
                    m == q0 * d + r0,
            ;
            assert(-q0 - 1 == x / d) by (nonlinear_arith)
                requires
                    x == (-q0 - 1) * d + (d - r0),
                    0 < d - r0 < d,
                    d > 0,
            ;
            -q0 - 1
        }
    }
}

/// Sine over a quarter turn, `rem` in `0 ..= 16384`, scaled by 65536.
pub fn sin_quarter(rem: u32) -> (r: i32)
    requires
        rem <= 16384,
    ensures
        r == sin_quarter_spec(rem as int),
{
    let table = sin_q_table();
    let index = (rem / 16) as usize;
    if index >= table.len() - 1 {
        return table[table.len() - 1];
    }
    let frac = (rem % 16) as i64;
    let lo = table[index] as i64;
    let hi = table[index + 1] as i64;
    assert(-0x2_0000_0000 * 16 <= (hi - lo) * frac <= 0x2_0000_0000 * 16) by (nonlinear_arith)
        requires
            -0x2_0000_0000 <= hi - lo <= 0x2_0000_0000,
            0 <= frac < 16,
    ;
    let step = floor_div((hi - lo) * frac, 16);
    proof {
        lemma_interpolate_between(lo as int, hi as int, frac as int, 16);
    }
    (lo + step) as i32
}

/// `atan(small / large)` in binary units, for `0 <= small <= large`.
pub fn atan_unit_ratio(small: u64, large: u64) -> (r: i64)
    requires
        small <= large,
        large > 0,
    ensures
        r == atan_unit_ratio_spec(small as int, large as int),
        i32::MIN <= r <= i32::MAX,
{
    let table = atan_unit_table();
    let ratio = ((small as u128) * 65536) / (large as u128);
    assert(ratio <= 65536) by (nonlinear_arith)
        requires
            small <= large,
            large > 0,
            ratio == (small * 65536) as int / large as int,
    ;
    let index = (ratio / 256) as usize;
    if index >= table.len() - 1 {
        return table[table.len() - 1] as i64;
    }
    let frac = (ratio % 256) as i64;
    let lo = table[index] as i64;
    let hi = table[index + 1] as i64;
    assert(-0x2_0000_0000 * 256 <= (hi - lo) * frac <= 0x2_0000_0000 * 256) by (nonlinear_arith)
        requires
            -0x2_0000_0000 <= hi - lo <= 0x2_0000_0000,
            0 <= frac < 256,
    ;
    let step = floor_div((hi - lo) * frac, 256);
    proof {
        lemma_interpolate_between(lo as int, hi as int, frac as int, 256);
    }
    lo + step
}

/// `digits / 10^places` degrees in binary units, rounded half away from
/// zero, before the sign and the wrap.
fn rounded_bam(digits: u128, places: u32) -> (bam: u128)
    requires
        digits < pow_nat(10, 30),
        places <= 30,
    ensures
        bam == rounded_bam_spec(digits as nat, places as nat),
        bam < 100_000_000_000_000_000_000_000_000_000_000_000,
{
    proof {
        crate::decimal::lemma_pow_ten_30();
        crate::decimal::lemma_pow_monotone(10, places as nat, 30);
        crate::decimal::lemma_pow_positive(10, places as nat);
        crate::decimal::lemma_pow_bounds();
    }
    let p = pow10(places);
    assert(digits * 8192 < 8192 * 1_000_000_000_000_000_000_000_000_000_000) by (nonlinear_arith)
        requires
            digits < 1_000_000_000_000_000_000_000_000_000_000nat,
    ;
    let num = digits * 8192;
    let den = 45 * p;
    let bam = (2 * num + den) / (2 * den);
    assert(bam <= 2 * num + den) by (nonlinear_arith)
        requires
            den >= 1,
            bam == (2 * num + den) / (2 * den),
    ;
    bam
}

impl Angle {
    /// East.
    #[allow(non_snake_case)]
    pub fn ZERO() -> (a: Angle)
        ensures
            a@ == 0,
    {
        Angle(0)
    }

    /// North (a quarter turn counter-clockwise).
    #[allow(non_snake_case)]
    pub fn QUARTER_TURN() -> (a: Angle)
        ensures
            a@ == 16384,
    {
        Angle(16384)
    }

    /// West.
    #[allow(non_snake_case)]
    pub fn HALF_TURN() -> (a: Angle)
        ensures
            a@ == 32768,
    {
        Angle(32768)
    }

    /// Construct from raw binary angle units. Wraps.
    pub fn from_bam(bam: u16) -> (a: Angle)
        ensures
            a@ == bam,
    {
        Angle(bam)
    }

    /// The raw binary angle units.
    pub fn to_bam(self) -> (r: u16)
        ensures
            r == self@,
    {
        self.0
    }

    /// Construct from degrees, rounding to the nearest representable angle.
    ///
    /// One binary unit is 360/65536 of a turn, so most whole degrees are not
    /// representable — 30° lands between two units. The rounding is exact
    /// integer arithmetic and therefore identical everywhere.
    pub fn from_degrees_str(s: &str) -> (r: Result<Angle, FxParseError>)
        ensures
            match split_decimal_spec(s@) {
                Err(e) => r matches Err(err) && err.fault() == e,
                Ok((neg, digits, places)) => r matches Ok(a) && a@ == degrees_to_bam(
                    neg,
                    digits,
                    places,
                ),
            },
    {
        let (neg, digits, places) = match split_decimal(s) {
            Ok(t) => t,
            Err(e) => {
                return Err(e);
            },
        };
        let bam = rounded_bam(digits, places);
        let signed: i128 = if neg {
            -(bam as i128)
        } else {
            bam as i128
        };
        let wrapped = if signed >= 0 {
            signed % 65536
        } else {
            let m = (-signed) % 65536;
            if m == 0 {
                0
            } else {
                65536 - m
            }
        };
        proof {
            if signed < 0 {
                let m = (-signed) % 65536;
                assert(wrapped == signed % 65536) by (nonlinear_arith)
                    requires
                        signed < 0,
                        m == (-signed) % 65536,
                        wrapped == (if m == 0 {
                            0
                        } else {
                            65536 - m
                        }),
                ;
            }
        }
        Ok(Angle(wrapped as u16))
    }

    /// Render as exact decimal degrees in `0.0 ..< 360.0`.
    pub fn to_degrees_string(self) -> (out: String)
        ensures
            out@ == exact_decimal_text(false, (self@ * 45) as nat, 13),
    {
        exact_decimal_pow2(false, self.0 as u64 * 45, 13)
    }

    /// Sine, in `-1.0 ..= 1.0`.
    pub fn sin(self) -> (r: Fx)
        ensures
            r@ == sin_spec(self@),
    {
        let a = self.0 as u32;
        let quadrant = a / 16384;
        let rem = a % 16384;
        let magnitude = if quadrant == 0 || quadrant == 2 {
            sin_quarter(rem)
        } else {
            sin_quarter(QUARTER - rem)
        };
        if quadrant >= 2 {
            Fx::from_raw(magnitude).neg()
        } else {
            Fx::from_raw(magnitude)
        }
    }

    /// Cosine, in `-1.0 ..= 1.0`.
    pub fn cos(self) -> (r: Fx)
        ensures
            r@ == sin_spec((self@ + 16384) % 65536),
    {
        self.add(Angle(16384)).sin()
    }

    /// Sine and cosine together, which is the usual call site.
    pub fn sin_cos(self) -> (r: (Fx, Fx))
        ensures
            r.0@ == sin_spec(self@),
            r.1@ == sin_spec((self@ + 16384) % 65536),
    {
        (self.sin(), self.cos())
    }

    /// The unit vector pointing along this angle.
    pub fn to_unit_vector(self) -> (v: Vec2Fx)
        ensures
            v.x@ == sin_spec((self@ + 16384) % 65536),
            v.y@ == sin_spec(self@),
    {
        Vec2Fx::new(self.cos(), self.sin())
    }

    /// The shortest signed difference to `other`, in binary units.
    ///
    /// Result is in `-32768 ..= 32767`: negative means `other` is clockwise.
    pub fn delta_to(self, other: Angle) -> (d: i32)
        ensures
            d == signed_turn(other@ - self@),
            -32768 <= d <= 32767,
    {
        let w: u32 = ((other.0 as u32) + 65536 - (self.0 as u32)) % 65536;
        if w >= 32768 {
            w as i32 - 65536
        } else {
            w as i32
        }
    }

    /// Step toward `other` by at most `max_step` binary units.
    pub fn rotate_toward(self, other: Angle, max_step: u16) -> (r: Angle)
        ensures
            r@ == rotated_toward(self@ as int, other@ as int, max_step as int),
    {
        let delta = self.delta_to(other);
        let m = max_step as i32;
        let step = if delta < -m {
            -m
        } else if delta > m {
            m
        } else {
            delta
        };
        Angle((((self.0 as i32) + step + 65536) % 65536) as u16)
    }

    /// The direction of the vector `(x, y)`, the fixed-point `atan2`.
    ///
    /// `atan2(0, 0)` is [`Angle::ZERO`] by convention, matching IEEE's choice
    /// for `atan2(+0, +0)` so that a zero-length aim vector points east rather
    /// than panicking mid-tick.
    pub fn from_vector(x: Fx, y: Fx) -> (a: Angle)
        ensures
            a@ == from_vector_spec(x@, y@),
    {
        let xr = x.to_raw() as i64;
        let yr = y.to_raw() as i64;
        if xr == 0 && yr == 0 {
            return Angle(0);
        }
        let ax: u64 = if xr < 0 { (-xr) as u64 } else { xr as u64 };
        let ay: u64 = if yr < 0 { (-yr) as u64 } else { yr as u64 };
        let octant = if ay <= ax {
            atan_unit_ratio(ay, ax)
        } else {
            16384 - atan_unit_ratio(ax, ay)
        };
        let bam: i64 = if xr >= 0 && yr >= 0 {
            octant
        } else if xr < 0 && yr >= 0 {
            32768 - octant
        } else if xr < 0 {
            32768 + octant
        } else {
            65536 - octant
        };
        let wrapped = if bam >= 0 {
            bam % 65536
        } else {
            let m = (-bam) % 65536;
            if m == 0 {
                0
            } else {
                65536 - m
            }
        };
        proof {
            if bam < 0 {
                let m = (-bam) % 65536;
                assert(wrapped == bam % 65536) by (nonlinear_arith)
                    requires
                        bam < 0,
                        m == (-bam) % 65536,
                        wrapped == (if m == 0 {
                            0
                        } else {
                            65536 - m
                        }),
                ;
            }
        }
        Angle(wrapped as u16)
    }

    /// `self + r`, wrapping around the turn.
    pub fn add(self, r: Angle) -> (out: Angle)
        ensures
            out@ == (self@ + r@) % 65536,
    {
        Angle((((self.0 as u32) + (r.0 as u32)) % 65536) as u16)
    }

    /// `self - r`, wrapping around the turn.
    pub fn sub(self, r: Angle) -> (out: Angle)
        ensures
            out@ == (self@ - r@) % 65536,
    {
        Angle((((self.0 as u32) + 65536 - (r.0 as u32)) % 65536) as u16)
    }

    /// The opposite rotation, wrapping around the turn.
    pub fn neg(self) -> (out: Angle)
        ensures
            out@ == (-self@) % 65536,
    {
        Angle(((65536 - (self.0 as u32)) % 65536) as u16)
    }
}

/// Every angle's degree text reads back as that angle: what
/// [`Angle::to_degrees_string`] writes for `bam` units,
/// [`Angle::from_degrees_str`] rounds back to `bam` units. So rewriting a
/// literal to the angle actually stored is a fixed point, and an angle
/// survives being written out as text and read back.
pub proof fn lemma_degrees_round_trip(bam: u16)
    ensures
        split_decimal_spec(exact_decimal_text(false, (bam * 45) as nat, 13)) matches Ok((neg, digits, places))
            && degrees_to_bam(neg, digits, places) == bam,
{
    reveal_with_fuel(pow_nat, 14);
    let mag = (bam * 45) as nat;
    assert(pow_nat(2, 13) == 8192nat);
    assert(pow_nat(5, 13) == 1220703125nat);
    assert(pow_nat(10, 13) == 10000000000000nat);
    assert(pow_nat(10, 3) == 1000nat);
    let ip = mag / 8192;
    let fp = mag % 8192;
    let frac = fraction_text(mag, 13);
    let d = decimal(ip);
    lemma_decimal(ip);
    lemma_decimal_len(ip, 3);
    let t = exact_decimal_text(false, mag, 13);
    if fp == 0 {
        assert(all_digits(frac));
        lemma_exact_text_body(false, mag, 13);
        assert(trim_trailing_zeros(frac.drop_last()) == Seq::<char>::empty());
        assert(trim_trailing_zeros(frac) =~= Seq::<char>::empty());
        assert(d + Seq::<char>::empty() =~= d);
        assert(split_decimal_spec(t) == Ok::<(bool, nat, nat), DecimalFault>((false, ip, 0)));
        assert(ip * 8192 == bam * 45);
        let den = 45 * pow_nat(10, 0);
        assert(den == 45);
        assert((2 * (ip * 8192) + den) / (2 * den) == bam) by (nonlinear_arith)
            requires
                ip * 8192 == bam * 45,
                den == 45,
        ;
    } else {
        lemma_fraction_digits_13(fp);
        let l = frac.len();
        let k = (13 - l) as nat;
        let v = digits_value(frac);
        lemma_exact_text_body(false, mag, 13);
        lemma_digits_value_concat(d, frac);
        let digits = digits_value(d + frac);
        assert(split_decimal_spec(t) == Ok::<(bool, nat, nat), DecimalFault>((false, digits, l)));
        let pl = pow_nat(10, l);
        let pk = pow_nat(10, k);
        lemma_pow_adds(10, l, k);
        lemma_pow_positive(10, k);
        assert(digits == ip * pl + v);
        assert(v * pk == fp * 1220703125);
        assert(pl * pk == 10000000000000);
        assert(v * 8192 == fp * pl) by (nonlinear_arith)
            requires
                v * pk == fp * 1220703125,
                pl * pk == 10000000000000,
                pk > 0,
        ;
        assert(mag == ip * 8192 + fp);
        let den = 45 * pl;
        assert(digits * 8192 == bam * den) by (nonlinear_arith)
            requires
                digits == ip * pl + v,
                v * 8192 == fp * pl,
                mag == ip * 8192 + fp,
                mag == bam * 45,
                den == 45 * pl,
        ;
        assert(den > 0) by (nonlinear_arith)
            requires
                pl * pk == 10000000000000,
                den == 45 * pl,
        ;
        assert((2 * (digits * 8192) + den) / (2 * den) == bam) by (nonlinear_arith)
            requires
                digits * 8192 == bam * den,
                den > 0,
        ;
    }
}

} // verus!
