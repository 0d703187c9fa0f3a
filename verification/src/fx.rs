//! Fixed-point scalars.
//!
//! [`Fx`] is the simulation's only scalar type: 16 integer bits and 16
//! fractional bits, so ±32768 world units at a resolution of 1/65536.
//! [`FxWide`] is the accumulator: same resolution, 48 integer bits, wide
//! enough to hold the square of anything an `Fx` can represent.
//!
//! Every operator saturates rather than wrapping, so every build profile
//! computes the same arithmetic. Code that wants to handle overflow itself
//! calls the `checked_*` methods.
//!
//! Multiplication and division are the `fixed` crate's, on its `I16F16` and
//! `I48F16` types: the product is rounded toward negative infinity and the
//! quotient toward zero, as that crate documents and implements.
use vstd::prelude::*;

pub use crate::decimal::{
    exact_decimal_pow2, split_decimal, DecimalFault, FxParseError,
};

use crate::decimal::{
    exact_decimal_text, lemma_exact_text_parses, parse_decimal, parse_decimal_spec, pow_nat,
};

verus! {

/// Number of fractional bits in both [`Fx`] and [`FxWide`].
pub const FRAC_BITS: u32 = 16;

/// Raw value of `1.0`.
pub const ONE_RAW: i32 = 65536;

// ---------------------------------------------------------------------------
// Integer models of the arithmetic
// ---------------------------------------------------------------------------

/// `v` clamped into the `i32` range.
pub open spec fn clamp_i32(v: int) -> int {
    if v < i32::MIN {
        i32::MIN as int
    } else if v > i32::MAX {
        i32::MAX as int
    } else {
        v
    }
}

/// `v` clamped into the `i64` range.
pub open spec fn clamp_i64(v: int) -> int {
    if v < i64::MIN {
        i64::MIN as int
    } else if v > i64::MAX {
        i64::MAX as int
    } else {
        v
    }
}

/// Whether `v` fits in an `i32`.
pub open spec fn fits_i32(v: int) -> bool {
    i32::MIN <= v <= i32::MAX
}

/// Whether `v` fits in an `i64`.
pub open spec fn fits_i64(v: int) -> bool {
    i64::MIN <= v <= i64::MAX
}

/// `|v|`.
pub open spec fn abs_int(v: int) -> int {
    if v < 0 {
        -v
    } else {
        v
    }
}

/// Division rounding toward zero, as Rust's `/` on signed integers does.
pub open spec fn trunc_div(a: int, b: int) -> int {
    if (a >= 0) == (b > 0) || a == 0 {
        abs_int(a) / abs_int(b)
    } else {
        -(abs_int(a) / abs_int(b))
    }
}

/// The remainder that goes with [`trunc_div`], carrying the sign of `a`.
pub open spec fn trunc_rem(a: int, b: int) -> int {
    if a >= 0 {
        abs_int(a) % abs_int(b)
    } else {
        -(abs_int(a) % abs_int(b))
    }
}

/// The product of two values with 16 fractional bits, rounded toward
/// negative infinity.
pub open spec fn fixed_product(a: int, b: int) -> int {
    (a * b) / 65536
}

/// The quotient of two values with 16 fractional bits, rounded toward zero.
pub open spec fn fixed_quotient(a: int, b: int) -> int {
    trunc_div(a * 65536, b)
}

/// What saturating division gives when the quotient overflows or the
/// divisor is zero: the end of the range on the side of the true result, and
/// the top end when the numerator is zero.
pub open spec fn saturated_quotient(num: int, den: int, min: int, max: int) -> int {
    if num == 0 || !((num < 0) != (den < 0)) {
        max
    } else {
        min
    }
}

/// Dividing by anything of magnitude two or more at least halves the
/// magnitude.
pub proof fn lemma_trunc_div_halves(a: int, b: int)
    requires
        abs_int(b) >= 2,
    ensures
        abs_int(trunc_div(a, b)) <= abs_int(a) / 2,
{
    let ua = abs_int(a);
    let ub = abs_int(b);
    assert(ua / ub <= ua / 2) by (nonlinear_arith)
        requires
            ub >= 2,
            ua >= 0,
    ;
    assert(ua / ub >= 0) by (nonlinear_arith)
        requires
            ub >= 2,
            ua >= 0,
    ;
}

/// The whole part of `a`, taken toward zero, is no larger in magnitude than
/// `a`.
pub proof fn lemma_trunc_whole_part(a: int)
    ensures
        abs_int(trunc_div(a, 65536) * 65536) <= abs_int(a),
{
    let ua = abs_int(a);
    assert((ua / 65536) * 65536 <= ua) by (nonlinear_arith)
        requires
            ua >= 0,
    ;
    assert(ua / 65536 >= 0);
}

// ---------------------------------------------------------------------------
// The fixed crate's multiplication and division
// ---------------------------------------------------------------------------

/// `I16F16::checked_mul` from the `fixed` crate, on raw bits.
///
/// The crate multiplies in 64 bits and shifts the product right, so the
/// result is rounded toward negative infinity, and it reports overflow
/// exactly when that result leaves the 32-bit range.
#[verifier::external_body]
fn fixed_checked_mul(a: i32, b: i32) -> (r: Option<i32>)
    ensures
        fits_i32(fixed_product(a as int, b as int)) ==> r == Some(
            fixed_product(a as int, b as int) as i32,
        ),
        !fits_i32(fixed_product(a as int, b as int)) ==> r is None,
{
    fixed::types::I16F16::from_bits(a).checked_mul(fixed::types::I16F16::from_bits(b)).map(
        |v| v.to_bits(),
    )
}

/// `I16F16::saturating_mul` from the `fixed` crate, on raw bits: the
/// product rounded toward negative infinity, clamped into range.
#[verifier::external_body]
fn fixed_saturating_mul(a: i32, b: i32) -> (r: i32)
    ensures
        r == clamp_i32(fixed_product(a as int, b as int)),
{
    fixed::types::I16F16::from_bits(a).saturating_mul(fixed::types::I16F16::from_bits(b)).to_bits()
}

/// `I16F16::checked_div` from the `fixed` crate, on raw bits.
///
/// `None` for a zero divisor; otherwise the quotient rounded toward zero,
/// or `None` when it leaves the 32-bit range.
#[verifier::external_body]
fn fixed_checked_div(a: i32, b: i32) -> (r: Option<i32>)
    ensures
        b == 0 ==> r is None,
        b != 0 && fits_i32(fixed_quotient(a as int, b as int)) ==> r == Some(
            fixed_quotient(a as int, b as int) as i32,
        ),
        b != 0 && !fits_i32(fixed_quotient(a as int, b as int)) ==> r is None,
{
    fixed::types::I16F16::from_bits(a).checked_div(fixed::types::I16F16::from_bits(b)).map(
        |v| v.to_bits(),
    )
}

/// `I48F16::checked_mul` from the `fixed` crate, on raw bits: the product
/// rounded toward negative infinity, `None` when it leaves the 64-bit range.
#[verifier::external_body]
fn wide_checked_mul(a: i64, b: i64) -> (r: Option<i64>)
    ensures
        fits_i64(fixed_product(a as int, b as int)) ==> r == Some(
            fixed_product(a as int, b as int) as i64,
        ),
        !fits_i64(fixed_product(a as int, b as int)) ==> r is None,
{
    fixed::types::I48F16::from_bits(a).checked_mul(fixed::types::I48F16::from_bits(b)).map(
        |v| v.to_bits(),
    )
}

/// `I48F16::saturating_mul` from the `fixed` crate, on raw bits.
#[verifier::external_body]
fn wide_saturating_mul(a: i64, b: i64) -> (r: i64)
    ensures
        r == clamp_i64(fixed_product(a as int, b as int)),
{
    fixed::types::I48F16::from_bits(a).saturating_mul(fixed::types::I48F16::from_bits(b)).to_bits()
}

/// `I48F16::checked_div` from the `fixed` crate, on raw bits.
#[verifier::external_body]
fn wide_checked_div(a: i64, b: i64) -> (r: Option<i64>)
    ensures
        b == 0 ==> r is None,
        b != 0 && fits_i64(fixed_quotient(a as int, b as int)) ==> r == Some(
            fixed_quotient(a as int, b as int) as i64,
        ),
        b != 0 && !fits_i64(fixed_quotient(a as int, b as int)) ==> r is None,
{
    fixed::types::I48F16::from_bits(a).checked_div(fixed::types::I48F16::from_bits(b)).map(
        |v| v.to_bits(),
    )
}

// ---------------------------------------------------------------------------
// Fx
// ---------------------------------------------------------------------------

/// A fixed-point scalar: 16 integer bits, 16 fractional bits, saturating.
///
/// Its view is the raw backing integer, `value * 65536`.
#[derive(Clone, Copy, PartialEq, Eq, PartialOrd, Ord, Hash, Default, Debug)]
pub struct Fx(i32);

impl View for Fx {
    type V = int;

    closed spec fn view(&self) -> int {
        self.0 as int
    }
}

/// Two scalars with the same raw value are the same scalar.
pub broadcast proof fn lemma_fx_view_injective(a: Fx, b: Fx)
    ensures
        #![trigger a@, b@]
        a@ == b@ ==> a == b,
{
}

/// Every scalar's raw value fits in an `i32`.
pub broadcast proof fn lemma_fx_view_range(a: Fx)
    ensures
        fits_i32(#[trigger] a@),
{
}

impl Fx {
    /// Zero.
    #[allow(non_snake_case)]
    pub fn ZERO() -> (r: Fx)
        ensures
            r@ == 0,
    {
        Fx(0)
    }

    /// One.
    #[allow(non_snake_case)]
    pub fn ONE() -> (r: Fx)
        ensures
            r@ == 65536,
    {
        Fx(65536)
    }

    /// Negative one.
    #[allow(non_snake_case)]
    pub fn NEG_ONE() -> (r: Fx)
        ensures
            r@ == -65536,
    {
        Fx(-65536)
    }

    /// One half.
    #[allow(non_snake_case)]
    pub fn HALF() -> (r: Fx)
        ensures
            r@ == 32768,
    {
        Fx(32768)
    }

    /// The smallest representable positive value, 1/65536.
    #[allow(non_snake_case)]
    pub fn DELTA() -> (r: Fx)
        ensures
            r@ == 1,
    {
        Fx(1)
    }

    /// The most negative representable value.
    #[allow(non_snake_case)]
    pub fn MIN() -> (r: Fx)
        ensures
            r@ == i32::MIN,
    {
        Fx(i32::MIN)
    }

    /// The largest representable value.
    #[allow(non_snake_case)]
    pub fn MAX() -> (r: Fx)
        ensures
            r@ == i32::MAX,
    {
        Fx(i32::MAX)
    }

    /// Construct from the raw backing integer (`value * 65536`).
    pub fn from_raw(raw: i32) -> (r: Fx)
        ensures
            r@ == raw,
    {
        Fx(raw)
    }

    /// The raw backing integer.
    pub fn to_raw(self) -> (r: i32)
        ensures
            r == self@,
    {
        self.0
    }
}


impl Fx {
    /// Construct from a whole number, saturating if it is out of range.
    pub fn from_int(v: i32) -> (r: Fx)
        ensures
            r@ == clamp_i32(v * 65536),
    {
        match v.checked_mul(ONE_RAW) {
            Some(raw) => Fx(raw),
            None => {
                if v < 0 {
                    Fx(i32::MIN)
                } else {
                    Fx(i32::MAX)
                }
            },
        }
    }

    /// Truncate toward zero to a whole number.
    pub fn to_int_trunc(self) -> (r: i32)
        ensures
            r == trunc_div(self@, 65536),
    {
        self.0 / ONE_RAW
    }

    /// Largest whole number less than or equal to `self`.
    pub fn floor_int(self) -> (r: i32)
        ensures
            r == self@ / 65536,
    {
        let q = self.0 / ONE_RAW;
        if self.0 % ONE_RAW < 0 {
            q - 1
        } else {
            q
        }
    }

    /// Smallest whole number greater than or equal to `self`.
    pub fn ceil_int(self) -> (r: i32)
        ensures
            r == (self@ + 65535) / 65536,
    {
        let shifted = self.0 as i64 + 65535;
        let q = shifted / 65536;
        if shifted % 65536 < 0 {
            (q - 1) as i32
        } else {
            q as i32
        }
    }

    /// Round half away from zero to a whole number.
    ///
    /// Half-away-from-zero rather than banker's rounding, because it is the
    /// rule a designer expects and it is symmetric about zero — banker's
    /// rounding is not, and asymmetric rounding shows up as drift in
    /// long-running simulations.
    pub fn round_int(self) -> (r: i32)
        ensures
            r == rounded_int(self@),
    {
        let raw = self.0 as i64;
        let half: i64 = 32768;
        let rounded = if raw >= 0 {
            (raw + half) / 65536
        } else {
            -((-raw + half) / 65536)
        };
        rounded as i32
    }

    /// `self` with its integer part kept and fraction discarded, toward zero.
    pub fn trunc(self) -> (r: Fx)
        ensures
            r@ == trunc_div(self@, 65536) * 65536,
    {
        let t = self.to_int_trunc();
        assert(abs_int(t * 65536) <= abs_int(self@)) by {
            lemma_trunc_whole_part(self@);
        }
        Fx(t * ONE_RAW)
    }

    /// Fractional part, carrying the sign of `self`.
    pub fn fract(self) -> (r: Fx)
        ensures
            r@ == trunc_rem(self@, 65536),
    {
        Fx(self.0 % ONE_RAW)
    }

    /// Absolute value, saturating at [`Fx::MAX`] for [`Fx::MIN`].
    pub fn abs(self) -> (r: Fx)
        ensures
            r@ == clamp_i32(abs_int(self@)),
    {
        if self.0 == i32::MIN {
            Fx(i32::MAX)
        } else if self.0 < 0 {
            Fx(-self.0)
        } else {
            self
        }
    }

    /// `-1`, `0` or `1`.
    pub fn signum(self) -> (r: Fx)
        ensures
            r@ == (if self@ < 0 {
                -65536
            } else if self@ == 0 {
                0
            } else {
                65536
            }),
    {
        if self.0 < 0 {
            Fx(-65536)
        } else if self.0 == 0 {
            Fx(0)
        } else {
            Fx(65536)
        }
    }

    /// True when the value is exactly zero.
    pub fn is_zero(self) -> (r: bool)
        ensures
            r == (self@ == 0),
    {
        self.0 == 0
    }

    /// The smaller of two values.
    pub fn min(self, other: Fx) -> (r: Fx)
        ensures
            r@ == (if self@ <= other@ {
                self@
            } else {
                other@
            }),
    {
        if self.0 <= other.0 {
            self
        } else {
            other
        }
    }

    /// The larger of two values.
    pub fn max(self, other: Fx) -> (r: Fx)
        ensures
            r@ == (if self@ >= other@ {
                self@
            } else {
                other@
            }),
    {
        if self.0 >= other.0 {
            self
        } else {
            other
        }
    }

    /// Clamp into `lo ..= hi`.
    pub fn clamp(self, lo: Fx, hi: Fx) -> (r: Fx)
        requires
            lo@ <= hi@,
        ensures
            r@ == (if self@ < lo@ {
                lo@
            } else if self@ > hi@ {
                hi@
            } else {
                self@
            }),
    {
        self.max(lo).min(hi)
    }

    /// Addition, `None` on overflow.
    pub fn checked_add(self, rhs: Fx) -> (r: Option<Fx>)
        ensures
            fits_i32(self@ + rhs@) ==> (r matches Some(v) && v@ == self@ + rhs@),
            !fits_i32(self@ + rhs@) ==> r is None,
    {
        let s = self.0 as i64 + rhs.0 as i64;
        if i32::MIN as i64 <= s && s <= i32::MAX as i64 {
            Some(Fx(s as i32))
        } else {
            None
        }
    }

    /// Subtraction, `None` on overflow.
    pub fn checked_sub(self, rhs: Fx) -> (r: Option<Fx>)
        ensures
            fits_i32(self@ - rhs@) ==> (r matches Some(v) && v@ == self@ - rhs@),
            !fits_i32(self@ - rhs@) ==> r is None,
    {
        let s = self.0 as i64 - rhs.0 as i64;
        if i32::MIN as i64 <= s && s <= i32::MAX as i64 {
            Some(Fx(s as i32))
        } else {
            None
        }
    }

    /// Multiplication, `None` on overflow.
    pub fn checked_mul(self, rhs: Fx) -> (r: Option<Fx>)
        ensures
            fits_i32(fixed_product(self@, rhs@)) ==> (r matches Some(v) && v@ == fixed_product(
                self@,
                rhs@,
            )),
            !fits_i32(fixed_product(self@, rhs@)) ==> r is None,
    {
        match fixed_checked_mul(self.0, rhs.0) {
            Some(v) => Some(Fx(v)),
            None => None,
        }
    }

    /// Division, `None` on overflow or division by zero.
    pub fn checked_div(self, rhs: Fx) -> (r: Option<Fx>)
        ensures
            rhs@ == 0 ==> r is None,
            rhs@ != 0 && fits_i32(fixed_quotient(self@, rhs@)) ==> (r matches Some(v) && v@
                == fixed_quotient(self@, rhs@)),
            rhs@ != 0 && !fits_i32(fixed_quotient(self@, rhs@)) ==> r is None,
    {
        match fixed_checked_div(self.0, rhs.0) {
            Some(v) => Some(Fx(v)),
            None => None,
        }
    }

    /// Addition, saturating without asserting.
    pub fn saturating_add(self, rhs: Fx) -> (r: Fx)
        ensures
            r@ == clamp_i32(self@ + rhs@),
    {
        let s = self.0 as i64 + rhs.0 as i64;
        if s < i32::MIN as i64 {
            Fx(i32::MIN)
        } else if s > i32::MAX as i64 {
            Fx(i32::MAX)
        } else {
            Fx(s as i32)
        }
    }

    /// Subtraction, saturating without asserting.
    pub fn saturating_sub(self, rhs: Fx) -> (r: Fx)
        ensures
            r@ == clamp_i32(self@ - rhs@),
    {
        let s = self.0 as i64 - rhs.0 as i64;
        if s < i32::MIN as i64 {
            Fx(i32::MIN)
        } else if s > i32::MAX as i64 {
            Fx(i32::MAX)
        } else {
            Fx(s as i32)
        }
    }

    /// Multiplication, saturating without asserting.
    pub fn saturating_mul(self, rhs: Fx) -> (r: Fx)
        ensures
            r@ == clamp_i32(fixed_product(self@, rhs@)),
    {
        Fx(fixed_saturating_mul(self.0, rhs.0))
    }

    /// Division, saturating without asserting. Division by zero saturates
    /// toward the sign of the numerator, and by convention `0 / 0` is zero.
    pub fn saturating_div(self, rhs: Fx) -> (r: Fx)
        ensures
            rhs@ != 0 && fits_i32(fixed_quotient(self@, rhs@)) ==> r@ == fixed_quotient(
                self@,
                rhs@,
            ),
            rhs@ != 0 && !fits_i32(fixed_quotient(self@, rhs@)) ==> r@ == saturated_quotient(
                self@,
                rhs@,
                i32::MIN as int,
                i32::MAX as int,
            ),
            rhs@ == 0 && self@ == 0 ==> r@ == 0,
            rhs@ == 0 && self@ > 0 ==> r@ == i32::MAX,
            rhs@ == 0 && self@ < 0 ==> r@ == i32::MIN,
    {
        match fixed_checked_div(self.0, rhs.0) {
            Some(v) => Fx(v),
            None => {
                if self.0 == 0 && rhs.0 == 0 {
                    Fx(0)
                } else {
                    saturate_div(self.0 as i64, rhs.0 as i64, Fx(i32::MIN), Fx(i32::MAX))
                }
            },
        }
    }

    /// `self + rhs`, saturating at the ends of the range.
    pub fn add(self, rhs: Fx) -> (r: Fx)
        ensures
            r@ == clamp_i32(self@ + rhs@),
    {
        self.saturating_add(rhs)
    }

    /// `self - rhs`, saturating at the ends of the range.
    pub fn sub(self, rhs: Fx) -> (r: Fx)
        ensures
            r@ == clamp_i32(self@ - rhs@),
    {
        self.saturating_sub(rhs)
    }

    /// `self * rhs`, rounded toward negative infinity and saturating.
    pub fn mul(self, rhs: Fx) -> (r: Fx)
        ensures
            r@ == clamp_i32(fixed_product(self@, rhs@)),
    {
        self.saturating_mul(rhs)
    }

    /// `self / rhs`, rounded toward zero.
    ///
    /// A quotient out of range, or a division by zero, saturates toward the
    /// sign of the true result; zero over zero gives the top of the range.
    pub fn div(self, rhs: Fx) -> (r: Fx)
        ensures
            rhs@ != 0 && fits_i32(fixed_quotient(self@, rhs@)) ==> r@ == fixed_quotient(
                self@,
                rhs@,
            ),
            rhs@ == 0 || !fits_i32(fixed_quotient(self@, rhs@)) ==> r@ == saturated_quotient(
                self@,
                rhs@,
                i32::MIN as int,
                i32::MAX as int,
            ),
    {
        match fixed_checked_div(self.0, rhs.0) {
            Some(v) => Fx(v),
            None => saturate_div(self.0 as i64, rhs.0 as i64, Fx(i32::MIN), Fx(i32::MAX)),
        }
    }

    /// `self % rhs`, carrying the sign of `self`; zero for a zero divisor.
    pub fn rem(self, rhs: Fx) -> (r: Fx)
        requires
            !(self@ == i32::MIN && rhs@ == -1),
        ensures
            rhs@ == 0 ==> r@ == 0,
            rhs@ != 0 ==> r@ == trunc_rem(self@, rhs@),
    {
        if rhs.0 == 0 {
            return Fx(0);
        }
        let r = rem_toward_zero(self.0 as i64, rhs.0 as i64);
        Fx(r as i32)
    }

    /// `-self`, saturating at [`Fx::MAX`] for [`Fx::MIN`].
    pub fn neg(self) -> (r: Fx)
        ensures
            r@ == clamp_i32(-self@),
    {
        if self.0 == i32::MIN {
            Fx(i32::MAX)
        } else {
            Fx(-self.0)
        }
    }

    /// `self * rhs` for a whole-number `rhs`, saturating.
    pub fn mul_int(self, rhs: i32) -> (r: Fx)
        ensures
            r@ == clamp_i32(self@ * rhs),
    {
        let a = self.0 as i64;
        let b = rhs as i64;
        assert(-0x4000_0000_0000_0000 <= a * b <= 0x4000_0000_0000_0000) by (nonlinear_arith)
            requires
                -0x8000_0000 <= a <= 0x7fff_ffff,
                -0x8000_0000 <= b <= 0x7fff_ffff,
        ;
        let p = a * b;
        if p < i32::MIN as i64 {
            Fx(i32::MIN)
        } else if p > i32::MAX as i64 {
            Fx(i32::MAX)
        } else {
            Fx(p as i32)
        }
    }

    /// `self / rhs` for a whole-number `rhs`, rounded toward zero; a zero
    /// divisor gives the end of the range on the side of `self`.
    pub fn div_int(self, rhs: i32) -> (r: Fx)
        requires
            !(self@ == i32::MIN && rhs == -1),
        ensures
            rhs == 0 && self@ < 0 ==> r@ == i32::MIN,
            rhs == 0 && self@ >= 0 ==> r@ == i32::MAX,
            rhs != 0 ==> r@ == trunc_div(self@, rhs as int),
    {
        if rhs == 0 {
            return if self.0 < 0 {
                Fx(i32::MIN)
            } else {
                Fx(i32::MAX)
            };
        }
        if rhs == -1 {
            return Fx(-self.0);
        }
        if rhs == 1 {
            assert(abs_int(self@) / 1 == abs_int(self@));
            return self;
        }
        let q = div_toward_zero(self.0 as i64, rhs as i64);
        assert(abs_int(q as int) <= abs_int(self@) / 2) by {
            lemma_trunc_div_halves(self@, rhs as int);
        }
        Fx(q as i32)
    }

    /// Linear interpolation. `t` is not clamped.
    pub fn lerp(self, to: Fx, t: Fx) -> (r: Fx)
        ensures
            r@ == clamp_i32(self@ + clamp_i32(fixed_product(clamp_i32(to@ - self@), t@))),
    {
        self.add(to.sub(self).mul(t))
    }

    /// Reciprocal, saturating for zero.
    pub fn recip(self) -> (r: Fx)
        ensures
            self@ != 0 && fits_i32(fixed_quotient(65536, self@)) ==> r@ == fixed_quotient(
                65536,
                self@,
            ),
            self@ == 0 || !fits_i32(fixed_quotient(65536, self@)) ==> r@ == saturated_quotient(
                65536,
                self@,
                i32::MIN as int,
                i32::MAX as int,
            ),
    {
        Fx(65536).div(self)
    }
}

/// `a / b` rounded toward zero, computed on magnitudes so that no case of
/// signed division is left to the hardware.
pub(crate) fn div_toward_zero(a: i64, b: i64) -> (q: i64)
    requires
        b != 0,
        a > i64::MIN,
        b > i64::MIN,
    ensures
        q == trunc_div(a as int, b as int),
{
    let ua: u64 = if a < 0 { (-a) as u64 } else { a as u64 };
    let ub: u64 = if b < 0 { (-b) as u64 } else { b as u64 };
    let uq = ua / ub;
    assert(uq <= ua) by (nonlinear_arith)
        requires
            ub >= 1,
            uq == ua / ub,
    ;
    if (a >= 0) == (b > 0) || a == 0 {
        uq as i64
    } else {
        -(uq as i64)
    }
}

/// The remainder of [`div_toward_zero`], carrying the sign of `a`.
fn rem_toward_zero(a: i64, b: i64) -> (r: i64)
    requires
        b != 0,
        a > i64::MIN,
        b > i64::MIN,
    ensures
        r == trunc_rem(a as int, b as int),
        abs_int(r as int) < abs_int(b as int),
        abs_int(r as int) <= abs_int(a as int),
{
    let ua: u64 = if a < 0 { (-a) as u64 } else { a as u64 };
    let ub: u64 = if b < 0 { (-b) as u64 } else { b as u64 };
    let ur = ua % ub;
    assert(ur <= ua) by (nonlinear_arith)
        requires
            ub >= 1,
            ur == ua % ub,
    ;
    if a >= 0 {
        ur as i64
    } else {
        -(ur as i64)
    }
}

/// The saturated result of a division that `checked_div` refused: the end of
/// the range on the side of the true result, the top end for a zero
/// numerator.
fn saturate_div<T: Copy>(num: i64, den: i64, min: T, max: T) -> (r: T)
    ensures
        r == (if num == 0 || !((num < 0) != (den < 0)) {
            max
        } else {
            min
        }),
{
    let negative = (num < 0) != (den < 0);
    if num == 0 || !negative {
        max
    } else {
        min
    }
}


// ---------------------------------------------------------------------------
// Laws of the saturating arithmetic
// ---------------------------------------------------------------------------

/// Saturating addition is commutative, saturated or not.
pub proof fn lemma_add_commutative(a: Fx, b: Fx)
    ensures
        clamp_i32(a@ + b@) == clamp_i32(b@ + a@),
{
}

/// Addition is associative as long as no intermediate leaves the range:
/// there is no rounding step between operations.
pub proof fn lemma_add_associative(a: Fx, b: Fx, c: Fx)
    requires
        fits_i32(a@ + b@),
        fits_i32(b@ + c@),
        fits_i32(a@ + b@ + c@),
    ensures
        clamp_i32(clamp_i32(a@ + b@) + c@) == clamp_i32(a@ + clamp_i32(b@ + c@)),
{
}

/// Subtracting what was added gives the original back when the sum did not
/// saturate.
pub proof fn lemma_sub_inverts_add(a: Fx, b: Fx)
    requires
        fits_i32(a@ + b@),
    ensures
        clamp_i32(clamp_i32(a@ + b@) - b@) == a@,
{
    lemma_fx_view_range(a);
}

/// Saturating multiplication is commutative.
pub proof fn lemma_mul_commutative(a: Fx, b: Fx)
    ensures
        clamp_i32(fixed_product(a@, b@)) == clamp_i32(fixed_product(b@, a@)),
{
    assert(a@ * b@ == b@ * a@) by (nonlinear_arith);
}

/// Widening to [`FxWide`] and narrowing back never loses anything: the raw
/// value always fits the narrow type again.
pub proof fn lemma_widen_then_narrow(v: Fx)
    ensures
        fits_i32(v@),
{
    lemma_fx_view_range(v);
}

// ---------------------------------------------------------------------------
// Exact decimal text
// ---------------------------------------------------------------------------

/// Exact decimal text of a raw value with 16 fractional bits.
pub open spec fn raw_text(raw: int) -> Seq<char> {
    exact_decimal_text(raw < 0, abs_int(raw) as nat, 16)
}

/// The signed raw value (in 65536ths) that a decimal literal denotes, or why
/// it denotes none; the range of the receiving type is not yet applied.
pub open spec fn decimal_raw(s: Seq<char>) -> Result<int, DecimalFault> {
    match parse_decimal_spec(s) {
        Err(e) => Err(e),
        Ok((neg, whole, frac)) => {
            let total = (whole * 65536 + frac) as int;
            Ok(
                if neg {
                    -total
                } else {
                    total
                },
            )
        },
    }
}

/// Parsing the exact text of any raw value gives that raw value back.
pub proof fn lemma_raw_text_round_trip(raw: int)
    requires
        fits_i64(raw),
    ensures
        decimal_raw(raw_text(raw)) == Ok::<int, DecimalFault>(raw),
{
    let mag = abs_int(raw) as nat;
    lemma_exact_text_parses(raw < 0, mag);
    assert(mag == (mag / 65536) * 65536 + mag % 65536);
}

/// Every `Fx` survives a text round trip: [`Fx::parse_exact`] of
/// [`Fx::to_exact_string`] is the same value, never rounded.
pub proof fn lemma_fx_text_round_trip(v: Fx)
    ensures
        decimal_raw(raw_text(v@)) == Ok::<int, DecimalFault>(v@),
        fits_i32(v@),
{
    lemma_raw_text_round_trip(v@);
}

/// Every `FxWide` survives a text round trip: [`FxWide::parse_exact`] of
/// [`FxWide::to_exact_string`] is the same value.
pub proof fn lemma_fx_wide_text_round_trip(v: FxWide)
    ensures
        decimal_raw(raw_text(v@)) == Ok::<int, DecimalFault>(v@),
        fits_i64(v@),
{
    lemma_raw_text_round_trip(v@);
}

/// Render `int_part + frac_part / 65536` exactly, the two halves packed the
/// way [`Fx::to_exact_string`] packs them.
pub fn format_exact(neg: bool, int_part: u64, frac_part: u32) -> (out: String)
    ensures
        out@ == exact_decimal_text(neg, ((int_part << 16u64) | (frac_part as u64)) as nat, 16),
{
    exact_decimal_pow2(neg, (int_part << 16u64) | (frac_part as u64), FRAC_BITS)
}

/// Magnitude of a raw value, split and packed again by [`format_exact`].
fn format_raw(raw: i64) -> (out: String)
    ensures
        out@ == raw_text(raw as int),
{
    let mag: u64 = if raw < 0 {
        if raw == i64::MIN {
            0x8000_0000_0000_0000u64
        } else {
            (-raw) as u64
        }
    } else {
        raw as u64
    };
    assert(((mag >> 16u64) << 16u64) | ((mag & 0xFFFFu64) as u32) as u64 == mag) by (bit_vector);
    format_exact(raw < 0, mag >> 16u64, (mag & 0xFFFFu64) as u32)
}

/// Parse a decimal literal to a signed raw value within `lo ..= hi`.
fn parse_raw(s: &str, lo: i64, hi: i64) -> (r: Result<i64, FxParseError>)
    requires
        lo < 0 < hi,
    ensures
        match decimal_raw(s@) {
            Err(e) => r matches Err(err) && err.fault() == e,
            Ok(v) => if lo <= v <= hi {
                r matches Ok(raw) && raw == v
            } else {
                r matches Err(err) && err.fault() == DecimalFault::OutOfRange
            },
        },
{
    let (neg, whole, frac) = match parse_decimal(s) {
        Ok(t) => t,
        Err(e) => {
            return Err(e);
        },
    };
    let total = match whole.checked_mul(65536u128) {
        Some(w) => match w.checked_add(frac as u128) {
            Some(t) => t,
            None => {
                return Err(FxParseError::OutOfRange);
            },
        },
        None => {
            return Err(FxParseError::OutOfRange);
        },
    };
    if neg {
        let floor = (-(lo as i128)) as u128;
        if total > floor {
            return Err(FxParseError::OutOfRange);
        }
        Ok((-(total as i128)) as i64)
    } else {
        if total > hi as u128 {
            return Err(FxParseError::OutOfRange);
        }
        Ok(total as i64)
    }
}

impl Fx {
    /// Widen to the accumulator type. Always exact.
    pub fn wide(self) -> (r: FxWide)
        ensures
            r@ == self@,
    {
        FxWide(self.0 as i64)
    }

    /// Square root, rounded toward zero. Negative inputs return zero.
    pub fn sqrt(self) -> (r: Fx)
        ensures
            self@ <= 0 ==> r@ == 0,
            self@ > 0 ==> is_floor_sqrt(self@ * 65536, r@),
    {
        self.wide().sqrt()
    }

    /// Render exactly, always with at least one fractional digit.
    ///
    /// Every `Fx` has a terminating decimal expansion because its denominator
    /// is a power of two, so this never rounds and [`Fx::parse_exact`]
    /// recovers the identical value.
    pub fn to_exact_string(self) -> (out: String)
        ensures
            out@ == raw_text(self@),
    {
        format_raw(self.0 as i64)
    }

    /// Parse a decimal that is exactly representable.
    ///
    /// Returns [`FxParseError::NotRepresentable`] rather than rounding.
    pub fn parse_exact(s: &str) -> (r: Result<Fx, FxParseError>)
        ensures
            match decimal_raw(s@) {
                Err(e) => r matches Err(err) && err.fault() == e,
                Ok(v) => if fits_i32(v) {
                    r matches Ok(x) && x@ == v
                } else {
                    r matches Err(err) && err.fault() == DecimalFault::OutOfRange
                },
            },
    {
        match parse_raw(s, i32::MIN as i64, i32::MAX as i64) {
            Ok(raw) => Ok(Fx(raw as i32)),
            Err(e) => Err(e),
        }
    }
}

// ---------------------------------------------------------------------------
// FxWide
// ---------------------------------------------------------------------------

/// `r` is the square root of `n` rounded down, or the largest `Fx` when that
/// root does not fit.
pub open spec fn is_floor_sqrt(n: int, r: int) -> bool {
    &&& 0 <= r <= i32::MAX
    &&& r * r <= n
    &&& r < i32::MAX ==> n < (r + 1) * (r + 1)
}

/// A raw value rounded to the nearest whole number, half away from zero.
pub open spec fn rounded_int(v: int) -> int {
    if v >= 0 {
        (v + 32768) / 65536
    } else {
        -((-v + 32768) / 65536)
    }
}

/// Rounding is symmetric about zero: negating a value negates its rounding.
pub proof fn lemma_rounding_symmetric(v: int)
    ensures
        rounded_int(-v) == -rounded_int(v),
{
}

/// The square root is monotonic: a larger value never has a smaller root.
pub proof fn lemma_floor_sqrt_monotonic(n: int, m: int, r: int, s: int)
    requires
        is_floor_sqrt(n, r),
        is_floor_sqrt(m, s),
        n <= m,
    ensures
        r <= s,
{
    if r > s {
        assert((s + 1) * (s + 1) <= r * r) by (nonlinear_arith)
            requires
                0 <= s < r,
        ;
    }
}

/// The square root of a perfect square is exact.
pub proof fn lemma_floor_sqrt_of_square(k: int, r: int)
    requires
        0 <= k <= i32::MAX,
        is_floor_sqrt(k * k, r),
    ensures
        r == k,
{
    if r > k {
        assert(k * k < r * r) by (nonlinear_arith)
            requires
                0 <= k < r,
        ;
    } else if r < k {
        assert((r + 1) * (r + 1) <= k * k) by (nonlinear_arith)
            requires
                0 <= r < k,
        ;
    }
}

/// Narrowing a [`FxWide`] that does not fit in [`Fx`].
#[derive(Debug, Clone, PartialEq, Eq)]
pub struct Overflow {
    /// The value that could not be narrowed, rendered exactly.
    pub value: String,
    /// `Fx::MIN`, rendered exactly.
    pub min: &'static str,
    /// `Fx::MAX`, rendered exactly.
    pub max: &'static str,
}

impl Overflow {
    /// The human-readable message.
    pub fn message(&self) -> (out: String)
        ensures
            out@ == "value "@ + self.value@ + " does not fit in Fx (range "@ + self.min@ + " ..= "@
                + self.max@ + ")"@,
    {
        let mut out = String::new();
        crate::text::push_str(&mut out, "value ");
        crate::text::push_str(&mut out, self.value.as_str());
        crate::text::push_str(&mut out, " does not fit in Fx (range ");
        crate::text::push_str(&mut out, self.min);
        crate::text::push_str(&mut out, " ..= ");
        crate::text::push_str(&mut out, self.max);
        crate::text::push_str(&mut out, ")");
        out
    }
}

/// The accumulator: 48 integer bits, 16 fractional bits.
///
/// Its view is the raw backing integer, `value * 65536`.
#[derive(Clone, Copy, PartialEq, Eq, PartialOrd, Ord, Hash, Default, Debug)]
pub struct FxWide(i64);

impl View for FxWide {
    type V = int;

    closed spec fn view(&self) -> int {
        self.0 as int
    }
}

/// Two accumulators with the same raw value are the same accumulator.
pub broadcast proof fn lemma_fx_wide_view_injective(a: FxWide, b: FxWide)
    ensures
        #![trigger a@, b@]
        a@ == b@ ==> a == b,
{
}

/// Every accumulator's raw value fits in an `i64`.
pub broadcast proof fn lemma_fx_wide_view_range(a: FxWide)
    ensures
        fits_i64(#[trigger] a@),
{
}

impl FxWide {
    /// Zero.
    #[allow(non_snake_case)]
    pub fn ZERO() -> (r: FxWide)
        ensures
            r@ == 0,
    {
        FxWide(0)
    }

    /// One.
    #[allow(non_snake_case)]
    pub fn ONE() -> (r: FxWide)
        ensures
            r@ == 65536,
    {
        FxWide(65536)
    }

    /// The most negative representable value.
    #[allow(non_snake_case)]
    pub fn MIN() -> (r: FxWide)
        ensures
            r@ == i64::MIN,
    {
        FxWide(i64::MIN)
    }

    /// The largest representable value.
    #[allow(non_snake_case)]
    pub fn MAX() -> (r: FxWide)
        ensures
            r@ == i64::MAX,
    {
        FxWide(i64::MAX)
    }

    /// Construct from the raw backing integer (`value * 65536`).
    pub fn from_raw(raw: i64) -> (r: FxWide)
        ensures
            r@ == raw,
    {
        FxWide(raw)
    }

    /// The raw backing integer.
    pub fn to_raw(self) -> (r: i64)
        ensures
            r == self@,
    {
        self.0
    }

    /// Construct from a whole number, saturating if it is out of range.
    pub fn from_int(v: i64) -> (r: FxWide)
        ensures
            r@ == clamp_i64(v * 65536),
    {
        if v > 0x7FFF_FFFF_FFFF {
            FxWide(i64::MAX)
        } else if v < -0x8000_0000_0000 {
            FxWide(i64::MIN)
        } else {
            FxWide(v * 65536)
        }
    }

    /// Absolute value, saturating at [`FxWide::MAX`] for [`FxWide::MIN`].
    pub fn abs(self) -> (r: FxWide)
        ensures
            r@ == clamp_i64(abs_int(self@)),
    {
        if self.0 == i64::MIN {
            FxWide(i64::MAX)
        } else if self.0 < 0 {
            FxWide(-self.0)
        } else {
            self
        }
    }

    /// True when the value is exactly zero.
    pub fn is_zero(self) -> (r: bool)
        ensures
            r == (self@ == 0),
    {
        self.0 == 0
    }

    /// The smaller of two values.
    pub fn min(self, o: FxWide) -> (r: FxWide)
        ensures
            r@ == (if self@ <= o@ {
                self@
            } else {
                o@
            }),
    {
        if self.0 <= o.0 {
            self
        } else {
            o
        }
    }

    /// The larger of two values.
    pub fn max(self, o: FxWide) -> (r: FxWide)
        ensures
            r@ == (if self@ >= o@ {
                self@
            } else {
                o@
            }),
    {
        if self.0 >= o.0 {
            self
        } else {
            o
        }
    }

    /// Narrow back to [`Fx`], failing if the value does not fit.
    pub fn narrow(self) -> (r: Result<Fx, Overflow>)
        ensures
            fits_i32(self@) ==> (r matches Ok(v) && v@ == self@),
            !fits_i32(self@) ==> (r matches Err(e) && e.value@ == raw_text(self@) && e.min@
                == "-32768.0"@ && e.max@ == "32767.9999847412109375"@),
    {
        if self.0 < i32::MIN as i64 || self.0 > i32::MAX as i64 {
            Err(
                Overflow {
                    value: self.to_exact_string(),
                    min: "-32768.0",
                    max: "32767.9999847412109375",
                },
            )
        } else {
            Ok(Fx(self.0 as i32))
        }
    }

    /// Narrow back to [`Fx`], clamping instead of failing.
    pub fn narrow_saturating(self) -> (r: Fx)
        ensures
            r@ == clamp_i32(self@),
    {
        if self.0 < i32::MIN as i64 {
            Fx(i32::MIN)
        } else if self.0 > i32::MAX as i64 {
            Fx(i32::MAX)
        } else {
            Fx(self.0 as i32)
        }
    }

    /// Square root, rounded toward zero. Negative inputs return zero.
    ///
    /// The result of `sqrt` on a squared magnitude always lands back in `Fx`
    /// range, which is why this returns the narrow type directly.
    pub fn sqrt(self) -> (r: Fx)
        ensures
            self@ <= 0 ==> r@ == 0,
            self@ > 0 ==> is_floor_sqrt(self@ * 65536, r@),
    {
        let raw = self.0;
        if raw <= 0 {
            return Fx(0);
        }
        let scaled = (raw as u128) * 65536;
        let root = isqrt_u128(scaled);
        if root > i32::MAX as u128 {
            assert((i32::MAX as int) * (i32::MAX as int) <= scaled) by (nonlinear_arith)
                requires
                    root > i32::MAX,
                    root * root <= scaled,
            ;
            Fx(i32::MAX)
        } else {
            Fx(root as i32)
        }
    }

    /// Multiplication, `None` on overflow.
    pub fn checked_mul(self, rhs: FxWide) -> (r: Option<FxWide>)
        ensures
            fits_i64(fixed_product(self@, rhs@)) ==> (r matches Some(v) && v@ == fixed_product(
                self@,
                rhs@,
            )),
            !fits_i64(fixed_product(self@, rhs@)) ==> r is None,
    {
        match wide_checked_mul(self.0, rhs.0) {
            Some(v) => Some(FxWide(v)),
            None => None,
        }
    }

    /// Addition, `None` on overflow.
    pub fn checked_add(self, rhs: FxWide) -> (r: Option<FxWide>)
        ensures
            fits_i64(self@ + rhs@) ==> (r matches Some(v) && v@ == self@ + rhs@),
            !fits_i64(self@ + rhs@) ==> r is None,
    {
        match self.0.checked_add(rhs.0) {
            Some(v) => Some(FxWide(v)),
            None => None,
        }
    }

    /// Render exactly. See [`Fx::to_exact_string`].
    pub fn to_exact_string(self) -> (out: String)
        ensures
            out@ == raw_text(self@),
    {
        format_raw(self.0)
    }

    /// Parse a decimal that is exactly representable.
    pub fn parse_exact(s: &str) -> (r: Result<FxWide, FxParseError>)
        ensures
            match decimal_raw(s@) {
                Err(e) => r matches Err(err) && err.fault() == e,
                Ok(v) => if fits_i64(v) {
                    r matches Ok(x) && x@ == v
                } else {
                    r matches Err(err) && err.fault() == DecimalFault::OutOfRange
                },
            },
    {
        match parse_raw(s, i64::MIN, i64::MAX) {
            Ok(raw) => Ok(FxWide(raw)),
            Err(e) => Err(e),
        }
    }

    /// `self + r`, saturating at the ends of the range.
    pub fn add(self, r: FxWide) -> (out: FxWide)
        ensures
            out@ == clamp_i64(self@ + r@),
    {
        match self.0.checked_add(r.0) {
            Some(v) => FxWide(v),
            None => if self.0 < 0 {
                FxWide(i64::MIN)
            } else {
                FxWide(i64::MAX)
            },
        }
    }

    /// `self - r`, saturating at the ends of the range.
    pub fn sub(self, r: FxWide) -> (out: FxWide)
        ensures
            out@ == clamp_i64(self@ - r@),
    {
        match self.0.checked_sub(r.0) {
            Some(v) => FxWide(v),
            None => if self.0 < 0 {
                FxWide(i64::MIN)
            } else {
                FxWide(i64::MAX)
            },
        }
    }

    /// `self * r`, rounded toward negative infinity and saturating.
    pub fn mul(self, r: FxWide) -> (out: FxWide)
        ensures
            out@ == clamp_i64(fixed_product(self@, r@)),
    {
        FxWide(wide_saturating_mul(self.0, r.0))
    }

    /// `self / r`, rounded toward zero; out of range or by zero saturates
    /// toward the sign of the true result.
    pub fn div(self, r: FxWide) -> (out: FxWide)
        ensures
            r@ != 0 && fits_i64(fixed_quotient(self@, r@)) ==> out@ == fixed_quotient(self@, r@),
            r@ == 0 || !fits_i64(fixed_quotient(self@, r@)) ==> out@ == saturated_quotient(
                self@,
                r@,
                i64::MIN as int,
                i64::MAX as int,
            ),
    {
        match wide_checked_div(self.0, r.0) {
            Some(v) => FxWide(v),
            None => saturate_div(self.0, r.0, FxWide(i64::MIN), FxWide(i64::MAX)),
        }
    }

    /// `-self`, saturating at [`FxWide::MAX`] for [`FxWide::MIN`].
    pub fn neg(self) -> (r: FxWide)
        ensures
            r@ == clamp_i64(-self@),
    {
        if self.0 == i64::MIN {
            FxWide(i64::MAX)
        } else {
            FxWide(-self.0)
        }
    }
}

// ---------------------------------------------------------------------------
// Integer square root
// ---------------------------------------------------------------------------

/// `m * m`, named so that quantifiers over squares have something to match.
pub open spec fn square(m: int) -> int {
    m * m
}

/// One Newton step from above never undershoots: for any `m` with
/// `m * m <= n`, the step from `x` lands at or above `m`.
proof fn lemma_newton_step(n: int, x: int, m: int)
    requires
        x >= 1,
        n >= 0,
        m >= 0,
        m * m <= n,
    ensures
        (x + n / x) / 2 >= m,
{
    let q = n / x;
    assert(n < (q + 1) * x) by (nonlinear_arith)
        requires
            x >= 1,
            q == n / x,
    ;
    assert(q >= 0) by (nonlinear_arith)
        requires
            x >= 1,
            n >= 0,
            q == n / x,
    ;
    if x + q < 2 * m {
        // (q + 1) <= 2m - x, so m*m < (q+1)*x <= (2m - x)*x, i.e. (m - x)^2 < 0.
        assert(false) by (nonlinear_arith)
            requires
                x + q < 2 * m,
                m * m <= n,
                n < (q + 1) * x,
                x >= 1,
                q >= 0,
        ;
    }
}

/// Integer square root by Newton iteration: the largest `r` with `r * r <= n`.
///
/// Owned rather than taken from a platform math library on purpose: a
/// platform `sqrt` is not guaranteed bit-identical across targets, and one
/// differing low bit is a diverged replay.
pub fn isqrt_u128(n: u128) -> (r: u128)
    ensures
        r * r <= n,
        n < (r + 1) * (r + 1),
{
    if n < 2 {
        assert(n * n <= n && n < (n + 1) * (n + 1)) by (nonlinear_arith)
            requires
                n < 2,
        ;
        return n;
    }
    // Seed with the smallest power of two whose square exceeds `n`, so the
    // iteration starts above the root and decreases monotonically.
    let mut x: u128 = 1;
    while x <= n / x
        invariant
            1 <= x <= 0x2_0000_0000_0000_0000,
            n >= 2,
        decreases 0x2_0000_0000_0000_0000 - x,
    {
        assert(x * x <= n) by (nonlinear_arith)
            requires
                x >= 1,
                x <= n / x,
        ;
        assert(x < 0x1_0000_0000_0000_0000) by (nonlinear_arith)
            requires
                x * x <= n,
                n <= u128::MAX,
                x >= 1,
        ;
        x = x * 2;
    }
    assert(n < x * x) by (nonlinear_arith)
        requires
            x >= 1,
            x > n / x,
    ;
    assert forall|m: int| 0 <= m && #[trigger] square(m) <= n implies m <= x by {
        if m > x {
            assert(m * m > x * x) by (nonlinear_arith)
                requires
                    m > x,
                    x >= 1,
            ;
        }
    }
    loop
        invariant
            1 <= x <= 0x2_0000_0000_0000_0000,
            n >= 2,
            forall|m: int| 0 <= m && #[trigger] square(m) <= n ==> m <= x,
        decreases x,
    {
        assert(square(1) <= n);
        if x == 1 {
            assert(square(2) == 4);
            assert(n < 4) by {
                if n >= 4 {
                    assert(square(2) <= n);
                }
            }
        }
        let q = n / x;
        assert(q <= n / 2 || x == 1) by (nonlinear_arith)
            requires
                x >= 1,
                q == n / x,
                n >= 0,
        ;
        let next = (x + q) / 2;
        if next >= x {
            // The step did not decrease, so x * x <= n.
            assert(x * x <= n) by (nonlinear_arith)
                requires
                    x >= 1,
                    q == n / x,
                    (x + q) / 2 >= x,
            ;
            assert(n < (x + 1) * (x + 1)) by {
                if n >= (x + 1) * (x + 1) {
                    assert(square(x + 1) <= n);
                }
            }
            return x;
        }
        assert forall|m: int| 0 <= m && #[trigger] square(m) <= n implies m <= next by {
            lemma_newton_step(n as int, x as int, m);
        }
        x = next;
    }
}

/// Integer square root of a `u64`.
pub fn isqrt_u64(n: u64) -> (r: u64)
    ensures
        r * r <= n,
        n < (r + 1) * (r + 1),
{
    let r = isqrt_u128(n as u128);
    assert(r < 0x1_0000_0000) by (nonlinear_arith)
        requires
            r * r <= n,
            n < 0x1_0000_0000_0000_0000,
    ;
    r as u64
}
} // verus!
