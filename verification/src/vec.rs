//! Two-dimensional fixed-point vectors.
//!
//! Note which operations widen. Anything that multiplies two components
//! together — [`Vec2Fx::dot`], [`Vec2Fx::cross`], [`Vec2Fx::length_squared`]
//! — returns [`FxWide`], because the result leaves `Fx` range for any two
//! points more than 181 units apart.
use vstd::prelude::*;

use crate::angle::{from_vector_spec, sin_spec, Angle};
use crate::fx::{clamp_i32, clamp_i64, fits_i32, fits_i64, fixed_product, fixed_quotient, is_floor_sqrt, trunc_div, Fx, FxWide};

verus! {

broadcast use crate::fx::lemma_fx_view_range;

/// A position, offset or velocity in world space.
#[derive(Clone, Copy, PartialEq, Eq, PartialOrd, Ord, Hash, Default, Debug)]
pub struct Vec2Fx {
    /// Horizontal component.
    pub x: Fx,
    /// Vertical component.
    pub y: Fx,
}

/// Shorthand for [`Vec2Fx::new`].
pub fn vec2(x: Fx, y: Fx) -> (v: Vec2Fx)
    ensures
        v.x == x,
        v.y == y,
{
    Vec2Fx { x, y }
}

/// The product of two scalars in wide arithmetic never leaves `2^46` in
/// magnitude, so sums and differences of two of them are exact.
pub proof fn lemma_product_small(a: int, b: int)
    requires
        fits_i32(a),
        fits_i32(b),
    ensures
        -0x4000_0000_0000 <= fixed_product(a, b) <= 0x4000_0000_0000,
{
    assert(-0x4000_0000_0000_0000 <= a * b <= 0x4000_0000_0000_0000) by (nonlinear_arith)
        requires
            -0x8000_0000 <= a <= 0x7fff_ffff,
            -0x8000_0000 <= b <= 0x7fff_ffff,
    ;
}

/// `a * b + c * d` in wide fixed point, which is always exact.
fn wide_sum_of_products(a: Fx, b: Fx, c: Fx, d: Fx) -> (r: FxWide)
    ensures
        r@ == fixed_product(a@, b@) + fixed_product(c@, d@),
{
    proof {
        lemma_product_small(a@, b@);
        lemma_product_small(c@, d@);
    }
    a.wide().mul(b.wide()).add(c.wide().mul(d.wide()))
}

/// `a * b - c * d` in wide fixed point, which is always exact.
fn wide_difference_of_products(a: Fx, b: Fx, c: Fx, d: Fx) -> (r: FxWide)
    ensures
        r@ == fixed_product(a@, b@) - fixed_product(c@, d@),
{
    proof {
        lemma_product_small(a@, b@);
        lemma_product_small(c@, d@);
    }
    a.wide().mul(b.wide()).sub(c.wide().mul(d.wide()))
}

/// The squared length of `(x, y)`, in wide fixed point.
pub open spec fn length_squared_spec(x: int, y: int) -> int {
    fixed_product(x, x) + fixed_product(y, y)
}

/// The length of `(x, y)`: the square root of the squared length, rounded
/// toward zero; zero when the squared length rounds to nothing.
pub open spec fn is_length_of(x: int, y: int, len: int) -> bool {
    let sq = length_squared_spec(x, y);
    &&& sq <= 0 ==> len == 0
    &&& sq > 0 ==> is_floor_sqrt(sq * 65536, len)
}

impl Vec2Fx {
    /// The origin.
    #[allow(non_snake_case)]
    pub fn ZERO() -> (v: Vec2Fx)
        ensures
            v.x@ == 0,
            v.y@ == 0,
    {
        Vec2Fx::from_raw(0, 0)
    }

    /// `(1, 1)`, the identity for component-wise scaling.
    #[allow(non_snake_case)]
    pub fn ONE() -> (v: Vec2Fx)
        ensures
            v.x@ == 65536,
            v.y@ == 65536,
    {
        Vec2Fx::from_raw(65536, 65536)
    }

    /// `(1, 0)`.
    #[allow(non_snake_case)]
    pub fn X() -> (v: Vec2Fx)
        ensures
            v.x@ == 65536,
            v.y@ == 0,
    {
        Vec2Fx::from_raw(65536, 0)
    }

    /// `(0, 1)`.
    #[allow(non_snake_case)]
    pub fn Y() -> (v: Vec2Fx)
        ensures
            v.x@ == 0,
            v.y@ == 65536,
    {
        Vec2Fx::from_raw(0, 65536)
    }

    /// Construct from components.
    pub fn new(x: Fx, y: Fx) -> (v: Vec2Fx)
        ensures
            v.x == x,
            v.y == y,
    {
        Vec2Fx { x, y }
    }

    /// Construct from whole numbers, saturating.
    pub fn from_ints(x: i32, y: i32) -> (v: Vec2Fx)
        ensures
            v.x@ == clamp_i32(x * 65536),
            v.y@ == clamp_i32(y * 65536),
    {
        Vec2Fx::new(Fx::from_int(x), Fx::from_int(y))
    }

    /// Construct from raw backing integers.
    pub fn from_raw(x: i32, y: i32) -> (v: Vec2Fx)
        ensures
            v.x@ == x,
            v.y@ == y,
    {
        Vec2Fx::new(Fx::from_raw(x), Fx::from_raw(y))
    }

    /// True when both components are exactly zero.
    pub fn is_zero(self) -> (r: bool)
        ensures
            r == (self.x@ == 0 && self.y@ == 0),
    {
        self.x.is_zero() && self.y.is_zero()
    }

    /// Dot product. Widens, and is exact.
    pub fn dot(self, o: Vec2Fx) -> (r: FxWide)
        ensures
            r@ == fixed_product(self.x@, o.x@) + fixed_product(self.y@, o.y@),
    {
        wide_sum_of_products(self.x, o.x, self.y, o.y)
    }

    /// The z component of the 3D cross product. Widens, and is exact.
    ///
    /// Its sign is which side of `self` the vector `o` falls on, which is how
    /// polygon winding and separating-axis tests are decided.
    pub fn cross(self, o: Vec2Fx) -> (r: FxWide)
        ensures
            r@ == fixed_product(self.x@, o.y@) - fixed_product(self.y@, o.x@),
    {
        wide_difference_of_products(self.x, o.y, self.y, o.x)
    }

    /// Squared magnitude. Widens.
    ///
    /// Prefer this to [`Vec2Fx::length`] whenever comparing against a radius:
    /// squaring the radius once is cheaper and exact, while `length` costs a
    /// square root and truncates.
    pub fn length_squared(self) -> (r: FxWide)
        ensures
            r@ == length_squared_spec(self.x@, self.y@),
    {
        self.dot(self)
    }

    /// Magnitude, rounded toward zero.
    pub fn length(self) -> (r: Fx)
        ensures
            is_length_of(self.x@, self.y@, r@),
    {
        self.length_squared().sqrt()
    }

    /// Squared distance to another point, over saturating component
    /// differences. Widens.
    pub fn distance_squared(self, o: Vec2Fx) -> (r: FxWide)
        ensures
            r@ == length_squared_spec(clamp_i32(o.x@ - self.x@), clamp_i32(o.y@ - self.y@)),
    {
        o.sub(self).length_squared()
    }

    /// Distance to another point.
    pub fn distance(self, o: Vec2Fx) -> (r: Fx)
        ensures
            is_length_of(clamp_i32(o.x@ - self.x@), clamp_i32(o.y@ - self.y@), r@),
    {
        o.sub(self).length()
    }

    /// A unit vector in the same direction, or zero if `self` is too short
    /// to have a length.
    ///
    /// The division happens at 32 fractional bits and is then truncated back,
    /// so short vectors do not lose their direction the way a naive
    /// `self / self.length()` would.
    pub fn normalized(self) -> (r: Vec2Fx)
        ensures
            is_normal_of(self, r),
    {
        let l = self.length();
        let len = l.to_raw() as i64;
        if len == 0 {
            return Vec2Fx::ZERO();
        }
        proof {
            lemma_normalized_fits(self.x@, self.y@, len as int);
            lemma_normalized_fits(self.y@, self.x@, len as int);
        }
        let qx = crate::fx::div_toward_zero((self.x.to_raw() as i64) * 65536, len);
        let qy = crate::fx::div_toward_zero((self.y.to_raw() as i64) * 65536, len);
        Vec2Fx::from_raw(qx as i32, qy as i32)
    }
}

impl Vec2Fx {
    /// Component-wise sum, saturating.
    pub fn add(self, o: Vec2Fx) -> (r: Vec2Fx)
        ensures
            r.x@ == clamp_i32(self.x@ + o.x@),
            r.y@ == clamp_i32(self.y@ + o.y@),
    {
        Vec2Fx::new(self.x.add(o.x), self.y.add(o.y))
    }

    /// Component-wise difference, saturating.
    pub fn sub(self, o: Vec2Fx) -> (r: Vec2Fx)
        ensures
            r.x@ == clamp_i32(self.x@ - o.x@),
            r.y@ == clamp_i32(self.y@ - o.y@),
    {
        Vec2Fx::new(self.x.sub(o.x), self.y.sub(o.y))
    }

    /// Both components negated, saturating.
    pub fn neg(self) -> (r: Vec2Fx)
        ensures
            r.x@ == clamp_i32(-self.x@),
            r.y@ == clamp_i32(-self.y@),
    {
        Vec2Fx::new(self.x.neg(), self.y.neg())
    }

    /// Scaled by `s`, saturating.
    pub fn mul(self, s: Fx) -> (r: Vec2Fx)
        ensures
            r.x@ == clamp_i32(fixed_product(self.x@, s@)),
            r.y@ == clamp_i32(fixed_product(self.y@, s@)),
    {
        Vec2Fx::new(self.x.mul(s), self.y.mul(s))
    }

    /// Scaled by a whole number, saturating.
    pub fn mul_int(self, s: i32) -> (r: Vec2Fx)
        ensures
            r.x@ == clamp_i32(self.x@ * s),
            r.y@ == clamp_i32(self.y@ * s),
    {
        Vec2Fx::new(self.x.mul_int(s), self.y.mul_int(s))
    }

    /// Divided by `s`, component by component as [`Fx::div`] does.
    pub fn div(self, s: Fx) -> (r: Vec2Fx)
        ensures
            r.x@ == scalar_quotient(self.x@, s@),
            r.y@ == scalar_quotient(self.y@, s@),
    {
        Vec2Fx::new(self.x.div(s), self.y.div(s))
    }

    /// Divided by a whole number, rounded toward zero.
    pub fn div_int(self, s: i32) -> (r: Vec2Fx)
        requires
            s != 0,
            !(self.x@ == i32::MIN && s == -1),
            !(self.y@ == i32::MIN && s == -1),
        ensures
            r.x@ == trunc_div(self.x@, s as int),
            r.y@ == trunc_div(self.y@, s as int),
    {
        Vec2Fx::new(self.x.div_int(s), self.y.div_int(s))
    }

    /// `*self = *self + o`.
    pub fn add_assign(&mut self, o: Vec2Fx)
        ensures
            final(self).x@ == clamp_i32(old(self).x@ + o.x@),
            final(self).y@ == clamp_i32(old(self).y@ + o.y@),
    {
        *self = self.add(o);
    }

    /// `*self = *self - o`.
    pub fn sub_assign(&mut self, o: Vec2Fx)
        ensures
            final(self).x@ == clamp_i32(old(self).x@ - o.x@),
            final(self).y@ == clamp_i32(old(self).y@ - o.y@),
    {
        *self = self.sub(o);
    }

    /// A vector in the same direction with magnitude `len`.
    pub fn with_length(self, len: Fx) -> (r: Vec2Fx)
        ensures
            exists|n: Vec2Fx|
                #[trigger] is_normal_of(self, n) && r.x@ == clamp_i32(fixed_product(n.x@, len@)) && r.y@
                    == clamp_i32(fixed_product(n.y@, len@)),
    {
        let n = self.normalized();
        n.mul(len)
    }

    /// Clamp the magnitude to at most `max`: unchanged when its squared
    /// length is within `max` squared, else [`Vec2Fx::with_length`] `max`.
    pub fn clamp_length(self, max: Fx) -> (r: Vec2Fx)
        ensures
            length_squared_spec(self.x@, self.y@) <= fixed_product(max@, max@) ==> r == self,
            length_squared_spec(self.x@, self.y@) > fixed_product(max@, max@) ==> exists|n: Vec2Fx|
                #[trigger] is_normal_of(self, n) && r.x@ == clamp_i32(fixed_product(n.x@, max@)) && r.y@
                    == clamp_i32(fixed_product(n.y@, max@)),
    {
        proof {
            lemma_product_small(max@, max@);
        }
        let max_sq = max.wide().mul(max.wide());
        if self.length_squared().to_raw() <= max_sq.to_raw() {
            self
        } else {
            self.with_length(max)
        }
    }

    /// Rotated a quarter turn counter-clockwise. Exact but for the one
    /// value that saturates.
    pub fn perp(self) -> (r: Vec2Fx)
        ensures
            r.x@ == clamp_i32(-self.y@),
            r.y@ == self.x@,
    {
        Vec2Fx::new(self.y.neg(), self.x)
    }

    /// Rotated by `angle`, with the table sine and cosine.
    pub fn rotated(self, angle: Angle) -> (r: Vec2Fx)
        ensures
            ({
                let s = sin_spec(angle@);
                let c = sin_spec((angle@ + 16384) % 65536);
                &&& r.x@ == clamp_i32(clamp_i32(fixed_product(self.x@, c)) - clamp_i32(fixed_product(self.y@, s)))
                &&& r.y@ == clamp_i32(clamp_i32(fixed_product(self.x@, s)) + clamp_i32(fixed_product(self.y@, c)))
            }),
    {
        let (sin, cos) = angle.sin_cos();
        Vec2Fx::new(self.x.mul(cos).sub(self.y.mul(sin)), self.x.mul(sin).add(self.y.mul(cos)))
    }

    /// The direction this vector points.
    pub fn to_angle(self) -> (a: Angle)
        ensures
            a@ == from_vector_spec(self.x@, self.y@),
    {
        Angle::from_vector(self.x, self.y)
    }

    /// Component-wise product.
    pub fn mul_components(self, o: Vec2Fx) -> (r: Vec2Fx)
        ensures
            r.x@ == clamp_i32(fixed_product(self.x@, o.x@)),
            r.y@ == clamp_i32(fixed_product(self.y@, o.y@)),
    {
        Vec2Fx::new(self.x.mul(o.x), self.y.mul(o.y))
    }

    /// Component-wise minimum.
    pub fn min(self, o: Vec2Fx) -> (r: Vec2Fx)
        ensures
            r.x@ == (if self.x@ <= o.x@ { self.x@ } else { o.x@ }),
            r.y@ == (if self.y@ <= o.y@ { self.y@ } else { o.y@ }),
    {
        Vec2Fx::new(self.x.min(o.x), self.y.min(o.y))
    }

    /// Component-wise maximum.
    pub fn max(self, o: Vec2Fx) -> (r: Vec2Fx)
        ensures
            r.x@ == (if self.x@ >= o.x@ { self.x@ } else { o.x@ }),
            r.y@ == (if self.y@ >= o.y@ { self.y@ } else { o.y@ }),
    {
        Vec2Fx::new(self.x.max(o.x), self.y.max(o.y))
    }

    /// Component-wise absolute value, saturating.
    pub fn abs(self) -> (r: Vec2Fx)
        ensures
            r.x@ == clamp_i32(crate::fx::abs_int(self.x@)),
            r.y@ == clamp_i32(crate::fx::abs_int(self.y@)),
    {
        Vec2Fx::new(self.x.abs(), self.y.abs())
    }

    /// Linear interpolation, component by component. `t` is not clamped.
    pub fn lerp(self, to: Vec2Fx, t: Fx) -> (r: Vec2Fx)
        ensures
            r.x@ == clamp_i32(self.x@ + clamp_i32(fixed_product(clamp_i32(to.x@ - self.x@), t@))),
            r.y@ == clamp_i32(self.y@ + clamp_i32(fixed_product(clamp_i32(to.y@ - self.y@), t@))),
    {
        Vec2Fx::new(self.x.lerp(to.x, t), self.y.lerp(to.y, t))
    }

    /// Reflect across the surface with unit normal `normal`:
    /// `self - normal * 2(self · normal)`, the doubled dot product clamped
    /// into `Fx`.
    pub fn reflected(self, normal: Vec2Fx) -> (r: Vec2Fx)
        ensures
            ({
                let twice = clamp_i32(
                    clamp_i64(fixed_product(fixed_product(self.x@, normal.x@) + fixed_product(self.y@, normal.y@), 131072)),
                );
                &&& r.x@ == clamp_i32(self.x@ - clamp_i32(fixed_product(normal.x@, twice)))
                &&& r.y@ == clamp_i32(self.y@ - clamp_i32(fixed_product(normal.y@, twice)))
            }),
    {
        let twice = self.dot(normal).mul(FxWide::from_int(2)).narrow_saturating();
        self.sub(normal.mul(twice))
    }

    /// The part of `self` that survives sliding along a surface with unit
    /// normal `normal`: unchanged when it does not point into the surface,
    /// else with the part that does removed.
    pub fn slid_along(self, normal: Vec2Fx) -> (r: Vec2Fx)
        ensures
            ({
                let into = clamp_i32(fixed_product(self.x@, normal.x@) + fixed_product(self.y@, normal.y@));
                &&& into >= 0 ==> r == self
                &&& into < 0 ==> r.x@ == clamp_i32(self.x@ - clamp_i32(fixed_product(normal.x@, into)))
                    && r.y@ == clamp_i32(self.y@ - clamp_i32(fixed_product(normal.y@, into)))
            }),
    {
        let into = self.dot(normal).narrow_saturating();
        if into.to_raw() >= 0 {
            self
        } else {
            self.sub(normal.mul(into))
        }
    }

    /// The sum of some vectors, saturating as it goes.
    pub fn sum(items: &[Vec2Fx]) -> (r: Vec2Fx)
        ensures
            r.x@ == saturating_sum(items@, |v: Vec2Fx| v.x@, items@.len() as int),
            r.y@ == saturating_sum(items@, |v: Vec2Fx| v.y@, items@.len() as int),
    {
        let mut acc = Vec2Fx::ZERO();
        let mut i: usize = 0;
        while i < items.len()
            invariant
                i <= items@.len(),
                acc.x@ == saturating_sum(items@, |v: Vec2Fx| v.x@, i as int),
                acc.y@ == saturating_sum(items@, |v: Vec2Fx| v.y@, i as int),
            decreases items@.len() - i,
        {
            acc = acc.add(items[i]);
            i = i + 1;
        }
        acc
    }
}

/// What [`Fx::div`] gives: the quotient rounded toward zero, or the end of
/// the range on the side of the true result when that does not fit.
pub open spec fn scalar_quotient(a: int, b: int) -> int {
    if b != 0 && fits_i32(fixed_quotient(a, b)) {
        fixed_quotient(a, b)
    } else {
        crate::fx::saturated_quotient(a, b, i32::MIN as int, i32::MAX as int)
    }
}

/// `n` is what [`Vec2Fx::normalized`] gives for `v`.
pub open spec fn is_normal_of(v: Vec2Fx, n: Vec2Fx) -> bool {
    exists|len: int|
        #[trigger] is_length_of(v.x@, v.y@, len) && (len == 0 ==> n.x@ == 0 && n.y@ == 0) && (len != 0 ==> n.x@
            == trunc_div(v.x@ * 65536, len) && n.y@ == trunc_div(v.y@ * 65536, len))
}

/// The sum of one component over the first `n` vectors, clamped after each
/// addition.
pub open spec fn saturating_sum(items: Seq<Vec2Fx>, part: spec_fn(Vec2Fx) -> int, n: int) -> int
    decreases n,
{
    if n <= 0 {
        0
    } else {
        clamp_i32(saturating_sum(items, part, n - 1) + part(items[n - 1]))
    }
}

/// A vector has exactly one length.
pub proof fn lemma_length_unique(x: int, y: int, a: int, b: int)
    requires
        is_length_of(x, y, a),
        is_length_of(x, y, b),
    ensures
        a == b,
{
    let n = length_squared_spec(x, y) * 65536;
    if length_squared_spec(x, y) > 0 && a != b {
        if a < b {
            assert((a + 1) * (a + 1) <= b * b) by (nonlinear_arith)
                requires
                    0 <= a < b,
            ;
        } else {
            assert((b + 1) * (b + 1) <= a * a) by (nonlinear_arith)
                requires
                    0 <= b < a,
            ;
        }
    }
}

/// A normalised component fits: `|x| * 65536 / len` stays below `2^17` for
/// any non-zero length of a vector with component `x`.
proof fn lemma_normalized_fits(x: int, y: int, len: int)
    requires
        fits_i32(x),
        fits_i32(y),
        is_length_of(x, y, len),
        len != 0,
    ensures
        -0x2_0000 <= trunc_div(x * 65536, len) <= 0x2_0000,
{
    let sq = length_squared_spec(x, y);
    let n = sq * 65536;
    assert(x * x >= 0 && y * y >= 0) by (nonlinear_arith);
    assert(65536 * fixed_product(x, x) >= x * x - 65535);
    assert(fixed_product(y, y) >= 0);
    assert(sq >= 1);
    let ax = if x < 0 { -x } else { x };
    assert(ax * ax == x * x) by (nonlinear_arith)
        requires
            ax == x || ax == -x,
    ;
    if len < i32::MAX {
        assert(n < (len + 1) * (len + 1));
        assert(len >= 256) by (nonlinear_arith)
            requires
                n >= 65536,
                n < (len + 1) * (len + 1),
                len >= 0,
        ;
        assert(ax < 2 * len) by (nonlinear_arith)
            requires
                ax * ax < (len + 1) * (len + 1) + 65535,
                len >= 256,
                ax >= 0,
        ;
    } else {
        assert(ax <= 2 * len);
    }
    assert(ax * 65536 / len <= 0x2_0000) by (nonlinear_arith)
        requires
            ax <= 2 * len,
            len >= 1,
            ax >= 0,
    ;
    assert(crate::fx::abs_int(x * 65536) == ax * 65536);
    assert(crate::fx::abs_int(len) == len);
}


impl Vec2Fx {
    /// The vector written out: `(x, y)`, each component exact.
    pub fn to_text(self) -> (out: String)
        ensures
            out@ == "("@ + crate::fx::raw_text(self.x@) + ", "@ + crate::fx::raw_text(self.y@) + ")"@,
    {
        let mut out = crate::text::string_from("(");
        let x = self.x.to_exact_string();
        crate::text::push_str(&mut out, x.as_str());
        crate::text::push_str(&mut out, ", ");
        let y = self.y.to_exact_string();
        crate::text::push_str(&mut out, y.as_str());
        crate::text::push_str(&mut out, ")");
        out
    }
}

} // verus!
