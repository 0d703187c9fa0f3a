//! Axis-aligned rectangles.
use vstd::prelude::*;

use crate::fx::{clamp_i32, Fx};
use crate::vec::Vec2Fx;

verus! {

broadcast use crate::fx::lemma_fx_view_range;

/// An axis-aligned rectangle, stored as a corner and a size.
///
/// Width and height are expected to be non-negative; [`Rect::normalized`]
/// fixes a rectangle built from a drag that went up and to the left.
#[derive(Clone, Copy, PartialEq, Eq, Hash, Default, Debug)]
pub struct Rect {
    /// Minimum corner.
    pub pos: Vec2Fx,
    /// Extent from `pos`.
    pub size: Vec2Fx,
}

/// The smaller of two raw values.
pub open spec fn min_int(a: int, b: int) -> int {
    if a <= b { a } else { b }
}

/// The larger of two raw values.
pub open spec fn max_int(a: int, b: int) -> int {
    if a >= b { a } else { b }
}

/// The far corner of a rectangle, each coordinate saturating.
pub open spec fn far_x(r: Rect) -> int {
    clamp_i32(r.pos.x@ + r.size.x@)
}

/// The far corner's vertical coordinate.
pub open spec fn far_y(r: Rect) -> int {
    clamp_i32(r.pos.y@ + r.size.y@)
}

/// Whether two rectangles share interior area.
pub open spec fn overlap(a: Rect, b: Rect) -> bool {
    a.pos.x@ < far_x(b) && b.pos.x@ < far_x(a) && a.pos.y@ < far_y(b) && b.pos.y@ < far_y(a)
}

impl Rect {
    /// The empty rectangle at the origin.
    #[allow(non_snake_case)]
    pub fn ZERO() -> (r: Rect)
        ensures
            r.pos.x@ == 0 && r.pos.y@ == 0 && r.size.x@ == 0 && r.size.y@ == 0,
    {
        Rect { pos: Vec2Fx::ZERO(), size: Vec2Fx::ZERO() }
    }

    /// Construct from a corner and a size.
    pub fn new(pos: Vec2Fx, size: Vec2Fx) -> (r: Rect)
        ensures
            r.pos == pos,
            r.size == size,
    {
        Rect { pos, size }
    }

    /// Construct from two opposite corners, in either order.
    pub fn from_corners(a: Vec2Fx, b: Vec2Fx) -> (r: Rect)
        ensures
            r.pos.x@ == min_int(a.x@, b.x@),
            r.pos.y@ == min_int(a.y@, b.y@),
            r.size.x@ == clamp_i32(max_int(a.x@, b.x@) - min_int(a.x@, b.x@)),
            r.size.y@ == clamp_i32(max_int(a.y@, b.y@) - min_int(a.y@, b.y@)),
    {
        let min = a.min(b);
        Rect::new(min, a.max(b).sub(min))
    }

    /// Construct from a centre point and half-extents.
    pub fn from_center(center: Vec2Fx, half: Vec2Fx) -> (r: Rect)
        ensures
            r.pos.x@ == clamp_i32(center.x@ - half.x@),
            r.pos.y@ == clamp_i32(center.y@ - half.y@),
            r.size.x@ == clamp_i32(half.x@ * 2),
            r.size.y@ == clamp_i32(half.y@ * 2),
    {
        Rect::new(center.sub(half), half.mul_int(2))
    }

    /// Minimum corner.
    pub fn min(self) -> (r: Vec2Fx)
        ensures
            r == self.pos,
    {
        self.pos
    }

    /// Maximum corner.
    pub fn max(self) -> (r: Vec2Fx)
        ensures
            r.x@ == far_x(self),
            r.y@ == far_y(self),
    {
        self.pos.add(self.size)
    }

    /// Centre point.
    pub fn center(self) -> (r: Vec2Fx)
        ensures
            r.x@ == clamp_i32(self.pos.x@ + crate::fx::trunc_div(self.size.x@, 2)),
            r.y@ == clamp_i32(self.pos.y@ + crate::fx::trunc_div(self.size.y@, 2)),
    {
        self.pos.add(self.size.div_int(2))
    }

    /// Half the size.
    pub fn half_size(self) -> (r: Vec2Fx)
        ensures
            r.x@ == crate::fx::trunc_div(self.size.x@, 2),
            r.y@ == crate::fx::trunc_div(self.size.y@, 2),
    {
        self.size.div_int(2)
    }

    /// Width.
    pub fn width(self) -> (r: Fx)
        ensures
            r == self.size.x,
    {
        self.size.x
    }

    /// Height.
    pub fn height(self) -> (r: Fx)
        ensures
            r == self.size.y,
    {
        self.size.y
    }

    /// True when either dimension is zero or negative.
    pub fn is_empty(self) -> (r: bool)
        ensures
            r == (self.size.x@ <= 0 || self.size.y@ <= 0),
    {
        self.size.x.to_raw() <= 0 || self.size.y.to_raw() <= 0
    }

    /// The same region with non-negative extents.
    pub fn normalized(self) -> (r: Rect)
        ensures
            r.pos.x@ == min_int(self.pos.x@, far_x(self)),
            r.pos.y@ == min_int(self.pos.y@, far_y(self)),
            r.size.x@ == clamp_i32(max_int(self.pos.x@, far_x(self)) - min_int(self.pos.x@, far_x(self))),
            r.size.y@ == clamp_i32(max_int(self.pos.y@, far_y(self)) - min_int(self.pos.y@, far_y(self))),
    {
        Rect::from_corners(self.pos, self.max())
    }

    /// True when `p` is inside, treating the minimum edges as inside and the
    /// maximum edges as outside.
    ///
    /// Half-open on purpose: tiled regions built this way tessellate without
    /// double-counting a point on a shared border.
    pub fn contains(self, p: Vec2Fx) -> (r: bool)
        ensures
            r == (p.x@ >= self.pos.x@ && p.y@ >= self.pos.y@ && p.x@ < far_x(self) && p.y@ < far_y(self)),
    {
        let max = self.max();
        p.x.to_raw() >= self.pos.x.to_raw() && p.y.to_raw() >= self.pos.y.to_raw() && p.x.to_raw()
            < max.x.to_raw() && p.y.to_raw() < max.y.to_raw()
    }

    /// True when the two rectangles share any interior area.
    pub fn intersects(self, o: Rect) -> (r: bool)
        ensures
            r == overlap(self, o),
    {
        let a_max = self.max();
        let b_max = o.max();
        self.pos.x.to_raw() < b_max.x.to_raw() && o.pos.x.to_raw() < a_max.x.to_raw()
            && self.pos.y.to_raw() < b_max.y.to_raw() && o.pos.y.to_raw() < a_max.y.to_raw()
    }

    /// The overlapping region, or `None` when they do not overlap.
    pub fn intersection(self, o: Rect) -> (r: Option<Rect>)
        ensures
            !overlap(self, o) ==> r is None,
            overlap(self, o) ==> (r matches Some(i) && i.pos.x@ == max_int(self.pos.x@, o.pos.x@) && i.pos.y@
                == max_int(self.pos.y@, o.pos.y@) && i.size.x@ == clamp_i32(
                min_int(far_x(self), far_x(o)) - max_int(self.pos.x@, o.pos.x@),
            ) && i.size.y@ == clamp_i32(min_int(far_y(self), far_y(o)) - max_int(self.pos.y@, o.pos.y@))),
    {
        if !self.intersects(o) {
            return None;
        }
        let min = self.pos.max(o.pos);
        Some(Rect::new(min, self.max().min(o.max()).sub(min)))
    }

    /// The smallest rectangle containing both.
    pub fn union(self, o: Rect) -> (r: Rect)
        ensures
            r.pos.x@ == min_int(self.pos.x@, o.pos.x@),
            r.pos.y@ == min_int(self.pos.y@, o.pos.y@),
            r.size.x@ == clamp_i32(max_int(far_x(self), far_x(o)) - min_int(self.pos.x@, o.pos.x@)),
            r.size.y@ == clamp_i32(max_int(far_y(self), far_y(o)) - min_int(self.pos.y@, o.pos.y@)),
    {
        let min = self.pos.min(o.pos);
        Rect::new(min, self.max().max(o.max()).sub(min))
    }

    /// Grown by `amount` on every side. A negative amount shrinks.
    pub fn expanded(self, amount: Fx) -> (r: Rect)
        ensures
            r.pos.x@ == clamp_i32(self.pos.x@ - amount@),
            r.pos.y@ == clamp_i32(self.pos.y@ - amount@),
            r.size.x@ == clamp_i32(self.size.x@ + clamp_i32(amount@ * 2)),
            r.size.y@ == clamp_i32(self.size.y@ + clamp_i32(amount@ * 2)),
    {
        let d = Vec2Fx::new(amount, amount);
        Rect::new(self.pos.sub(d), self.size.add(d.mul_int(2)))
    }

    /// Moved by `offset`.
    pub fn translated(self, offset: Vec2Fx) -> (r: Rect)
        ensures
            r.pos.x@ == clamp_i32(self.pos.x@ + offset.x@),
            r.pos.y@ == clamp_i32(self.pos.y@ + offset.y@),
            r.size == self.size,
    {
        Rect::new(self.pos.add(offset), self.size)
    }

    /// The point inside the rectangle closest to `p`: clamped up to the
    /// minimum corner, then down to the maximum.
    pub fn closest_point(self, p: Vec2Fx) -> (r: Vec2Fx)
        ensures
            r.x@ == min_int(max_int(p.x@, self.pos.x@), far_x(self)),
            r.y@ == min_int(max_int(p.y@, self.pos.y@), far_y(self)),
    {
        p.max(self.min()).min(self.max())
    }
}

/// Half-open tiling: of two rectangles side by side, the second starting
/// where the first ends, no point lies in both.
pub proof fn lemma_neighbours_share_no_point(a: Rect, b: Rect, p: Vec2Fx)
    requires
        b.pos.x@ == far_x(a),
    ensures
        !(p.x@ >= a.pos.x@ && p.y@ >= a.pos.y@ && p.x@ < far_x(a) && p.y@ < far_y(a)
            && p.x@ >= b.pos.x@ && p.y@ >= b.pos.y@ && p.x@ < far_x(b) && p.y@ < far_y(b)),
{
}

} // verus!
