//! How world space maps to screen space, in fixed point.
//!
//! Picking a world cell from a canvas pixel means inverting the camera, and a
//! picked cell decides what the simulation does. So the maths is here, once,
//! in fixed point: exact and identical on every machine.
use vstd::prelude::*;

use crate::fx::{clamp_i32, trunc_div, Fx};
use crate::vec::Vec2Fx;

verus! {

broadcast use crate::fx::lemma_fx_view_range;

/// How world space maps to screen space.
#[derive(Clone, Copy, PartialEq, Eq, Debug, Structural)]
pub enum Projection {
    /// World units are screen pixels. The identity.
    TopDown,
    /// The 2:1 shear the pixel-art genre actually ships: dimetric, though
    /// it is universally called isometric.
    Isometric,
}

impl Default for Projection {
    /// Top-down.
    fn default() -> (p: Projection)
        ensures
            p == Projection::TopDown,
    {
        Projection::TopDown
    }
}

impl Projection {
    /// Map a world position to screen space, in fixed point.
    pub fn project(self, world: Vec2Fx) -> (s: Vec2Fx)
        ensures
            self == Projection::TopDown ==> s == world,
            self == Projection::Isometric ==> s.x@ == clamp_i32(world.x@ - world.y@) && s.y@ == trunc_div(
                clamp_i32(world.x@ + world.y@),
                2,
            ),
    {
        match self {
            Projection::TopDown => world,
            Projection::Isometric => Vec2Fx::new(world.x.sub(world.y), world.x.add(world.y).div_int(2)),
        }
    }

    /// Map a screen position back to world space, in fixed point.
    ///
    /// Not an exact inverse of [`Projection::project`] at every input: the
    /// forward direction halves a sum, which discards the low bit of an odd
    /// value. It is exact for every position whose two raw coordinates have
    /// the same parity, and so for every whole cell.
    pub fn unproject(self, screen: Vec2Fx) -> (w: Vec2Fx)
        ensures
            self == Projection::TopDown ==> w == screen,
            self == Projection::Isometric ==> w.x@ == clamp_i32(screen.y@ + trunc_div(screen.x@, 2)) && w.y@
                == clamp_i32(screen.y@ - trunc_div(screen.x@, 2)),
    {
        match self {
            Projection::TopDown => screen,
            Projection::Isometric => {
                let half = screen.x.div_int(2);
                Vec2Fx::new(screen.y.add(half), screen.y.sub(half))
            },
        }
    }

    /// Depth ordering for a world position under this projection: further
    /// down the screen is nearer.
    pub fn depth_of(self, world: Vec2Fx) -> (d: Fx)
        ensures
            self == Projection::TopDown ==> d == world.y,
            self == Projection::Isometric ==> d@ == clamp_i32(world.x@ + world.y@),
    {
        match self {
            Projection::TopDown => world.y,
            Projection::Isometric => world.x.add(world.y),
        }
    }
}

/// A cell round-trips: unprojecting the projection of a world position whose
/// raw coordinates share a parity (every whole cell does) and stay clear of
/// the ends of the range gives the position back.
pub proof fn lemma_projection_round_trip(x: int, y: int)
    requires
        -0x4000_0000 <= x < 0x4000_0000,
        -0x4000_0000 <= y < 0x4000_0000,
        (x - y) % 2 == 0,
    ensures
        ({
            let sx = clamp_i32(x - y);
            let sy = trunc_div(clamp_i32(x + y), 2);
            &&& clamp_i32(sy + trunc_div(sx, 2)) == x
            &&& clamp_i32(sy - trunc_div(sx, 2)) == y
        }),
{
    let d = x - y;
    let s = x + y;
    assert(s % 2 == 0);
    lemma_even_halves(d);
    lemma_even_halves(s);
}

/// Halving an even number rounds no way at all.
proof fn lemma_even_halves(v: int)
    requires
        v % 2 == 0,
    ensures
        trunc_div(v, 2) == v / 2,
        (v / 2) * 2 == v,
{
    if v < 0 {
        assert(-((-v) / 2) == v / 2 && (v / 2) * 2 == v) by (nonlinear_arith)
            requires
                v % 2 == 0,
                v < 0,
        ;
    } else {
        assert((v / 2) * 2 == v) by (nonlinear_arith)
            requires
                v % 2 == 0,
                v >= 0,
        ;
    }
}

} // verus!
