//! Foundation types and asset logic for a deterministic 2D engine:
//! fixed-point scalars, binary angles, seeded randomness, stable identity,
//! state hashing, structured diagnostics, and the import-time asset logic.
use vstd::prelude::*;

pub mod agent;
pub mod angle;
pub mod assets;
pub mod audio;
pub mod decimal;
pub mod diag;
pub mod fx;
pub mod hash;
pub mod id;
pub mod projection;
pub mod rect;
pub mod rng;
pub mod text;
pub mod trig_table;
pub mod vec;

verus! {

/// A tick number. Simulation sees these and never a wall clock.
#[derive(Clone, Copy, PartialEq, Eq, PartialOrd, Ord, Hash, Debug, Default, Structural)]
pub struct Tick(pub u64);

impl Tick {
    /// The tick before any simulation has run.
    #[allow(non_snake_case)]
    pub fn ZERO() -> (t: Tick)
        ensures
            t.0 == 0,
    {
        Tick(0)
    }

    /// The next tick.
    pub fn next(self) -> (t: Tick)
        requires
            self.0 < u64::MAX,
        ensures
            t.0 == self.0 + 1,
    {
        Tick(self.0 + 1)
    }
}

} // verus!
