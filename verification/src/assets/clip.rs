//! Animation clips, and the conversion that has to happen at import time.
use vstd::prelude::*;

verus! {

/// Whole ticks for a frame of `ms` milliseconds at `tick_rate` ticks per
/// second: rounded half away from zero, never zero, kept to 32 bits.
pub open spec fn ticks_for(ms: int, tick_rate: int) -> u32 {
    let t = (ms * tick_rate * 2 + 1000) / 2000;
    (if t < 1 {
        1
    } else {
        t
    }) as u32
}

/// `ms` milliseconds at `tick_rate` ticks a second convert without
/// overflowing the 64-bit sum the conversion rounds through.
pub open spec fn ticks_fit(ms: int, tick_rate: int) -> bool {
    ms * tick_rate * 2 + 1000 <= u64::MAX
}

/// Convert a frame duration in milliseconds to whole ticks.
///
/// **This runs at import time, never at runtime.** The artist's timings are in
/// milliseconds and the simulation counts ticks; converting on load would make
/// frame advance depend on whatever tick rate happened to be configured that
/// session.
///
/// Rounds half away from zero and never returns zero, because a clip with a
/// zero-length frame advances infinitely fast and hangs the frame walker.
pub fn ms_to_ticks(milliseconds: u32, tick_rate: u32) -> (r: u32)
    requires
        tick_rate > 0,
        ticks_fit(milliseconds as int, tick_rate as int),
    ensures
        r == ticks_for(milliseconds as int, tick_rate as int),
        (milliseconds as int) * (tick_rate as int) < 0x1_0000_0000 * 1000 - 500 ==> r >= 1,
{
    let numerator = milliseconds as u64 * tick_rate as u64;
    let ticks = (numerator * 2 + 1000) / 2000;
    let t = if ticks < 1 {
        1
    } else {
        ticks
    };
    proof {
        let tt = t as int;
        if (milliseconds as int) * (tick_rate as int) < 0x1_0000_0000 * 1000 - 500 {
            assert(tt < 0x1_0000_0000);
        }
    }
    #[verifier::truncate]
    (t as u32)
}

/// One frame of an imported clip.
#[derive(Clone, PartialEq, Eq, Debug)]
pub struct Frame {
    /// Index into the sheet.
    pub index: u32,
    /// How long the frame is held, in ticks.
    pub ticks: u32,
    /// Event dispatched to scripts when this frame begins.
    pub event: Option<String>,
}

/// A named animation clip, imported from an Aseprite tag.
#[derive(Clone, PartialEq, Eq, Debug)]
pub struct Clip {
    /// Tag name from the source document.
    pub name: String,
    /// Frames, in order.
    pub frames: Vec<Frame>,
    /// Whether the clip repeats.
    pub looping: bool,
}

/// The sum of the first `n` frames' ticks.
pub open spec fn ticks_before(frames: Seq<Frame>, n: int) -> int
    decreases n,
{
    if n <= 0 {
        0
    } else {
        ticks_before(frames, n - 1) + frames[n - 1].ticks
    }
}

/// How many ticks one pass through `frames` takes.
pub open spec fn total_ticks(frames: Seq<Frame>) -> int {
    ticks_before(frames, frames.len() as int)
}

/// The tick within one pass that `tick` maps to.
pub open spec fn clip_tick(frames: Seq<Frame>, looping: bool, tick: int) -> int {
    let total = total_ticks(frames);
    if looping && total > 0 {
        tick % total
    } else {
        let last = if total >= 1 {
            total - 1
        } else {
            0
        };
        if tick < last {
            tick
        } else {
            last
        }
    }
}

/// The first frame from `k` on whose end lies past `t`, or the last frame.
pub open spec fn frame_index_from(frames: Seq<Frame>, t: int, k: int) -> int
    decreases frames.len() - k,
{
    if k >= frames.len() - 1 {
        frames.len() - 1
    } else if t < ticks_before(frames, k + 1) {
        k
    } else {
        frame_index_from(frames, t, k + 1)
    }
}

/// Which frame shows at `tick` into a clip with these frames.
pub open spec fn frame_index_at(frames: Seq<Frame>, looping: bool, tick: int) -> int {
    frame_index_from(frames, clip_tick(frames, looping, tick), 0)
}

/// Adding a frame adds its ticks.
proof fn lemma_ticks_before_monotone(frames: Seq<Frame>, a: int, b: int)
    requires
        0 <= a <= b <= frames.len(),
    ensures
        ticks_before(frames, a) <= ticks_before(frames, b),
    decreases b - a,
{
    if a < b {
        lemma_ticks_before_monotone(frames, a, b - 1);
    }
}

impl Clip {
    /// How many ticks one pass through the clip takes.
    pub fn duration_ticks(&self) -> (r: u32)
        requires
            total_ticks(self.frames@) <= u32::MAX,
        ensures
            r == total_ticks(self.frames@),
    {
        let mut sum: u32 = 0;
        let mut i: usize = 0;
        while i < self.frames.len()
            invariant
                i <= self.frames@.len(),
                sum == ticks_before(self.frames@, i as int),
                total_ticks(self.frames@) <= u32::MAX,
            decreases self.frames@.len() - i,
        {
            proof {
                lemma_ticks_before_monotone(self.frames@, i + 1, self.frames@.len() as int);
            }
            sum = sum + self.frames[i].ticks;
            i = i + 1;
        }
        sum
    }

    /// Which frame is showing at `tick` into the clip: a looping clip wraps,
    /// one that does not holds its last frame.
    pub fn frame_at(&self, tick: u32) -> (r: Option<&Frame>)
        requires
            total_ticks(self.frames@) <= u32::MAX,
        ensures
            self.frames@.len() == 0 ==> r is None,
            self.frames@.len() > 0 ==> (r matches Some(f) && *f == self.frames@[frame_index_at(
                self.frames@,
                self.looping,
                tick as int,
            )]),
    {
        if self.frames.len() == 0 {
            return None;
        }
        let total = self.duration_ticks();
        let t = if self.looping && total > 0 {
            tick % total
        } else {
            let last = if total >= 1 { total - 1 } else { 0 };
            if tick < last { tick } else { last }
        };
        let ghost frames = self.frames@;
        assert(t == clip_tick(frames, self.looping, tick as int));
        let mut elapsed: u32 = 0;
        let mut i: usize = 0;
        while i < self.frames.len()
            invariant
                frames == self.frames@,
                frames.len() > 0,
                i < frames.len(),
                elapsed == ticks_before(frames, i as int),
                total_ticks(frames) <= u32::MAX,
                t == clip_tick(frames, self.looping, tick as int),
                frame_index_from(frames, t as int, 0) == frame_index_from(frames, t as int, i as int),
            decreases frames.len() - i,
        {
            proof {
                lemma_ticks_before_monotone(frames, i + 1, frames.len() as int);
            }
            elapsed = elapsed + self.frames[i].ticks;
            if i + 1 >= self.frames.len() {
                assert(frame_index_from(frames, t as int, i as int) == i);
                return Some(&self.frames[i]);
            }
            if t < elapsed {
                assert(frame_index_from(frames, t as int, i as int) == i);
                return Some(&self.frames[i]);
            }
            assert(frame_index_from(frames, t as int, i as int) == frame_index_from(frames, t as int, i + 1));
            i = i + 1;
        }
        None
    }
}

/// A looping clip wraps: a whole pass later, the same frame is showing.
pub proof fn lemma_looping_clip_wraps(frames: Seq<Frame>, tick: int)
    requires
        total_ticks(frames) > 0,
        tick >= 0,
    ensures
        frame_index_at(frames, true, tick + total_ticks(frames)) == frame_index_at(frames, true, tick),
{
    let total = total_ticks(frames);
    assert((tick + total) % total == tick % total) by (nonlinear_arith)
        requires
            total > 0,
    ;
}

} // verus!
