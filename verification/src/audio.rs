//! Mixer buses and voice bookkeeping.
//!
//! Audio is presentation: none of its state is ever snapshotted or fed into
//! a state hash, so a headless run with sound triggered hashes exactly like a
//! windowed one.
//!
//! Voice allocation, stealing and per-clip caps are pure bookkeeping, and
//! they are where the bugs are, so they are here and verified. A voice's
//! gain, pitch and panning are carried as the bit patterns of the `f32`
//! values the mixer computes with; nothing here reads them.
use vstd::prelude::*;

verus! {

/// Where a sound is routed.
#[derive(Clone, Copy, PartialEq, Eq, PartialOrd, Ord, Debug, Structural)]
pub enum Bus {
    /// Music.
    Music,
    /// Sound effects.
    Sfx,
    /// Interface sounds, which usually keep playing when the game is paused.
    Ui,
}

impl Default for Bus {
    /// Sound effects.
    fn default() -> (b: Bus)
        ensures
            b == Bus::Sfx,
    {
        Bus::Sfx
    }
}

/// The scene-file spelling of a bus.
pub open spec fn bus_name(b: Bus) -> Seq<char> {
    match b {
        Bus::Music => "Music"@,
        Bus::Sfx => "Sfx"@,
        Bus::Ui => "Ui"@,
    }
}

impl Bus {
    /// Every bus, in a fixed order.
    #[allow(non_snake_case)]
    pub fn ALL() -> (r: [Bus; 3])
        ensures
            r@ == seq![Bus::Music, Bus::Sfx, Bus::Ui],
    {
        [Bus::Music, Bus::Sfx, Bus::Ui]
    }

    /// Parse the scene-file spelling.
    pub fn parse(name: &str) -> (r: Option<Bus>)
        ensures
            name@ == "Music"@ ==> r == Some(Bus::Music),
            name@ == "Sfx"@ ==> r == Some(Bus::Sfx),
            name@ == "Ui"@ ==> r == Some(Bus::Ui),
            name@ != "Music"@ && name@ != "Sfx"@ && name@ != "Ui"@ ==> r is None,
    {
        proof {
            lemma_bus_names_differ();
        }
        if crate::text::str_eq(name, "Music") {
            Some(Bus::Music)
        } else if crate::text::str_eq(name, "Sfx") {
            Some(Bus::Sfx)
        } else if crate::text::str_eq(name, "Ui") {
            Some(Bus::Ui)
        } else {
            None
        }
    }

    /// The bus's name.
    pub fn name(self) -> (r: &'static str)
        ensures
            r@ == bus_name(self),
    {
        match self {
            Bus::Music => "Music",
            Bus::Sfx => "Sfx",
            Bus::Ui => "Ui",
        }
    }
}

/// A name round-trips: parsing a bus's name gives the bus back.
pub proof fn lemma_bus_name_round_trip(b: Bus)
    ensures
        bus_name(b) == "Music"@ ==> b == Bus::Music,
        bus_name(b) == "Sfx"@ ==> b == Bus::Sfx,
        bus_name(b) == "Ui"@ ==> b == Bus::Ui,
        bus_name(b) == "Music"@ || bus_name(b) == "Sfx"@ || bus_name(b) == "Ui"@,
{
    lemma_bus_names_differ();
}

/// The three bus names differ.
proof fn lemma_bus_names_differ()
    ensures
        "Music"@ != "Sfx"@,
        "Music"@ != "Ui"@,
        "Sfx"@ != "Ui"@,
{
    reveal_strlit("Music");
    reveal_strlit("Sfx");
    reveal_strlit("Ui");
    assert("Music"@.len() == 5 && "Sfx"@.len() == 3 && "Ui"@.len() == 2);
}

/// Why a trigger did not produce a voice.
#[derive(Clone, Copy, PartialEq, Eq, Debug, Structural)]
pub enum Rejected {
    /// The clip is already at its own cap.
    ClipCapReached,
    /// Every voice is in use and none could be stolen.
    NoVoiceAvailable,
}

/// Why a backend could not do something.
#[derive(Debug, Clone, PartialEq, Eq)]
pub enum AudioError {
    /// The clip has not been handed to the backend.
    UnknownClip(String),
    /// The bytes were not audio this build can decode.
    Decode {
        /// Clip that failed.
        clip: String,
        /// What the decoder said.
        detail: String,
    },
    /// The device refused.
    Device(String),
}

/// The message of an audio error.
pub open spec fn audio_error_text(e: AudioError) -> Seq<char> {
    match e {
        AudioError::UnknownClip(c) => "no clip named "@ + c@ + " has been loaded"@,
        AudioError::Decode { clip, detail } => "cannot decode "@ + clip@ + ": "@ + detail@,
        AudioError::Device(m) => "audio device: "@ + m@,
    }
}

impl AudioError {
    /// The human-readable message.
    pub fn message(&self) -> (out: String)
        ensures
            out@ == audio_error_text(*self),
    {
        let mut out = String::new();
        match self {
            AudioError::UnknownClip(c) => {
                crate::text::push_str(&mut out, "no clip named ");
                crate::text::push_str(&mut out, c.as_str());
                crate::text::push_str(&mut out, " has been loaded");
            },
            AudioError::Decode { clip, detail } => {
                crate::text::push_str(&mut out, "cannot decode ");
                crate::text::push_str(&mut out, clip.as_str());
                crate::text::push_str(&mut out, ": ");
                crate::text::push_str(&mut out, detail.as_str());
            },
            AudioError::Device(m) => {
                crate::text::push_str(&mut out, "audio device: ");
                crate::text::push_str(&mut out, m.as_str());
            },
        }
        out
    }
}

/// The audio device a run asks for.
#[derive(Clone, Copy, PartialEq, Eq, Debug, Structural)]
pub enum Device {
    /// No device. Headless runs and CI select this, so an agent session and a
    /// test suite produce no device I/O at all.
    Mock,
    /// The real sound card. Not in this build.
    Kira,
}

impl Default for Device {
    /// The headless device.
    fn default() -> (d: Device)
        ensures
            d == Device::Mock,
    {
        Device::Mock
    }
}

/// A backend that makes no sound.
#[derive(Clone, Copy, PartialEq, Eq, Debug)]
pub struct Headless;

impl Headless {
    /// What this backend is called, for diagnostics.
    pub fn name(&self) -> (r: &'static str)
        ensures
            r@ == "mock"@,
    {
        "mock"
    }
}

impl Device {
    /// Open the device. The real one is not in this build, so every device
    /// opens as the headless backend.
    pub fn open(self) -> (b: Headless) {
        Headless
    }
}

/// A playing sound.
#[derive(Clone, PartialEq, Debug)]
pub struct Voice {
    /// Clip being played.
    pub clip: String,
    /// Bus it routes through.
    pub bus: Bus,
    /// Gain in decibels, before bus gain, as `f32` bits.
    pub volume_db_bits: u32,
    /// Playback rate multiplier, as `f32` bits.
    pub pitch_bits: u32,
    /// Stereo position, `-1.0` left to `1.0` right, as `f32` bits.
    pub pan_bits: u32,
    /// Higher priority voices are stolen last.
    pub priority: u8,
    /// Which trigger this voice belongs to, for stopping it later.
    pub handle: u64,
    /// Ticks since it started, for the stealing heuristic.
    pub age: u32,
}

/// How many of the voices play `clip`.
pub open spec fn count_clip(vs: Seq<Voice>, clip: Seq<char>) -> nat
    decreases vs.len(),
{
    if vs.len() == 0 {
        0
    } else {
        count_clip(vs.drop_last(), clip) + if vs.last().clip@ == clip { 1nat } else { 0nat }
    }
}

/// Whether `a` is at least as good a voice to steal as `b`: lower priority,
/// or the same priority and at least as old.
pub open spec fn steals_before(a: Voice, b: Voice) -> bool {
    a.priority < b.priority || (a.priority == b.priority && a.age >= b.age)
}

/// The voice to steal for a new one of priority `prio`, among the first `n`:
/// the oldest of the lowest priority not above `prio`, the last such on a
/// tie; none when every voice outranks the new one.
pub open spec fn victim(vs: Seq<Voice>, prio: u8, n: int) -> Option<int>
    decreases n,
{
    if n <= 0 {
        None
    } else {
        let prev = victim(vs, prio, n - 1);
        let v = vs[n - 1];
        if v.priority <= prio && (prev matches Some(p) ==> steals_before(v, vs[p])) {
            Some(n - 1)
        } else {
            prev
        }
    }
}

/// `v` started with handle `h`.
pub open spec fn started(v: Voice, h: u64) -> Voice {
    Voice { handle: h, age: 0, ..v }
}

/// The voices without those that match `h`.
pub open spec fn without_handle(vs: Seq<Voice>, h: u64) -> Seq<Voice>
    decreases vs.len(),
{
    if vs.len() == 0 {
        vs
    } else {
        let rest = without_handle(vs.drop_last(), h);
        if vs.last().handle == h { rest } else { rest.push(vs.last()) }
    }
}

/// The voices without those on bus `b`.
pub open spec fn without_bus(vs: Seq<Voice>, b: Bus) -> Seq<Voice>
    decreases vs.len(),
{
    if vs.len() == 0 {
        vs
    } else {
        let rest = without_bus(vs.drop_last(), b);
        if vs.last().bus == b { rest } else { rest.push(vs.last()) }
    }
}

/// A fixed pool of voices with stealing and per-clip caps.
///
/// A pool rather than unbounded playback because a hundred copies of one
/// impact sound is both inaudible and expensive. The per-clip cap is what
/// stops one noisy effect from evicting everything else.
#[derive(Clone, Debug)]
pub struct VoicePool {
    voices: Vec<Voice>,
    capacity: usize,
    per_clip_cap: usize,
    next_handle: u64,
    gains: [u32; 3],
}

/// The bits of `1.0f32`.
pub open spec fn unity_bits() -> u32 {
    0x3f80_0000
}

/// A bus's slot in the gain table.
pub open spec fn bus_slot(b: Bus) -> int {
    match b {
        Bus::Music => 0,
        Bus::Sfx => 1,
        Bus::Ui => 2,
    }
}

impl VoicePool {
    /// The voices playing, oldest trigger first.
    pub closed spec fn spec_voices(&self) -> Seq<Voice> {
        self.voices@
    }

    /// The total voice budget.
    pub closed spec fn spec_capacity(&self) -> nat {
        self.capacity as nat
    }

    /// The most voices one clip may have.
    pub closed spec fn spec_per_clip_cap(&self) -> nat {
        self.per_clip_cap as nat
    }

    /// The handle the next voice gets.
    pub closed spec fn spec_next_handle(&self) -> u64 {
        self.next_handle
    }

    /// The bus gains, as `f32` bits, by bus slot.
    pub closed spec fn spec_gains(&self) -> Seq<u32> {
        self.gains@
    }

    /// A pool with the given total capacity and per-clip limit, every bus
    /// at unity gain.
    pub fn new(capacity: usize, per_clip_cap: usize) -> (p: VoicePool)
        ensures
            p.spec_voices().len() == 0,
            p.spec_capacity() == capacity,
            p.spec_per_clip_cap() == per_clip_cap,
            p.spec_next_handle() == 1,
            p.spec_gains() == seq![unity_bits(), unity_bits(), unity_bits()],
    {
        VoicePool { voices: Vec::new(), capacity, per_clip_cap, next_handle: 1, gains: [0x3f80_0000, 0x3f80_0000, 0x3f80_0000] }
    }

    /// Currently playing voices.
    pub fn voices(&self) -> (r: &[Voice])
        ensures
            r@ == self.spec_voices(),
    {
        self.voices.as_slice()
    }

    /// The handle the next voice will get.
    pub fn next_handle(&self) -> (r: u64)
        ensures
            r == self.spec_next_handle(),
    {
        self.next_handle
    }

    /// How many voices are playing.
    pub fn len(&self) -> (r: usize)
        ensures
            r == self.spec_voices().len(),
    {
        self.voices.len()
    }

    /// True when nothing is playing.
    pub fn is_empty(&self) -> (r: bool)
        ensures
            r == (self.spec_voices().len() == 0),
    {
        self.voices.len() == 0
    }

    /// Set a bus's gain, as the bits of an `f32` already clamped to
    /// `0.0 ..= 4.0`.
    pub fn set_gain_bits(&mut self, bus: Bus, bits: u32)
        ensures
            final(self).spec_gains() == old(self).spec_gains().update(bus_slot(bus), bits),
            final(self).spec_voices() == old(self).spec_voices(),
            final(self).spec_capacity() == old(self).spec_capacity(),
            final(self).spec_per_clip_cap() == old(self).spec_per_clip_cap(),
            final(self).spec_next_handle() == old(self).spec_next_handle(),
    {
        let slot: usize = match bus {
            Bus::Music => 0,
            Bus::Sfx => 1,
            Bus::Ui => 2,
        };
        self.gains.set(slot, bits);
    }

    /// A bus's gain, as `f32` bits.
    pub fn gain_bits(&self, bus: Bus) -> (r: u32)
        ensures
            r == self.spec_gains()[bus_slot(bus)],
    {
        let slot: usize = match bus {
            Bus::Music => 0,
            Bus::Sfx => 1,
            Bus::Ui => 2,
        };
        self.gains[slot]
    }

    /// Start a sound, stealing a voice if the pool is full.
    ///
    /// A clip at its own cap is refused. A full pool gives up its
    /// [`victim`]: the oldest voice of the lowest priority — oldest because a
    /// sound that has been playing longest has already been heard; lowest
    /// priority first because a footstep should lose to a boss roar. A new
    /// voice gets the next handle and an age of zero.
    pub fn play(&mut self, voice: Voice) -> (r: Result<u64, Rejected>)
        requires
            old(self).spec_next_handle() < u64::MAX,
        ensures
            ({
                let vs = old(self).spec_voices();
                let h = old(self).spec_next_handle();
                let capped = count_clip(vs, voice.clip@) >= old(self).spec_per_clip_cap();
                let full = vs.len() >= old(self).spec_capacity();
                let v = victim(vs, voice.priority, vs.len() as int);
                &&& capped ==> r == Err::<u64, Rejected>(Rejected::ClipCapReached) && *final(self) == *old(self)
                &&& !capped && full && v is None ==> r == Err::<u64, Rejected>(Rejected::NoVoiceAvailable) && *final(self) == *old(self)
                &&& !capped && (!full || v is Some) ==> {
                    &&& r == Ok::<u64, Rejected>(h)
                    &&& final(self).spec_next_handle() == h + 1
                    &&& final(self).spec_voices() == (if full { vs.remove(v->0) } else { vs }).push(started(voice, h))
                    &&& final(self).spec_capacity() == old(self).spec_capacity()
                    &&& final(self).spec_per_clip_cap() == old(self).spec_per_clip_cap()
                    &&& final(self).spec_gains() == old(self).spec_gains()
                }
            }),
    {
        let ghost vs = self.voices@;
        let n = self.voices.len();
        // How many voices already play this clip.
        let mut same: usize = 0;
        let mut i: usize = 0;
        while i < n
            invariant
                i <= n,
                n == vs.len(),
                vs == self.voices@,
                same == count_clip(vs.take(i as int), voice.clip@),
                same <= i,
            decreases n - i,
        {
            proof {
                assert(vs.take(i + 1).drop_last() =~= vs.take(i as int));
            }
            if crate::text::str_eq(self.voices[i].clip.as_str(), voice.clip.as_str()) {
                same = same + 1;
            }
            i = i + 1;
        }
        proof {
            assert(vs.take(n as int) =~= vs);
        }
        if same >= self.per_clip_cap {
            return Err(Rejected::ClipCapReached);
        }
        if n >= self.capacity {
            // The voice to steal.
            let mut best: Option<usize> = None;
            let mut j: usize = 0;
            while j < n
                invariant
                    j <= n,
                    n == vs.len(),
                    vs == self.voices@,
                    match best {
                        Some(b) => victim(vs, voice.priority, j as int) == Some(b as int) && b < j,
                        None => victim(vs, voice.priority, j as int) is None,
                    },
                decreases n - j,
            {
                let v = &self.voices[j];
                if v.priority <= voice.priority {
                    let better = match best {
                        None => true,
                        Some(b) => {
                            let w = &self.voices[b];
                            v.priority < w.priority || (v.priority == w.priority && v.age >= w.age)
                        },
                    };
                    if better {
                        best = Some(j);
                    }
                }
                j = j + 1;
            }
            match best {
                Some(index) => {
                    self.voices.remove(index);
                },
                None => return Err(Rejected::NoVoiceAvailable),
            }
        }
        let handle = self.next_handle;
        self.next_handle = self.next_handle + 1;
        let mut v = voice;
        v.handle = handle;
        v.age = 0;
        self.voices.push(v);
        Ok(handle)
    }

    /// Stop one voice; whether any stopped.
    pub fn stop(&mut self, handle: u64) -> (r: bool)
        ensures
            final(self).spec_voices() == without_handle(old(self).spec_voices(), handle),
            r == (final(self).spec_voices().len() != old(self).spec_voices().len()),
            final(self).spec_capacity() == old(self).spec_capacity(),
            final(self).spec_per_clip_cap() == old(self).spec_per_clip_cap(),
            final(self).spec_next_handle() == old(self).spec_next_handle(),
            final(self).spec_gains() == old(self).spec_gains(),
    {
        let before = self.voices.len();
        let mut rest: Vec<Voice> = Vec::new();
        std::mem::swap(&mut rest, &mut self.voices);
        let ghost vs = rest@;
        let total = rest.len();
        let mut kept: Vec<Voice> = Vec::new();
        let mut k: usize = 0;
        proof {
            assert(vs.skip(0) =~= vs);
        }
        while rest.len() > 0
            invariant
                vs.len() == total,
                k + rest@.len() == vs.len(),
                rest@ == vs.skip(k as int),
                kept@ == without_handle(vs.take(k as int), handle),
                kept@.len() <= k,
            decreases rest@.len(),
        {
            let v = rest.remove(0);
            proof {
                assert(vs.skip(k as int)[0] == v);
                assert(vs.skip(k as int).remove(0) =~= vs.skip(k + 1));
                assert(vs.take(k + 1).drop_last() =~= vs.take(k as int));
                assert(vs.take(k + 1).last() == v);
            }
            if v.handle != handle {
                kept.push(v);
            }
            k = k + 1;
        }
        proof {
            assert(vs.take(k as int) =~= vs);
        }
        self.voices = kept;
        self.voices.len() != before
    }

    /// Stop every voice on a bus.
    pub fn stop_bus(&mut self, bus: Bus)
        ensures
            final(self).spec_voices() == without_bus(old(self).spec_voices(), bus),
            final(self).spec_capacity() == old(self).spec_capacity(),
            final(self).spec_per_clip_cap() == old(self).spec_per_clip_cap(),
            final(self).spec_next_handle() == old(self).spec_next_handle(),
            final(self).spec_gains() == old(self).spec_gains(),
    {
        let mut rest: Vec<Voice> = Vec::new();
        std::mem::swap(&mut rest, &mut self.voices);
        let ghost vs = rest@;
        let total = rest.len();
        let mut kept: Vec<Voice> = Vec::new();
        let mut k: usize = 0;
        proof {
            assert(vs.skip(0) =~= vs);
        }
        while rest.len() > 0
            invariant
                vs.len() == total,
                k + rest@.len() == vs.len(),
                rest@ == vs.skip(k as int),
                kept@ == without_bus(vs.take(k as int), bus),
            decreases rest@.len(),
        {
            let v = rest.remove(0);
            proof {
                assert(vs.skip(k as int)[0] == v);
                assert(vs.skip(k as int).remove(0) =~= vs.skip(k + 1));
                assert(vs.take(k + 1).drop_last() =~= vs.take(k as int));
                assert(vs.take(k + 1).last() == v);
            }
            if v.bus != bus {
                kept.push(v);
            }
            k = k + 1;
        }
        proof {
            assert(vs.take(k as int) =~= vs);
        }
        self.voices = kept;
    }

    /// Age every voice by one frame, saturating.
    pub fn age(&mut self)
        ensures
            final(self).spec_voices().len() == old(self).spec_voices().len(),
            forall|i: int|
                0 <= i < old(self).spec_voices().len() ==> #[trigger] final(self).spec_voices()[i] == (Voice {
                    age: if old(self).spec_voices()[i].age < u32::MAX {
                        (old(self).spec_voices()[i].age + 1) as u32
                    } else {
                        u32::MAX
                    },
                    ..old(self).spec_voices()[i]
                }),
            final(self).spec_capacity() == old(self).spec_capacity(),
            final(self).spec_per_clip_cap() == old(self).spec_per_clip_cap(),
            final(self).spec_next_handle() == old(self).spec_next_handle(),
            final(self).spec_gains() == old(self).spec_gains(),
    {
        let mut rest: Vec<Voice> = Vec::new();
        std::mem::swap(&mut rest, &mut self.voices);
        let ghost vs = rest@;
        let total = rest.len();
        let mut out: Vec<Voice> = Vec::new();
        let mut k: usize = 0;
        proof {
            assert(vs.skip(0) =~= vs);
        }
        while rest.len() > 0
            invariant
                vs.len() == total,
                k + rest@.len() == vs.len(),
                rest@ == vs.skip(k as int),
                out@.len() == k,
                forall|i: int|
                    0 <= i < k ==> #[trigger] out@[i] == (Voice {
                        age: if vs[i].age < u32::MAX { (vs[i].age + 1) as u32 } else { u32::MAX },
                        ..vs[i]
                    }),
            decreases rest@.len(),
        {
            let mut v = rest.remove(0);
            proof {
                assert(vs.skip(k as int)[0] == v);
                assert(vs.skip(k as int).remove(0) =~= vs.skip(k + 1));
            }
            v.age = v.age.saturating_add(1);
            out.push(v);
            k = k + 1;
        }
        self.voices = out;
    }
}

/// Taking a voice away never adds to a clip's count.
proof fn lemma_count_remove(vs: Seq<Voice>, i: int, clip: Seq<char>)
    requires
        0 <= i < vs.len(),
    ensures
        count_clip(vs.remove(i), clip) <= count_clip(vs, clip),
    decreases vs.len(),
{
    if i == vs.len() - 1 {
        assert(vs.remove(i) =~= vs.drop_last());
    } else {
        lemma_count_remove(vs.drop_last(), i, clip);
        assert(vs.remove(i).drop_last() =~= vs.drop_last().remove(i));
        assert(vs.remove(i).last() == vs.last());
    }
}

/// Playing keeps a pool inside its limits: never more voices than its
/// capacity, and never more of one clip than the per-clip cap.
pub proof fn lemma_play_respects_limits(vs: Seq<Voice>, voice: Voice, capacity: nat, per_clip: nat, h: u64)
    requires
        vs.len() <= capacity,
        forall|c: Seq<char>| #[trigger] count_clip(vs, c) <= per_clip,
        count_clip(vs, voice.clip@) < per_clip,
        vs.len() < capacity || victim(vs, voice.priority, vs.len() as int) is Some,
    ensures
        ({
            let full = vs.len() >= capacity;
            let after = (if full { vs.remove(victim(vs, voice.priority, vs.len() as int)->0) } else { vs }).push(
                started(voice, h),
            );
            &&& after.len() <= capacity
            &&& forall|c: Seq<char>| #[trigger] count_clip(after, c) <= per_clip
        }),
{
    let full = vs.len() >= capacity;
    let v = victim(vs, voice.priority, vs.len() as int);
    if full {
        lemma_victim_in_range(vs, voice.priority, vs.len() as int);
    }
    let kept = if full { vs.remove(v->0) } else { vs };
    let after = kept.push(started(voice, h));
    assert forall|c: Seq<char>| #[trigger] count_clip(after, c) <= per_clip by {
        assert(after.drop_last() =~= kept);
        assert(after.last() == started(voice, h));
        assert(started(voice, h).clip == voice.clip);
        assert(count_clip(vs, c) <= per_clip);
        if full {
            lemma_count_remove(vs, v->0, c);
        }
        assert(count_clip(kept, c) <= count_clip(vs, c));
    }
}

/// The voice chosen to steal is one of the voices.
proof fn lemma_victim_in_range(vs: Seq<Voice>, prio: u8, n: int)
    requires
        0 <= n <= vs.len(),
    ensures
        victim(vs, prio, n) matches Some(i) ==> 0 <= i < n,
    decreases n,
{
    if n > 0 {
        lemma_victim_in_range(vs, prio, n - 1);
    }
}


/// The voice stolen is never of higher priority than the newcomer, and it is
/// the oldest voice of the lowest priority among those that could be stolen;
/// nothing is stolen only when every voice outranks the newcomer.
pub proof fn lemma_victim_is_oldest_lowest(vs: Seq<Voice>, prio: u8, n: int)
    requires
        0 <= n <= vs.len(),
    ensures
        victim(vs, prio, n) is None <==> forall|i: int| 0 <= i < n ==> (#[trigger] vs[i]).priority > prio,
        victim(vs, prio, n) matches Some(k) ==> {
            &&& vs[k].priority <= prio
            &&& forall|i: int| 0 <= i < n && (#[trigger] vs[i]).priority <= prio ==> steals_before(vs[k], vs[i])
        },
    decreases n,
{
    lemma_victim_in_range(vs, prio, n);
    if n > 0 {
        lemma_victim_is_oldest_lowest(vs, prio, n - 1);
        lemma_victim_in_range(vs, prio, n - 1);
    }
}

} // verus!
