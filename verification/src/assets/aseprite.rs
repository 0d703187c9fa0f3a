//! Aseprite documents, imported as a sprite sheet plus named clips.
//!
//! Tags become clips directly: frame animation needs no editor UI, because
//! the artist already authored it in the tool they were going to use anyway.
//!
//! Decoding the binary format is `asefile`'s job. What this module adds —
//! checking what came back, expanding a playback direction into a plain frame
//! list, converting durations, and laying the frames out on one strip — is
//! verified here on plain values.
use vstd::prelude::*;

use asefile::AsepriteFile;

use crate::assets::clip::{ms_to_ticks, ticks_fit, ticks_for, Clip, Frame};
use crate::assets::image::{blit_spec, Image, ImageError};

verus! {

/// What an Aseprite document imports to.
#[derive(Clone, PartialEq, Eq, Debug)]
pub struct Aseprite {
    /// Every frame, laid out in one horizontal strip.
    pub sheet: Image,
    /// Width of one frame, in pixels.
    pub frame_width: u32,
    /// Height of one frame, in pixels.
    pub frame_height: u32,
    /// How many frames the strip holds.
    pub frame_count: u32,
    /// Clips from the document's tags.
    pub clips: Vec<Clip>,
}

/// The index of the first clip named `name`, if any.
pub open spec fn clip_position(clips: Seq<Clip>, name: Seq<char>) -> Option<int>
    decreases clips.len(),
{
    if clips.len() == 0 {
        None
    } else if clips[0].name@ == name {
        Some(0)
    } else {
        match clip_position(clips.drop_first(), name) {
            Some(k) => Some(k + 1),
            None => None,
        }
    }
}

impl Aseprite {
    /// The clip with a given name: the first, if several share it.
    pub fn clip(&self, name: &str) -> (r: Option<&Clip>)
        ensures
            match clip_position(self.clips@, name@) {
                Some(k) => r matches Some(c) && *c == self.clips@[k],
                None => r is None,
            },
    {
        let mut i: usize = 0;
        proof {
            assert(self.clips@.skip(0) =~= self.clips@);
        }
        while i < self.clips.len()
            invariant
                i <= self.clips@.len(),
                clip_position(self.clips@, name@) == match clip_position(self.clips@.skip(i as int), name@) {
                    Some(k) => Some(k + i),
                    None => None::<int>,
                },
            decreases self.clips@.len() - i,
        {
            if crate::text::str_eq(self.clips[i].name.as_str(), name) {
                return Some(&self.clips[i]);
            }
            proof {
                assert(self.clips@.skip(i as int).drop_first() =~= self.clips@.skip(i + 1));
            }
            i = i + 1;
        }
        None
    }
}

/// Which way a tag plays.
#[derive(Clone, Copy, PartialEq, Eq, Debug, Structural)]
pub enum Playback {
    /// First frame to last.
    Forward,
    /// Last frame to first.
    Reverse,
    /// Forward, then back without repeating either end.
    PingPong,
}

/// The frame indices a tag over `lo ..= hi` plays, in order.
pub open spec fn play_order(lo: int, hi: int, playback: Playback) -> Seq<int> {
    let n = hi - lo + 1;
    match playback {
        Playback::Forward => Seq::new(n as nat, |k: int| lo + k),
        Playback::Reverse => Seq::new(n as nat, |k: int| hi - k),
        Playback::PingPong => Seq::new(n as nat, |k: int| lo + k) + Seq::new(
            (if hi - lo >= 1 {
                hi - lo - 1
            } else {
                0
            }) as nat,
            |k: int| hi - 1 - k,
        ),
    }
}

/// The duration of frame `i`: its entry, or 100ms when there is none.
pub open spec fn duration_of(durations: Seq<u32>, i: int) -> int {
    if 0 <= i < durations.len() {
        durations[i] as int
    } else {
        100
    }
}

/// Every frame from `lo` to `hi` converts to ticks without overflow.
pub open spec fn range_fits(durations: Seq<u32>, lo: int, hi: int, tick_rate: u32) -> bool {
    forall|i: int| lo <= i <= hi ==> ticks_fit(#[trigger] duration_of(durations, i), tick_rate as int)
}

fn frame_for(i: u32, durations: &[u32], tick_rate: u32) -> (f: Frame)
    requires
        tick_rate > 0,
        ticks_fit(duration_of(durations@, i as int), tick_rate as int),
    ensures
        f.index == i,
        f.ticks == ticks_for(duration_of(durations@, i as int), tick_rate as int),
        f.event is None,
{
    let ms = if (i as usize) < durations.len() {
        durations[i as usize]
    } else {
        100
    };
    Frame { index: i, ticks: ms_to_ticks(ms, tick_rate), event: None }
}

/// Build a clip from a frame range, a playback direction and the durations.
///
/// Ping-pong and reverse are playback *directions* rather than frame orders,
/// and the runtime frame walker only knows how to go forwards. Expanding them
/// here means the clip a script sees is always a plain list. A range given
/// backwards is taken as a range. Every clip loops: Aseprite has no "plays
/// once" flag on a tag.
pub fn clip_from_range(
    name: &str,
    from: u32,
    to: u32,
    playback: Playback,
    durations: &[u32],
    tick_rate: u32,
) -> (c: Clip)
    requires
        tick_rate > 0,
        range_fits(
            durations@,
            if from <= to { from as int } else { to as int },
            if from <= to { to as int } else { from as int },
            tick_rate,
        ),
    ensures
        clip_of_tag(c, (name@, from, to, playback), durations@, tick_rate),
{
    let lo = if from <= to { from } else { to };
    let hi = if from <= to { to } else { from };
    let ghost order = play_order(lo as int, hi as int, playback);
    let mut frames: Vec<Frame> = Vec::new();
    let forward = match playback {
        Playback::Reverse => false,
        _ => true,
    };
    // The forward (or reversed) pass over the whole range.
    let mut k: u64 = 0;
    let n: u64 = hi as u64 - lo as u64 + 1;
    while k < n
        invariant
            n == hi - lo + 1,
            lo <= hi,
            tick_rate > 0,
            range_fits(durations@, lo as int, hi as int, tick_rate),
            k <= n,
            frames@.len() == k,
            order == play_order(lo as int, hi as int, playback),
            forward == !(playback is Reverse),
            forall|j: int|
                0 <= j < k ==> (#[trigger] frames@[j]).index == order[j] && frames@[j].ticks
                    == ticks_for(duration_of(durations@, order[j]), tick_rate as int)
                    && frames@[j].event is None,
        decreases n - k,
    {
        let i = if forward { (lo as u64 + k) as u32 } else { (hi as u64 - k) as u32 };
        assert(ticks_fit(duration_of(durations@, i as int), tick_rate as int));
        frames.push(frame_for(i, durations, tick_rate));
        k = k + 1;
    }
    // Ping-pong comes back without repeating either end.
    if let Playback::PingPong = playback {
        let back: u64 = if hi - lo >= 1 { (hi - lo - 1) as u64 } else { 0 };
        let mut m: u64 = 0;
        while m < back
            invariant
                n == hi - lo + 1,
                back == (if hi - lo >= 1 { hi - lo - 1 } else { 0 }),
                lo <= hi,
                tick_rate > 0,
                range_fits(durations@, lo as int, hi as int, tick_rate),
                m <= back,
                frames@.len() == n + m,
                order == play_order(lo as int, hi as int, playback),
                playback is PingPong,
                forall|j: int|
                    0 <= j < n + m ==> (#[trigger] frames@[j]).index == order[j] && frames@[j].ticks
                        == ticks_for(duration_of(durations@, order[j]), tick_rate as int)
                        && frames@[j].event is None,
            decreases back - m,
        {
            let i = (hi as u64 - 1 - m) as u32;
            assert(ticks_fit(duration_of(durations@, i as int), tick_rate as int));
            frames.push(frame_for(i, durations, tick_rate));
            m = m + 1;
        }
    }
    Clip { name: crate::text::string_from(name), frames, looping: true }
}

/// A tag as the document stores it: a name, a frame range, and which way it
/// plays.
pub struct Tag {
    /// The tag's name.
    pub name: String,
    /// First frame.
    pub from: u32,
    /// Last frame.
    pub to: u32,
    /// Which way it plays.
    pub playback: Playback,
}

/// A tag as plain values: name, first frame, last frame, playback.
pub open spec fn tag_view(t: Tag) -> (Seq<char>, u32, u32, Playback) {
    (t.name@, t.from, t.to, t.playback)
}

/// A frame image as plain values: width, height, RGBA pixels.
pub open spec fn image_shape(f: Image) -> (u32, u32, Seq<u8>) {
    (f.width, f.height, f.pixels@)
}

/// The strip after the first `n` frames are copied in, side by side.
pub open spec fn strip_of(frames: Seq<(u32, u32, Seq<u8>)>, frame_width: int, sheet_width: int, start: Seq<u8>, n: int) -> Seq<u8>
    decreases n,
{
    if n <= 0 {
        start
    } else {
        let f = frames[n - 1];
        blit_spec(
            strip_of(frames, frame_width, sheet_width, start, n - 1),
            sheet_width,
            f.2,
            f.0 as int,
            (n - 1) * frame_width,
            0,
            f.1 as int,
        )
    }
}

/// `c` is a clip of the tag `t`, as [`clip_from_range`] builds it.
pub open spec fn clip_of_tag(c: Clip, t: (Seq<char>, u32, u32, Playback), durations: Seq<u32>, tick_rate: u32) -> bool {
    let lo = if t.1 <= t.2 { t.1 as int } else { t.2 as int };
    let hi = if t.1 <= t.2 { t.2 as int } else { t.1 as int };
    let order = play_order(lo, hi, t.3);
    &&& c.name@ == t.0
    &&& c.looping
    &&& c.frames@.len() == order.len()
    &&& forall|k: int|
        0 <= k < order.len() ==> (#[trigger] c.frames@[k]).index == order[k] && c.frames@[k].ticks == ticks_for(
            duration_of(durations, order[k]),
            tick_rate as int,
        ) && c.frames@[k].event is None
}

/// Every duration a document's clips use converts to ticks without
/// overflow: each tag's range, or every frame when there are no tags.
pub open spec fn clips_fit(durations: Seq<u32>, tags: Seq<(Seq<char>, u32, u32, Playback)>, tick_rate: u32) -> bool {
    &&& tags.len() == 0 ==> forall|i: int| 0 <= i < durations.len() ==> ticks_fit(#[trigger] durations[i] as int, tick_rate as int)
    &&& forall|k: int|
        0 <= k < tags.len() ==> range_fits(
            durations,
            if (#[trigger] tags[k]).1 <= tags[k].2 { tags[k].1 as int } else { tags[k].2 as int },
            if tags[k].1 <= tags[k].2 { tags[k].2 as int } else { tags[k].1 as int },
            tick_rate,
        )
}

/// The width of the strip `n` frames of `frame_width` make: at least one
/// frame's worth, each at least a pixel wide.
pub open spec fn strip_width(frame_width: u32, n: int) -> int {
    (if frame_width > 1 { frame_width as int } else { 1 }) * (if n > 1 { n } else { 1 })
}

/// The strip's height: the frame height, at least a pixel.
pub open spec fn strip_height(frame_height: u32) -> int {
    if frame_height > 1 { frame_height as int } else { 1 }
}

/// `a` is what [`assemble`] makes of a document's frames, durations and tags.
pub open spec fn assembles_to(
    frame_width: u32,
    frame_height: u32,
    frames: Seq<(u32, u32, Seq<u8>)>,
    durations: Seq<u32>,
    tags: Seq<(Seq<char>, u32, u32, Playback)>,
    tick_rate: u32,
    a: Aseprite,
) -> bool {
    let n = frames.len() as int;
    let w = strip_width(frame_width, n);
    let h = strip_height(frame_height);
    &&& a.frame_width == frame_width
    &&& a.frame_height == frame_height
    &&& a.frame_count == n
    &&& a.sheet.width == w
    &&& a.sheet.height == h
    &&& a.sheet.pixels@ == strip_of(frames, frame_width as int, w, Seq::new((w * h * 4) as nat, |i: int| 0u8), n)
    &&& tags.len() > 0 ==> a.clips@.len() == tags.len() && forall|k: int|
        0 <= k < tags.len() ==> clip_of_tag(#[trigger] a.clips@[k], tags[k], durations, tick_rate)
    &&& tags.len() == 0 && n > 0 ==> a.clips@.len() == 1 && a.clips@[0].name@ == "default"@ && a.clips@[0].looping
        && a.clips@[0].frames@.len() == n && forall|k: int|
        0 <= k < n ==> (#[trigger] a.clips@[0].frames@[k]).index == k && a.clips@[0].frames@[k].ticks
            == ticks_for(durations[k] as int, tick_rate as int) && a.clips@[0].frames@[k].event is None
    &&& tags.len() == 0 && n == 0 ==> a.clips@.len() == 0
}

/// A document's frames and tags assembled into a strip and clips.
///
/// Every layer arrives flattened, one canvas-sized image a frame; they are
/// laid out left to right. Tags become clips; an untagged document still
/// animates, with one looping `default` clip over every frame, so a simple
/// spinning coin does not force the artist to tag it first.
pub fn assemble(
    frame_width: u32,
    frame_height: u32,
    frames: Vec<Image>,
    durations: Vec<u32>,
    tags: Vec<Tag>,
    tick_rate: u32,
) -> (a: Aseprite)
    requires
        tick_rate > 0,
        clips_fit(durations@, tags@.map_values(|t: Tag| tag_view(t)), tick_rate),
        frames@.len() <= u32::MAX,
        durations@.len() == frames@.len(),
        forall|i: int| 0 <= i < frames@.len() ==> (#[trigger] frames@[i]).width == frame_width && frames@[i].height == frame_height,
        strip_width(frame_width, frames@.len() as int) <= u32::MAX,
        (strip_height(frame_height) + 1) * strip_width(frame_width, frames@.len() as int) * 4 + 4 <= usize::MAX,
    ensures
        assembles_to(
            frame_width,
            frame_height,
            frames@.map_values(|f: Image| image_shape(f)),
            durations@,
            tags@.map_values(|t: Tag| tag_view(t)),
            tick_rate,
            a,
        ),
{
    let ghost shapes = frames@.map_values(|f: Image| image_shape(f));
    let ghost views = tags@.map_values(|t: Tag| tag_view(t));
    let n = frames.len();
    let fw: u64 = if frame_width > 1 { frame_width as u64 } else { 1 };
    let count: u64 = if n > 1 { n as u64 } else { 1 };
    let fh: u32 = if frame_height > 1 { frame_height } else { 1 };
    let width = (fw * count) as u32;
    proof {
        assert(width as int * fh as int * 4 <= usize::MAX) by (nonlinear_arith)
            requires
                (fh + 1) * width * 4 + 4 <= usize::MAX,
        ;
    }
    let mut sheet = Image::blank("", width, fh);
    let ghost start = sheet.pixels@;
    let mut i: usize = 0;
    while i < n
        invariant
            i <= n,
            n == frames@.len(),
            n <= u32::MAX,
            shapes == frames@.map_values(|f: Image| image_shape(f)),
            width as int == strip_width(frame_width, n as int),
            fh as int == strip_height(frame_height),
            (fh + 1) * width * 4 + 4 <= usize::MAX,
            forall|j: int| 0 <= j < frames@.len() ==> (#[trigger] frames@[j]).width == frame_width && frames@[j].height == frame_height,
            sheet.width == width,
            sheet.height == fh,
            sheet.pixels@ == strip_of(shapes, frame_width as int, width as int, start, i as int),
        decreases n - i,
    {
        let f = &frames[i];
        proof {
            assert(shapes[i as int] == image_shape(frames@[i as int]));
            assert(f.width == frame_width && f.height == frame_height);
            assert((i as int) * frame_width + frame_width <= width) by (nonlinear_arith)
                requires
                    i < n,
                    width == (if frame_width > 1 { frame_width as int } else { 1 }) * (if n > 1 { n as int } else { 1 }),
            ;
            assert((0 + f.height) * width + (i as int) * frame_width + f.width <= (usize::MAX - 4) / 4) by (nonlinear_arith)
                requires
                    f.height <= fh,
                    (i as int) * frame_width + f.width <= width,
                    (fh + 1) * width * 4 + 4 <= usize::MAX,
            ;
            assert(f.height * f.width * 4 <= usize::MAX) by (nonlinear_arith)
                requires
                    f.height <= fh,
                    f.width <= width,
                    (fh + 1) * width * 4 + 4 <= usize::MAX,
            ;
        }
        let x = (i as u64 * frame_width as u64) as u32;
        sheet.blit(f, x, 0);
        i = i + 1;
    }
    // Tags become clips.
    let mut clips: Vec<Clip> = Vec::new();
    let mut k: usize = 0;
    while k < tags.len()
        invariant
            k <= tags@.len(),
            tick_rate > 0,
            views == tags@.map_values(|t: Tag| tag_view(t)),
            clips_fit(durations@, views, tick_rate),
            clips@.len() == k,
            forall|j: int| 0 <= j < k ==> clip_of_tag(#[trigger] clips@[j], views[j], durations@, tick_rate),
        decreases tags@.len() - k,
    {
        let t = &tags[k];
        proof {
            assert(views[k as int] == tag_view(tags@[k as int]));
        }
        let c = clip_from_range(t.name.as_str(), t.from, t.to, t.playback, durations.as_slice(), tick_rate);
        clips.push(c);
        k = k + 1;
    }
    // An untagged document still animates.
    if tags.len() == 0 && n > 0 {
        let mut frames_out: Vec<Frame> = Vec::new();
        let mut j: usize = 0;
        while j < n
            invariant
                j <= n,
                n == durations@.len(),
                n <= u32::MAX,
                tick_rate > 0,
                tags@.len() == 0,
                views == tags@.map_values(|t: Tag| tag_view(t)),
                clips_fit(durations@, views, tick_rate),
                frames_out@.len() == j,
                forall|m: int| 0 <= m < j ==> (#[trigger] frames_out@[m]).index == m && frames_out@[m].ticks
                    == ticks_for(durations@[m] as int, tick_rate as int) && frames_out@[m].event is None,
            decreases n - j,
        {
            let ms = durations[j];
            assert(ticks_fit(durations@[j as int] as int, tick_rate as int));
            frames_out.push(Frame { index: j as u32, ticks: ms_to_ticks(ms, tick_rate), event: None });
            j = j + 1;
        }
        clips.push(Clip { name: crate::text::string_from("default"), frames: frames_out, looping: true });
        proof {
            reveal_strlit("default");
        }
    }
    Aseprite { sheet, frame_width, frame_height, frame_count: n as u32, clips }
}

// ---------------------------------------------------------------------------
// Decoding
// ---------------------------------------------------------------------------

/// What the decoder hands back: the canvas width and height; each frame's
/// width, height, RGBA pixels (every visible layer blended in) and duration
/// in milliseconds; each tag's name, first frame, last frame and direction.
pub type AseDoc = (usize, usize, Vec<(u32, u32, Vec<u8>, u32)>, Vec<(String, u32, u32, u8)>);

/// A decoded document as plain values.
pub struct AseDocView {
    /// Canvas width.
    pub width: usize,
    /// Canvas height.
    pub height: usize,
    /// Each frame's width, height, pixels and duration in milliseconds.
    pub frames: Seq<(u32, u32, Seq<u8>, u32)>,
    /// Each tag's name, first frame, last frame and direction.
    pub tags: Seq<(Seq<char>, u32, u32, u8)>,
}

/// A decoded document seen as plain values.
pub open spec fn ase_doc_view(d: AseDoc) -> AseDocView {
    AseDocView {
        width: d.0,
        height: d.1,
        frames: d.2@.map_values(|f: (u32, u32, Vec<u8>, u32)| (f.0, f.1, f.2@, f.3)),
        tags: d.3@.map_values(|t: (String, u32, u32, u8)| (t.0@, t.1, t.2, t.3)),
    }
}

/// What `asefile` decodes a document's bytes to: the document, or the
/// decoder's message.
pub uninterp spec fn aseprite_decoded(bytes: Seq<u8>) -> Result<AseDocView, Seq<char>>;

/// Decode with `asefile`: `AsepriteFile::read` over the bytes; the canvas
/// `width` and `height`; for every frame its rendered `image` as width,
/// height and raw RGBA, and its `duration`; for every tag its `name`,
/// `from_frame`, `to_frame`, and its `animation_direction` as the number of
/// its variant (`Forward`, `Reverse`, `PingPong` in declaration order). What
/// it gives is [`aseprite_decoded`] of the bytes.
#[verifier::external_body]
fn ase_decode(bytes: &[u8]) -> (r: Result<AseDoc, String>)
    ensures
        match r {
            Ok(d) => aseprite_decoded(bytes@) == Ok::<AseDocView, Seq<char>>(ase_doc_view(d)),
            Err(m) => aseprite_decoded(bytes@) == Err::<AseDocView, Seq<char>>(m@),
        },
{
    let f = AsepriteFile::read(bytes).map_err(|e| e.to_string())?;
    let frame = |i| {
        let (fr, im) = (f.frame(i), f.frame(i).image());
        (im.width(), im.height(), im.into_raw(), fr.duration())
    };
    let tag = |i| {
        let t = f.tag(i);
        (t.name().into(), t.from_frame(), t.to_frame(), t.animation_direction() as u8)
    };
    Ok((f.width(), f.height(), (0..f.num_frames()).map(frame).collect(), (0..f.num_tags()).map(tag).collect()))
}

/// The playback a tag's direction number stands for: 1 reverse, 2
/// ping-pong, anything else forward.
pub open spec fn playback_of(d: u8) -> Playback {
    if d == 1 {
        Playback::Reverse
    } else if d == 2 {
        Playback::PingPong
    } else {
        Playback::Forward
    }
}

fn playback_from(d: u8) -> (p: Playback)
    ensures
        p == playback_of(d),
{
    if d == 1 {
        Playback::Reverse
    } else if d == 2 {
        Playback::PingPong
    } else {
        Playback::Forward
    }
}

/// The frames' sizes and pixels.
pub open spec fn frame_shapes(fs: Seq<(u32, u32, Seq<u8>, u32)>) -> Seq<(u32, u32, Seq<u8>)> {
    fs.map_values(|f: (u32, u32, Seq<u8>, u32)| (f.0, f.1, f.2))
}

/// The frames' durations.
pub open spec fn frame_durations(fs: Seq<(u32, u32, Seq<u8>, u32)>) -> Seq<u32> {
    fs.map_values(|f: (u32, u32, Seq<u8>, u32)| f.3)
}

/// The tags, each with its playback.
pub open spec fn doc_tags(ts: Seq<(Seq<char>, u32, u32, u8)>) -> Seq<(Seq<char>, u32, u32, Playback)> {
    ts.map_values(|t: (Seq<char>, u32, u32, u8)| (t.0, t.1, t.2, playback_of(t.3)))
}

/// A decoded document lays out: a canvas and a frame count that fit 32
/// bits, and every frame the canvas's size.
pub open spec fn ase_well_shaped(v: AseDocView) -> bool {
    &&& v.width <= u32::MAX
    &&& v.height <= u32::MAX
    &&& v.frames.len() <= u32::MAX
    &&& forall|i: int| 0 <= i < v.frames.len() ==> (#[trigger] v.frames[i]).0 == v.width && v.frames[i].1 == v.height
}

/// A decoded document's strip fits in memory.
pub open spec fn ase_strip_fits(v: AseDocView) -> bool {
    let w = strip_width(v.width as u32, v.frames.len() as int);
    &&& w <= u32::MAX
    &&& (strip_height(v.height as u32) + 1) * w * 4 + 4 <= usize::MAX
}

/// Read an Aseprite document's bytes.
///
/// `path` names the file in the error. `tick_rate` is the project's, and it
/// is baked into the clips that come back.
pub fn import_aseprite(path: &str, bytes: &[u8], tick_rate: u32) -> (r: Result<Aseprite, ImageError>)
    requires
        tick_rate > 0,
    ensures
        match aseprite_decoded(bytes@) {
            Err(m) => r matches Err(ImageError::Decode { path: p, detail: d }) && p@ == path@ && d@ == m,
            Ok(v) => if !ase_well_shaped(v) {
                r matches Err(ImageError::Decode { path: p, detail: d }) && p@ == path@
                    && d@ == "a frame does not match the canvas"@
            } else if !ase_strip_fits(v) {
                r matches Err(ImageError::Decode { path: p, detail: d }) && p@ == path@
                    && d@ == "the document is too large to lay out as one strip"@
            } else if !clips_fit(frame_durations(v.frames), doc_tags(v.tags), tick_rate) {
                r matches Err(ImageError::Decode { path: p, detail: d }) && p@ == path@
                    && d@ == "a frame lasts too long to count in ticks"@
            } else {
                r matches Ok(a) && assembles_to(
                    v.width as u32,
                    v.height as u32,
                    frame_shapes(v.frames),
                    frame_durations(v.frames),
                    doc_tags(v.tags),
                    tick_rate,
                    a,
                )
            },
        },
{
    let doc = match ase_decode(bytes) {
        Ok(d) => d,
        Err(m) => return Err(ImageError::decode(path, m.as_str())),
    };
    let ghost v = ase_doc_view(doc);
    let (width, height, raw_frames, raw_tags) = doc;
    let n = raw_frames.len();
    // A canvas and a frame count in 32 bits, each frame the canvas's size.
    let mut shaped = width as u64 <= u32::MAX as u64 && height as u64 <= u32::MAX as u64 && n as u64 <= u32::MAX as u64;
    let mut i: usize = 0;
    while i < n
        invariant
            i <= n,
            n == raw_frames@.len(),
            v.frames == raw_frames@.map_values(|f: (u32, u32, Vec<u8>, u32)| (f.0, f.1, f.2@, f.3)),
            v.width == width,
            v.height == height,
            shaped == (v.width <= u32::MAX && v.height <= u32::MAX && v.frames.len() <= u32::MAX && forall|j: int|
                0 <= j < i ==> (#[trigger] v.frames[j]).0 == v.width && v.frames[j].1 == v.height),
        decreases n - i,
    {
        proof {
            assert(v.frames[i as int].0 == raw_frames@[i as int].0 && v.frames[i as int].1 == raw_frames@[i as int].1);
        }
        if raw_frames[i].0 as usize != width || raw_frames[i].1 as usize != height {
            shaped = false;
        }
        i = i + 1;
    }
    if !shaped {
        return Err(ImageError::decode(path, "a frame does not match the canvas"));
    }
    let width = width as u32;
    let height = height as u32;
    // The strip fits.
    let fw: u128 = if width > 1 { width as u128 } else { 1 };
    let count: u128 = if n > 1 { n as u128 } else { 1 };
    let fh: u128 = if height > 1 { height as u128 } else { 1 };
    assert(fw * count <= 0x1_0000_0000 * 0x1_0000_0000_0000_0000) by (nonlinear_arith)
        requires
            fw <= 0x1_0000_0000,
            count <= 0x1_0000_0000_0000_0000,
    ;
    let wide = fw * count;
    if wide > u32::MAX as u128 || {
        assert((fh + 1) * wide * 4 + 4 <= 0x1_0000_0001 * 0x1_0000_0000 * 4 + 4) by (nonlinear_arith)
            requires
                fh + 1 <= 0x1_0000_0001,
                wide <= 0x1_0000_0000,
        ;
        (fh + 1) * wide * 4 + 4 > usize::MAX as u128
    } {
        return Err(ImageError::decode(path, "the document is too large to lay out as one strip"));
    }
    // Frames become canvas-sized images, with their durations beside them.
    let mut images: Vec<Image> = Vec::new();
    let mut durations: Vec<u32> = Vec::new();
    let mut k: usize = 0;
    while k < n
        invariant
            k <= n,
            n == raw_frames@.len(),
            v.frames == raw_frames@.map_values(|f: (u32, u32, Vec<u8>, u32)| (f.0, f.1, f.2@, f.3)),
            images@.len() == k,
            durations@.len() == k,
            forall|j: int| 0 <= j < k ==> image_shape(#[trigger] images@[j]) == frame_shapes(v.frames)[j],
            forall|j: int| 0 <= j < k ==> #[trigger] durations@[j] == frame_durations(v.frames)[j],
        decreases n - k,
    {
        let f = &raw_frames[k];
        let pixels = f.2.clone();
        proof {
            assert(pixels@ =~= f.2@);
            assert(v.frames[k as int] == (f.0, f.1, f.2@, f.3));
        }
        images.push(Image { name: String::new(), width: f.0, height: f.1, pixels });
        durations.push(f.3);
        k = k + 1;
    }
    // Tags get their playback.
    let mut tags: Vec<Tag> = Vec::new();
    let mut t: usize = 0;
    while t < raw_tags.len()
        invariant
            t <= raw_tags@.len(),
            v.tags == raw_tags@.map_values(|x: (String, u32, u32, u8)| (x.0@, x.1, x.2, x.3)),
            tags@.len() == t,
            forall|j: int| 0 <= j < t ==> tag_view(#[trigger] tags@[j]) == doc_tags(v.tags)[j],
        decreases raw_tags@.len() - t,
    {
        let x = &raw_tags[t];
        proof {
            assert(v.tags[t as int] == (x.0@, x.1, x.2, x.3));
        }
        tags.push(Tag { name: x.0.clone(), from: x.1, to: x.2, playback: playback_from(x.3) });
        t = t + 1;
    }
    proof {
        assert(images@.map_values(|f: Image| image_shape(f)) =~= frame_shapes(v.frames));
        assert(durations@ =~= frame_durations(v.frames));
        assert(tags@.map_values(|x: Tag| tag_view(x)) =~= doc_tags(v.tags));
    }
    // Every duration a clip uses converts.
    if !clips_convert(durations.as_slice(), tags.as_slice(), tick_rate) {
        return Err(ImageError::decode(path, "a frame lasts too long to count in ticks"));
    }
    Ok(assemble(width, height, images, durations, tags, tick_rate))
}

/// `ms` milliseconds convert to ticks at `tick_rate`.
pub(crate) fn converts(ms: u32, tick_rate: u32) -> (ok: bool)
    ensures
        ok == ticks_fit(ms as int, tick_rate as int),
{
    assert((ms as int) * (tick_rate as int) <= 0xffff_ffff * 0xffff_ffff) by (nonlinear_arith)
        requires
            ms <= 0xffff_ffff,
            tick_rate <= 0xffff_ffff,
    ;
    let product = (ms as u128) * (tick_rate as u128);
    product * 2 + 1000 <= u64::MAX as u128
}

/// Every frame from `lo` to `hi` converts; past the durations a frame is
/// held the default 100ms, which always does.
fn range_converts(durations: &[u32], lo: u32, hi: u32, tick_rate: u32) -> (ok: bool)
    ensures
        ok == range_fits(durations@, lo as int, hi as int, tick_rate),
{
    let end: u64 = if (hi as u64) < durations.len() as u64 { hi as u64 + 1 } else { durations.len() as u64 };
    let mut i: u64 = lo as u64;
    while i < end
        invariant
            lo <= i,
            end <= durations@.len(),
            end <= hi + 1,
            i <= end || end <= lo,
            forall|j: int| lo <= j < i ==> ticks_fit(#[trigger] duration_of(durations@, j), tick_rate as int),
        decreases end - i,
    {
        if !converts(durations[i as usize], tick_rate) {
            assert(ticks_fit(duration_of(durations@, i as int), tick_rate as int) == false);
            return false;
        }
        i = i + 1;
    }
    assert forall|j: int| lo <= j <= hi implies ticks_fit(#[trigger] duration_of(durations@, j), tick_rate as int) by {
        if j >= durations@.len() {
            assert(100 * (tick_rate as int) * 2 + 1000 <= u64::MAX);
        }
    }
    true
}

/// Every duration the clips of `tags` use converts.
fn clips_convert(durations: &[u32], tags: &[Tag], tick_rate: u32) -> (ok: bool)
    ensures
        ok == clips_fit(durations@, tags@.map_values(|t: Tag| tag_view(t)), tick_rate),
{
    let ghost views = tags@.map_values(|t: Tag| tag_view(t));
    if tags.len() == 0 {
        let mut i: usize = 0;
        while i < durations.len()
            invariant
                i <= durations@.len(),
                tags@.len() == 0,
                views == tags@.map_values(|t: Tag| tag_view(t)),
                forall|j: int| 0 <= j < i ==> ticks_fit(#[trigger] durations@[j] as int, tick_rate as int),
            decreases durations@.len() - i,
        {
            if !converts(durations[i], tick_rate) {
                assert(views.len() == 0);
                assert(!ticks_fit(durations@[i as int] as int, tick_rate as int));
                return false;
            }
            i = i + 1;
        }
        return true;
    }
    let mut k: usize = 0;
    while k < tags.len()
        invariant
            k <= tags@.len(),
            tags@.len() > 0,
            views == tags@.map_values(|t: Tag| tag_view(t)),
            forall|j: int|
                0 <= j < k ==> range_fits(
                    durations@,
                    if (#[trigger] views[j]).1 <= views[j].2 { views[j].1 as int } else { views[j].2 as int },
                    if views[j].1 <= views[j].2 { views[j].2 as int } else { views[j].1 as int },
                    tick_rate,
                ),
        decreases tags@.len() - k,
    {
        let t = &tags[k];
        let lo = if t.from <= t.to { t.from } else { t.to };
        let hi = if t.from <= t.to { t.to } else { t.from };
        proof {
            assert(views[k as int] == tag_view(tags@[k as int]));
        }
        if !range_converts(durations, lo, hi, tick_rate) {
            return false;
        }
        k = k + 1;
    }
    true
}

} // verus!
