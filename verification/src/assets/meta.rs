//! Asset identity: what a source file is, and the `.meta` beside it.
//!
//! Identity lives in the sidecar rather than being derived from the path.
//! That is the whole reason renaming a file is free: the id travels with the
//! settings, and every scene referencing it keeps working.
//!
//! The sidecar is TOML, read with `toml_edit`. What the crate hands back is
//! taken as plain keys, scalars and arrays of tables ([`TomlItem`]);
//! everything after that — which key holds the clips, defaults, range
//! checks, the messages — is [`meta_doc`] and [`settings_from_doc`].
use toml_edit::{DocumentMut, Item};

use self::TomlItem::{Scalar, Tables};
use self::TomlScalar::{Bool, Int, Other, Str};
use vstd::prelude::*;

use crate::decimal::decimal;
use crate::id::{uid_error_text, uid_parse, AssetId, UidFault};
use crate::text::{bool_text, debug_text};

verus! {

/// Where imported artifacts are cached.
pub const IMPORT_DIR: &'static str = ".import";

/// Extension of the sidecar carrying import settings.
pub const META_EXTENSION: &'static str = "meta";

// ---------------------------------------------------------------------------
// Source kinds
// ---------------------------------------------------------------------------

/// A source file the project can import.
#[derive(Clone, Copy, PartialEq, Eq, Debug, Structural)]
pub enum SourceKind {
    /// A still image.
    Png,
    /// An Aseprite document, whose tags become animation clips.
    Aseprite,
    /// An audio clip.
    Ogg,
    /// An LDtk level.
    Ldtk,
    /// A font, baked to a glyph page and a table of integer metrics.
    Font,
}

/// `s` with ASCII capitals lowered.
pub open spec fn ascii_lower(s: Seq<char>) -> Seq<char> {
    Seq::new(s.len(), |i: int| if 'A' <= s[i] && s[i] <= 'Z' { ((s[i] as u32) + 32) as char } else { s[i] })
}

/// The last path component, ignoring trailing separators.
pub open spec fn file_name(path: Seq<char>) -> Seq<char>
    decreases path.len(),
{
    if path.len() > 0 && path.last() == '/' {
        file_name(path.drop_last())
    } else {
        last_component(path, path.len() as int)
    }
}

/// The text after the last `/` before position `end`.
pub open spec fn last_component(path: Seq<char>, end: int) -> Seq<char>
    decreases end,
{
    if end <= 0 {
        path
    } else if path[end - 1] == '/' {
        path.subrange(end, path.len() as int)
    } else {
        last_component(path, end - 1)
    }
}

/// The position of the last `.` in `name`, if any.
pub open spec fn last_dot(name: Seq<char>) -> Option<int>
    decreases name.len(),
{
    if name.len() == 0 {
        None
    } else if name.last() == '.' {
        Some(name.len() - 1)
    } else {
        last_dot(name.drop_last())
    }
}

/// A path's extension as `Path::extension` finds it: after the last `.` of
/// the file name, unless that dot starts the name; none for `..`.
pub open spec fn extension(path: Seq<char>) -> Option<Seq<char>> {
    let name = file_name(path);
    if name == seq!['.', '.'] {
        None
    } else {
        match last_dot(name) {
            Some(d) => if d == 0 {
                None
            } else {
                Some(name.skip(d + 1))
            },
            None => None,
        }
    }
}

/// The kind an extension names, lowercased.
pub open spec fn kind_of_extension(ext: Seq<char>) -> Option<SourceKind> {
    let e = ascii_lower(ext);
    if e == "png"@ {
        Some(SourceKind::Png)
    } else if e == "ase"@ || e == "aseprite"@ {
        Some(SourceKind::Aseprite)
    } else if e == "ogg"@ || e == "wav"@ {
        Some(SourceKind::Ogg)
    } else if e == "ldtk"@ {
        Some(SourceKind::Ldtk)
    } else if e == "ttf"@ || e == "otf"@ {
        Some(SourceKind::Font)
    } else {
        None
    }
}

/// The extensions that name each kind, case aside: `png`; `ase` and
/// `aseprite`; `ogg` and `wav`; `ldtk`; `ttf` and `otf`. Anything else names
/// no kind.
pub proof fn lemma_extension_table(ext: Seq<char>)
    ensures
        ({
            let e = ascii_lower(ext);
            &&& e == seq!['p', 'n', 'g'] ==> kind_of_extension(ext) == Some(SourceKind::Png)
            &&& (e == seq!['a', 's', 'e'] || e == seq!['a', 's', 'e', 'p', 'r', 'i', 't', 'e']) ==> kind_of_extension(ext)
                == Some(SourceKind::Aseprite)
            &&& (e == seq!['o', 'g', 'g'] || e == seq!['w', 'a', 'v']) ==> kind_of_extension(ext) == Some(SourceKind::Ogg)
            &&& e == seq!['l', 'd', 't', 'k'] ==> kind_of_extension(ext) == Some(SourceKind::Ldtk)
            &&& (e == seq!['t', 't', 'f'] || e == seq!['o', 't', 'f']) ==> kind_of_extension(ext) == Some(SourceKind::Font)
            &&& !(e == seq!['p', 'n', 'g'] || e == seq!['a', 's', 'e'] || e == seq!['a', 's', 'e', 'p', 'r', 'i', 't', 'e']
                || e == seq!['o', 'g', 'g'] || e == seq!['w', 'a', 'v'] || e == seq!['l', 'd', 't', 'k'] || e == seq!['t', 't', 'f']
                || e == seq!['o', 't', 'f']) ==> kind_of_extension(ext) is None
        }),
{
    reveal_strlit("png");
    reveal_strlit("ase");
    reveal_strlit("aseprite");
    reveal_strlit("ogg");
    reveal_strlit("wav");
    reveal_strlit("ldtk");
    reveal_strlit("ttf");
    reveal_strlit("otf");
    assert("png"@ =~= seq!['p', 'n', 'g']);
    assert("ase"@ =~= seq!['a', 's', 'e']);
    assert("aseprite"@ =~= seq!['a', 's', 'e', 'p', 'r', 'i', 't', 'e']);
    assert("ogg"@ =~= seq!['o', 'g', 'g']);
    assert("wav"@ =~= seq!['w', 'a', 'v']);
    assert("ldtk"@ =~= seq!['l', 'd', 't', 'k']);
    assert("ttf"@ =~= seq!['t', 't', 'f']);
    assert("otf"@ =~= seq!['o', 't', 'f']);
}

/// A file named `name.EXT`, with `name` free of `/` and `.` and not empty,
/// has the extension `EXT`: so `fonts/pixel.ttf` is a font.
pub proof fn lemma_extension_of_plain_name(dir: Seq<char>, name: Seq<char>, ext: Seq<char>)
    requires
        name.len() > 0,
        forall|i: int| 0 <= i < name.len() ==> #[trigger] name[i] != '/' && name[i] != '.',
        forall|i: int| 0 <= i < ext.len() ==> #[trigger] ext[i] != '/' && ext[i] != '.',
        ext.len() > 0,
    ensures
        extension(dir + seq!['/'] + name + seq!['.'] + ext) == Some(ext),
{
    let path = dir + seq!['/'] + name + seq!['.'] + ext;
    let file = name + seq!['.'] + ext;
    let start: int = dir.len() as int + 1;
    assert(path.last() == ext.last());
    lemma_last_component_after(path, start, path.len() as int);
    assert(path.subrange(start, path.len() as int) =~= file);
    assert(file_name(path) == file) by {
        reveal_with_fuel(file_name, 2);
    }
    lemma_last_dot_at(file, name.len() as int);
    assert(file.skip(name.len() as int + 1) =~= ext);
    assert(file != seq!['.', '.']) by {
        if file =~= seq!['.', '.'] {
            assert(file[0] == name[0]);
        }
    }
}

/// The component ending at `end` starts at `start` when `path[start - 1]` is
/// the last `/` before `end`.
proof fn lemma_last_component_after(path: Seq<char>, start: int, end: int)
    requires
        1 <= start <= end <= path.len(),
        path[start - 1] == '/',
        forall|i: int| start <= i < end ==> #[trigger] path[i] != '/',
    ensures
        last_component(path, end) == path.subrange(start, path.len() as int),
    decreases end,
{
    if end > start {
        lemma_last_component_after(path, start, end - 1);
    }
}

/// The last `.` of `n + "." + e`, with no `.` in `e`, is the one at `n.len()`.
proof fn lemma_last_dot_at(file: Seq<char>, at: int)
    requires
        0 <= at < file.len(),
        file[at] == '.',
        forall|i: int| at < i < file.len() ==> #[trigger] file[i] != '.',
    ensures
        last_dot(file) == Some(at),
    decreases file.len(),
{
    if file.len() - 1 > at {
        assert(file.drop_last()[at] == '.');
        assert forall|i: int| at < i < file.drop_last().len() implies #[trigger] file.drop_last()[i] != '.' by {
            assert(file.drop_last()[i] == file[i]);
        }
        lemma_last_dot_at(file.drop_last(), at);
    }
}

fn ascii_lower_exec(s: &[char]) -> (out: Vec<char>)
    ensures
        out@ == ascii_lower(s@),
{
    let mut out: Vec<char> = Vec::new();
    let mut i: usize = 0;
    while i < s.len()
        invariant
            i <= s@.len(),
            out@ == ascii_lower(s@).take(i as int),
        decreases s@.len() - i,
    {
        let c = s[i];
        let lowered = if 'A' <= c && c <= 'Z' {
            proof {
                crate::rng::lemma_char_code(c);
            }
            char_from_ascii((c as u32 + 32) as u8)
        } else {
            c
        };
        out.push(lowered);
        proof {
            assert(ascii_lower(s@).take(i + 1) =~= ascii_lower(s@).take(i as int).push(lowered));
        }
        i = i + 1;
    }
    proof {
        assert(ascii_lower(s@).take(s@.len() as int) =~= ascii_lower(s@));
    }
    out
}

/// The character with an ASCII code.
pub fn char_from_ascii(b: u8) -> (c: char)
    requires
        b < 128,
    ensures
        c == b as char,
        c as u32 == b,
{
    b as char
}

impl SourceKind {
    /// Classify a path by extension, ignoring ASCII case.
    pub fn of(path: &str) -> (r: Option<SourceKind>)
        ensures
            r == match extension(path@) {
                Some(e) => kind_of_extension(e),
                None => None,
            },
    {
        let cs = crate::text::chars_of(path);
        // Drop trailing separators.
        let mut end = cs.len();
        proof {
            assert(cs@.take(cs@.len() as int) =~= cs@);
        }
        while end > 0 && cs[end - 1] == '/'
            invariant
                end <= cs@.len(),
                cs@ == path@,
                file_name(path@) == file_name(cs@.take(end as int)),
            decreases end,
        {
            proof {
                assert(cs@.take(end as int).drop_last() =~= cs@.take(end - 1));
            }
            end = end - 1;
        }
        let ghost trimmed = cs@.take(end as int);
        proof {
            assert(trimmed.len() == 0 || trimmed.last() != '/');
        }
        // The file name starts after the last separator.
        let mut start = end;
        while start > 0 && cs[start - 1] != '/'
            invariant
                start <= end <= cs@.len(),
                trimmed == cs@.take(end as int),
                last_component(trimmed, trimmed.len() as int) == last_component(trimmed, start as int),
            decreases start,
        {
            start = start - 1;
        }
        proof {
            if start > 0 {
                assert(trimmed[start - 1] == '/');
            }
            assert(last_component(trimmed, start as int) =~= cs@.subrange(start as int, end as int));
        }
        let ghost name = cs@.subrange(start as int, end as int);
        if end - start == 2 && cs[start] == '.' && cs[start + 1] == '.' {
            proof {
                assert(name =~= seq!['.', '.']);
            }
            return None;
        }
        // The extension starts after the last dot.
        let mut dot = end;
        while dot > start && cs[dot - 1] != '.'
            invariant
                start <= dot <= end,
                end <= cs@.len(),
                name == cs@.subrange(start as int, end as int),
                last_dot(name) == last_dot(cs@.subrange(start as int, dot as int)),
            decreases dot,
        {
            proof {
                assert(cs@.subrange(start as int, dot as int).drop_last() =~= cs@.subrange(start as int, dot - 1));
            }
            dot = dot - 1;
        }
        if dot == start {
            proof {
                assert(cs@.subrange(start as int, dot as int).len() == 0);
            }
            return None;
        }
        proof {
            assert(last_dot(cs@.subrange(start as int, dot as int)) == Some(dot - 1 - start));
        }
        if dot - 1 == start {
            return None;
        }
        let mut ext: Vec<char> = Vec::new();
        let mut k = dot;
        while k < end
            invariant
                dot <= k <= end,
                end <= cs@.len(),
                ext@ == cs@.subrange(dot as int, k as int),
            decreases end - k,
        {
            ext.push(cs[k]);
            proof {
                assert(cs@.subrange(dot as int, k + 1) =~= cs@.subrange(dot as int, k as int).push(cs@[k as int]));
            }
            k = k + 1;
        }
        proof {
            assert(name.skip(dot - start) =~= ext@);
        }
        let e = ascii_lower_exec(ext.as_slice());
        let es = e.as_slice();
        proof {
            assert(file_name(path@) == name);
            assert(extension(path@) == Some(ext@));
            reveal_strlit("png");
            reveal_strlit("ase");
            reveal_strlit("aseprite");
            reveal_strlit("ogg");
            reveal_strlit("wav");
            reveal_strlit("ldtk");
            reveal_strlit("ttf");
            reveal_strlit("otf");
            assert("png"@ =~= seq!['p', 'n', 'g']);
            assert("ase"@ =~= seq!['a', 's', 'e']);
            assert("aseprite"@ =~= seq!['a', 's', 'e', 'p', 'r', 'i', 't', 'e']);
            assert("ogg"@ =~= seq!['o', 'g', 'g']);
            assert("wav"@ =~= seq!['w', 'a', 'v']);
            assert("ldtk"@ =~= seq!['l', 'd', 't', 'k']);
            assert("ttf"@ =~= seq!['t', 't', 'f']);
            assert("otf"@ =~= seq!['o', 't', 'f']);
        }
        if crate::text::chars_eq(es, &['p', 'n', 'g']) {
            Some(SourceKind::Png)
        } else if crate::text::chars_eq(es, &['a', 's', 'e']) || crate::text::chars_eq(
            es,
            &['a', 's', 'e', 'p', 'r', 'i', 't', 'e'],
        ) {
            Some(SourceKind::Aseprite)
        } else if crate::text::chars_eq(es, &['o', 'g', 'g']) || crate::text::chars_eq(es, &['w', 'a', 'v']) {
            Some(SourceKind::Ogg)
        } else if crate::text::chars_eq(es, &['l', 'd', 't', 'k']) {
            Some(SourceKind::Ldtk)
        } else if crate::text::chars_eq(es, &['t', 't', 'f']) || crate::text::chars_eq(es, &['o', 't', 'f']) {
            Some(SourceKind::Font)
        } else {
            None
        }
    }
}

// ---------------------------------------------------------------------------
// Import settings
// ---------------------------------------------------------------------------

/// The characters baked by default: printable ASCII, space to `~`.
pub open spec fn default_charset_text() -> Seq<char> {
    Seq::new(95, |i: int| ((i + 32) as u8) as char)
}

/// How long a frame of a declared strip is held, by default: 100ms.
pub fn default_frame_ms() -> (r: u32)
    ensures
        r == 100,
{
    100
}

/// The pixel size a font is baked at, by default: 16.
pub fn default_font_size() -> (r: u32)
    ensures
        r == 16,
{
    16
}

/// The characters baked by default: printable ASCII.
pub fn default_charset() -> (r: String)
    ensures
        r@ == default_charset_text(),
{
    let mut out = String::new();
    let mut b: u8 = 32;
    while b < 127
        invariant
            32 <= b <= 127,
            out@ == default_charset_text().take(b - 32),
        decreases 127 - b,
    {
        crate::text::push_char(&mut out, char_from_ascii(b));
        proof {
            assert(default_charset_text().take(b - 31) =~= default_charset_text().take(b - 32).push(b as char));
        }
        b = b + 1;
    }
    proof {
        assert(default_charset_text().take(95) =~= default_charset_text());
    }
    out
}

/// One frame, the default count of a still.
pub fn one() -> (r: u32)
    ensures
        r == 1,
{
    1
}

/// `true`, the default of the flags that default on.
pub fn yes() -> (r: bool)
    ensures
        r,
{
    true
}

/// A named range of frames over a plain strip.
///
/// Ranges rather than counts, so an off-by-one is a diagnostic naming the
/// clip rather than a silent shift of every frame after it.
#[derive(Clone, PartialEq, Eq, Debug)]
pub struct ClipRange {
    /// What `anim.play` calls it.
    pub name: String,
    /// First frame, inclusive.
    pub from: u32,
    /// Last frame, inclusive.
    pub to: u32,
    /// Whether it repeats. One-shot for an attack, looping for an idle.
    pub looping: bool,
    /// How long each frame is held, overriding the sheet's `frame_ms`.
    pub frame_ms: Option<u32>,
}

/// Settings for one source file, stored in a sibling `.meta`.
///
/// Text, and hand- and agent-editable. An import setting that can only be
/// changed through a GUI is one an agent cannot change at all.
#[derive(Clone, PartialEq, Eq, Debug)]
pub struct ImportSettings {
    /// Permanent id for this asset.
    pub id: AssetId,
    /// Hash of the source the cache was built from.
    pub source_hash: Option<String>,
    /// Sample with nearest-neighbour rather than linear filtering.
    pub nearest: bool,
    /// Pack into a shared atlas.
    pub atlas: bool,
    /// Animation frames the image holds, side by side.
    pub frames: u32,
    /// Pixel size a font is baked at.
    pub font_size: u32,
    /// Characters to bake.
    pub charset: String,
    /// How long each frame of a declared strip is held, in milliseconds.
    pub frame_ms: u32,
    /// Named clips over the strip, if the sheet declares any.
    pub clips: Vec<ClipRange>,
}

/// A clip range as plain values.
pub struct ClipView {
    pub name: Seq<char>,
    pub from: int,
    pub to: int,
    pub looping: bool,
    pub frame_ms: Option<int>,
}

/// The plain values of a clip range.
pub open spec fn clip_view(c: ClipRange) -> ClipView {
    ClipView {
        name: c.name@,
        from: c.from as int,
        to: c.to as int,
        looping: c.looping,
        frame_ms: match c.frame_ms {
            Some(v) => Some(v as int),
            None => None,
        },
    }
}

/// The `.meta` text for one clip.
pub open spec fn clip_text(c: ClipRange) -> Seq<char> {
    "\n[[clip]]\n"@ + "name = "@ + debug_text(c.name@) + "\n"@ + "from = "@ + decimal(c.from as nat)
        + "\n"@ + "to = "@ + decimal(c.to as nat) + "\n"@ + (if !c.looping {
        "looping = false\n"@
    } else {
        Seq::<char>::empty()
    }) + match c.frame_ms {
        Some(ms) => "frame_ms = "@ + decimal(ms as nat) + "\n"@,
        None => Seq::<char>::empty(),
    }
}

/// The `.meta` text for every clip, in order.
pub open spec fn clips_text(clips: Seq<ClipRange>) -> Seq<char>
    decreases clips.len(),
{
    if clips.len() == 0 {
        Seq::empty()
    } else {
        clips_text(clips.drop_last()) + clip_text(clips.last())
    }
}

/// The sheet's identity and flags, the first lines of a `.meta`.
pub open spec fn header_text(s: ImportSettings) -> Seq<char> {
    "id = \""@ + "a_"@ + s.id.body_chars() + "\"\n"@ + match s.source_hash {
        Some(h) => "source_hash = \""@ + h@ + "\"\n"@,
        None => Seq::<char>::empty(),
    } + "nearest = "@ + bool_text(s.nearest) + "\n"@ + "atlas = "@ + bool_text(s.atlas) + "\n"@
}

/// The strip keys, written only for a strip.
pub open spec fn strip_text(s: ImportSettings) -> Seq<char> {
    if s.frames > 1 {
        "frames = "@ + decimal(s.frames as nat) + "\n"@ + "frame_ms = "@ + decimal(s.frame_ms as nat)
            + "\n"@
    } else {
        Seq::<char>::empty()
    }
}

/// The font keys, written only when they differ from the defaults.
pub open spec fn font_text(s: ImportSettings) -> Seq<char> {
    if s.font_size != 16 || s.charset@ != default_charset_text() {
        "font_size = "@ + decimal(s.font_size as nat) + "\n"@ + "charset = "@ + debug_text(s.charset@)
            + "\n"@
    } else {
        Seq::<char>::empty()
    }
}

/// The `.meta` text for a set of import settings: the sheet keys first and
/// the clip tables last, because a TOML array of tables swallows every key
/// written after it.
pub open spec fn settings_text(s: ImportSettings) -> Seq<char> {
    header_text(s) + strip_text(s) + font_text(s) + clips_text(s.clips@)
}

/// Whether two clips share a frame.
pub open spec fn overlaps(a: ClipRange, b: ClipRange) -> bool {
    a.from <= b.to && b.from <= a.to
}

/// The warning for two clips that share frames.
pub open spec fn overlap_text(a: ClipRange, b: ClipRange) -> Seq<char> {
    "clips "@ + debug_text(a.name@) + " ("@ + decimal(a.from as nat) + "..="@ + decimal(a.to as nat)
        + ") and "@ + debug_text(b.name@) + " ("@ + decimal(b.from as nat) + "..="@ + decimal(
        b.to as nat,
    ) + ") share frames; intended if they reuse art, an off-by-one if not"@
}

/// Warnings for clip `i` against clips `j ..` after it.
pub open spec fn pair_warnings(clips: Seq<ClipRange>, i: int, j: int) -> Seq<Seq<char>>
    decreases clips.len() - j,
{
    if j >= clips.len() {
        Seq::empty()
    } else {
        (if overlaps(clips[i], clips[j]) {
            seq![overlap_text(clips[i], clips[j])]
        } else {
            Seq::empty()
        }) + pair_warnings(clips, i, j + 1)
    }
}

/// Warnings for every pair of clips from `i` on, in order.
pub open spec fn all_warnings(clips: Seq<ClipRange>, i: int) -> Seq<Seq<char>>
    decreases clips.len() - i,
{
    if i >= clips.len() {
        Seq::empty()
    } else {
        pair_warnings(clips, i, i + 1) + all_warnings(clips, i + 1)
    }
}

#[verifier::spinoff_prover]
#[verifier::rlimit(30)]
fn push_clip_text(out: &mut String, c: &ClipRange)
    ensures
        final(out)@ == old(out)@ + clip_text(*c),
{
    crate::text::push_str(out, "\n[[clip]]\n");
    crate::text::push_str(out, "name = ");
    let n = crate::text::debug_str(c.name.as_str());
    crate::text::push_str(out, n.as_str());
    crate::text::push_str(out, "\n");
    crate::text::push_str(out, "from = ");
    crate::text::push_u64(out, c.from as u64);
    crate::text::push_str(out, "\n");
    crate::text::push_str(out, "to = ");
    crate::text::push_u64(out, c.to as u64);
    crate::text::push_str(out, "\n");
    if !c.looping {
        crate::text::push_str(out, "looping = false\n");
    }
    match c.frame_ms {
        Some(ms) => {
            crate::text::push_str(out, "frame_ms = ");
            crate::text::push_u64(out, ms as u64);
            crate::text::push_str(out, "\n");
        },
        None => {},
    }
    proof {
        assert(final(out)@ =~= old(out)@ + clip_text(*c));
    }
}

impl ImportSettings {
    /// Default settings for a new asset.
    pub fn new(id: AssetId) -> (r: ImportSettings)
        ensures
            r.id == id,
            r.source_hash is None,
            r.nearest,
            r.atlas,
            r.frames == 1,
            r.frame_ms == 100,
            r.font_size == 16,
            r.charset@ == default_charset_text(),
            r.clips@.len() == 0,
    {
        ImportSettings {
            id,
            source_hash: None,
            nearest: true,
            atlas: true,
            frames: 1,
            frame_ms: default_frame_ms(),
            font_size: default_font_size(),
            charset: default_charset(),
            clips: Vec::new(),
        }
    }

    fn push_header(&self, out: &mut String)
        ensures
            final(out)@ == old(out)@ + header_text(*self),
    {
        crate::text::push_str(out, "id = \"");
        let id = self.id.to_text();
        crate::text::push_str(out, id.as_str());
        crate::text::push_str(out, "\"\n");
        match &self.source_hash {
            Some(hash) => {
                crate::text::push_str(out, "source_hash = \"");
                crate::text::push_str(out, hash.as_str());
                crate::text::push_str(out, "\"\n");
            },
            None => {},
        }
        crate::text::push_str(out, "nearest = ");
        crate::text::push_bool(out, self.nearest);
        crate::text::push_str(out, "\n");
        crate::text::push_str(out, "atlas = ");
        crate::text::push_bool(out, self.atlas);
        crate::text::push_str(out, "\n");
        proof {
            assert(final(out)@ =~= old(out)@ + header_text(*self));
        }
    }

    fn push_strip(&self, out: &mut String)
        ensures
            final(out)@ == old(out)@ + strip_text(*self),
    {
        if self.frames > 1 {
            crate::text::push_str(out, "frames = ");
            crate::text::push_u64(out, self.frames as u64);
            crate::text::push_str(out, "\n");
            crate::text::push_str(out, "frame_ms = ");
            crate::text::push_u64(out, self.frame_ms as u64);
            crate::text::push_str(out, "\n");
        }
        proof {
            assert(final(out)@ =~= old(out)@ + strip_text(*self));
        }
    }

    fn push_font(&self, out: &mut String)
        ensures
            final(out)@ == old(out)@ + font_text(*self),
    {
        let default = default_charset();
        if self.font_size != 16 || !crate::text::str_eq(self.charset.as_str(), default.as_str()) {
            crate::text::push_str(out, "font_size = ");
            crate::text::push_u64(out, self.font_size as u64);
            crate::text::push_str(out, "\n");
            crate::text::push_str(out, "charset = ");
            let c = crate::text::debug_str(self.charset.as_str());
            crate::text::push_str(out, c.as_str());
            crate::text::push_str(out, "\n");
        }
        proof {
            assert(final(out)@ =~= old(out)@ + font_text(*self));
        }
    }

    /// A copy of these settings.
    pub fn copy(&self) -> (r: ImportSettings)
        ensures
            r.id == self.id,
            r.source_hash == self.source_hash,
            r.nearest == self.nearest,
            r.atlas == self.atlas,
            r.frames == self.frames,
            r.font_size == self.font_size,
            r.charset == self.charset,
            r.frame_ms == self.frame_ms,
            r.clips@ == self.clips@,
    {
        let mut clips: Vec<ClipRange> = Vec::new();
        let mut i: usize = 0;
        while i < self.clips.len()
            invariant
                i <= self.clips@.len(),
                clips@ == self.clips@.subrange(0, i as int),
            decreases self.clips@.len() - i,
        {
            let c = &self.clips[i];
            clips.push(ClipRange { name: c.name.clone(), from: c.from, to: c.to, looping: c.looping, frame_ms: c.frame_ms });
            i = i + 1;
        }
        assert(self.clips@.subrange(0, self.clips@.len() as int) == self.clips@);
        let source_hash = match &self.source_hash {
            Some(h) => Some(h.clone()),
            None => None,
        };
        ImportSettings {
            id: self.id,
            source_hash,
            nearest: self.nearest,
            atlas: self.atlas,
            frames: self.frames,
            font_size: self.font_size,
            charset: self.charset.clone(),
            frame_ms: self.frame_ms,
            clips,
        }
    }

    /// Render as TOML.
    pub fn to_text(&self) -> (out: String)
        ensures
            out@ == settings_text(*self),
    {
        let mut out = String::new();
        self.push_header(&mut out);
        self.push_strip(&mut out);
        self.push_font(&mut out);
        let ghost head = out@;
        let mut i: usize = 0;
        while i < self.clips.len()
            invariant
                i <= self.clips@.len(),
                out@ == head + clips_text(self.clips@.take(i as int)),
            decreases self.clips@.len() - i,
        {
            push_clip_text(&mut out, &self.clips[i]);
            proof {
                assert(self.clips@.take(i + 1).drop_last() =~= self.clips@.take(i as int));
            }
            i = i + 1;
        }
        proof {
            assert(self.clips@.take(self.clips@.len() as int) =~= self.clips@);
        }
        out
    }

    /// Anything about the declared clips worth saying that is not fatal:
    /// every pair of clips that share a frame, in order.
    ///
    /// Overlap is a warning rather than an error on purpose: reusing frames
    /// across clips is a real technique. But `0..3` then `3..7` when `4` was
    /// meant is exactly the off-by-one ranges are here to catch.
    pub fn clip_warnings(&self) -> (out: Vec<String>)
        ensures
            out@.len() == all_warnings(self.clips@, 0).len(),
            forall|k: int| 0 <= k < out@.len() ==> (#[trigger] out@[k])@ == all_warnings(self.clips@, 0)[k],
    {
        let clips = &self.clips;
        let mut out: Vec<String> = Vec::new();
        let mut i: usize = 0;
        while i < clips.len()
            invariant
                i <= clips@.len(),
                out@.len() + all_warnings(clips@, i as int).len() == all_warnings(clips@, 0).len(),
                forall|k: int| 0 <= k < out@.len() ==> (#[trigger] out@[k])@ == all_warnings(clips@, 0)[k],
                all_warnings(clips@, 0).subrange(out@.len() as int, all_warnings(clips@, 0).len() as int) == all_warnings(clips@, i as int),
            decreases clips@.len() - i,
        {
            let mut j: usize = i + 1;
            while j < clips.len()
                invariant
                    i < clips@.len(),
                    i + 1 <= j <= clips@.len(),
                    out@.len() + pair_warnings(clips@, i as int, j as int).len() + all_warnings(clips@, i + 1).len()
                        == all_warnings(clips@, 0).len(),
                    forall|k: int| 0 <= k < out@.len() ==> (#[trigger] out@[k])@ == all_warnings(clips@, 0)[k],
                    all_warnings(clips@, 0).subrange(out@.len() as int, all_warnings(clips@, 0).len() as int)
                        == pair_warnings(clips@, i as int, j as int) + all_warnings(clips@, i + 1),
                decreases clips@.len() - j,
            {
                let a = &clips[i];
                let b = &clips[j];
                let ghost rest = pair_warnings(clips@, i as int, j + 1) + all_warnings(clips@, i + 1);
                let ghost whole = all_warnings(clips@, 0);
                if a.from <= b.to && b.from <= a.to {
                    let mut msg = String::new();
                    crate::text::push_str(&mut msg, "clips ");
                    let an = crate::text::debug_str(a.name.as_str());
                    crate::text::push_str(&mut msg, an.as_str());
                    crate::text::push_str(&mut msg, " (");
                    crate::text::push_u64(&mut msg, a.from as u64);
                    crate::text::push_str(&mut msg, "..=");
                    crate::text::push_u64(&mut msg, a.to as u64);
                    crate::text::push_str(&mut msg, ") and ");
                    let bn = crate::text::debug_str(b.name.as_str());
                    crate::text::push_str(&mut msg, bn.as_str());
                    crate::text::push_str(&mut msg, " (");
                    crate::text::push_u64(&mut msg, b.from as u64);
                    crate::text::push_str(&mut msg, "..=");
                    crate::text::push_u64(&mut msg, b.to as u64);
                    crate::text::push_str(
                        &mut msg,
                        ") share frames; intended if they reuse art, an off-by-one if not",
                    );
                    proof {
                        assert(msg@ =~= overlap_text(clips@[i as int], clips@[j as int]));
                        let old_len = out@.len();
                        assert(pair_warnings(clips@, i as int, j as int) =~= seq![msg@] + pair_warnings(clips@, i as int, j + 1));
                        assert(whole.subrange(old_len as int, whole.len() as int) =~= seq![msg@] + rest);
                        assert(whole[old_len as int] == msg@) by {
                            assert(whole.subrange(old_len as int, whole.len() as int)[0] == whole[old_len as int]);
                        }
                        assert(whole.subrange(old_len as int + 1, whole.len() as int) =~= whole.subrange(old_len as int, whole.len() as int).drop_first());
                        assert((seq![msg@] + rest).drop_first() =~= rest);
                    }
                    out.push(msg);
                } else {
                    proof {
                        assert(pair_warnings(clips@, i as int, j as int) =~= pair_warnings(clips@, i as int, j + 1));
                    }
                }
                j = j + 1;
            }
            proof {
                assert(pair_warnings(clips@, i as int, j as int) =~= Seq::<Seq<char>>::empty());
                assert(pair_warnings(clips@, i as int, j as int) + all_warnings(clips@, i + 1) =~= all_warnings(clips@, i + 1));
            }
            i = i + 1;
        }
        out
    }
}

// ---------------------------------------------------------------------------
// Reading a `.meta`
// ---------------------------------------------------------------------------

/// A TOML value as far as import settings care: a string, a boolean, an
/// integer, or something else.
#[derive(Clone, PartialEq, Eq, Debug)]
pub enum TomlScalar {
    /// A string.
    Str(String),
    /// A boolean.
    Bool(bool),
    /// An integer.
    Int(i64),
    /// Anything else: a float, a date, an array, a table.
    Other,
}

/// A TOML value as plain values.
pub enum ScalarView {
    Str(Seq<char>),
    Bool(bool),
    Int(int),
    Other,
}

/// A parsed `.meta`: the top-level keys with their values, in document
/// order, and the `[[clip]]` tables if `clip` is an array of tables.
#[derive(Clone, PartialEq, Eq, Debug)]
pub struct MetaDoc {
    /// Top-level keys and values.
    pub keys: Vec<(String, TomlScalar)>,
    /// The keys of each `[[clip]]` table.
    pub clips: Option<Vec<Vec<(String, TomlScalar)>>>,
}

/// A parsed `.meta` as plain values.
pub struct MetaDocView {
    pub keys: Seq<(Seq<char>, ScalarView)>,
    pub clips: Option<Seq<Seq<(Seq<char>, ScalarView)>>>,
}

/// The plain value of a scalar.
pub open spec fn scalar_view(v: TomlScalar) -> ScalarView {
    match v {
        TomlScalar::Str(s) => ScalarView::Str(s@),
        TomlScalar::Bool(b) => ScalarView::Bool(b),
        TomlScalar::Int(n) => ScalarView::Int(n as int),
        TomlScalar::Other => ScalarView::Other,
    }
}

/// The plain values of a table's keys.
pub open spec fn table_view(t: Seq<(String, TomlScalar)>) -> Seq<(Seq<char>, ScalarView)> {
    Seq::new(t.len(), |i: int| (t[i].0@, scalar_view(t[i].1)))
}

/// The plain values of a list of tables.
pub open spec fn tables_view(ts: Seq<Vec<(String, TomlScalar)>>) -> Seq<Seq<(Seq<char>, ScalarView)>> {
    Seq::new(ts.len(), |i: int| table_view(ts[i]@))
}

/// The plain values of a list of clip ranges.
pub open spec fn clip_views(cs: Seq<ClipRange>) -> Seq<ClipView> {
    Seq::new(cs.len(), |k: int| clip_view(cs[k]))
}

impl MetaDoc {
    /// The parsed document as plain values.
    pub open spec fn view(&self) -> MetaDocView {
        MetaDocView {
            keys: table_view(self.keys@),
            clips: match self.clips {
                Some(ts) => Some(tables_view(ts@)),
                None => None,
            },
        }
    }
}

/// A top-level TOML item: a value as far as settings care, or an array of
/// tables, each as its keys and values.
#[derive(Clone, PartialEq, Eq, Debug)]
pub enum TomlItem {
    /// Anything but an array of tables.
    Scalar(TomlScalar),
    /// An array of tables, such as `[[clip]]`.
    Tables(Vec<Vec<(String, TomlScalar)>>),
}

/// A top-level item as plain values.
pub enum ItemView {
    Scalar(ScalarView),
    Tables(Seq<Seq<(Seq<char>, ScalarView)>>),
}

/// The plain value of a top-level item.
pub open spec fn item_view(i: TomlItem) -> ItemView {
    match i {
        TomlItem::Scalar(v) => ItemView::Scalar(scalar_view(v)),
        TomlItem::Tables(ts) => ItemView::Tables(tables_view(ts@)),
    }
}

/// The plain values of a document's top-level items.
pub open spec fn items_view(t: Seq<(String, TomlItem)>) -> Seq<(Seq<char>, ItemView)> {
    Seq::new(t.len(), |i: int| (t[i].0@, item_view(t[i].1)))
}

/// What `toml_edit` parses a text into: every top-level key with its item,
/// in document order, as plain values; or the message of the error it
/// reports. A function of the text alone.
pub uninterp spec fn toml_meta(text: Seq<char>) -> Result<Seq<(Seq<char>, ItemView)>, Seq<char>>;

/// `toml_edit::DocumentMut::from_str`: parse TOML, then take every top-level
/// key with its value, or, for an array of tables, each table's keys and
/// values, in document order.
#[verifier::external_body]
fn parse_toml(text: &str) -> (r: Result<Vec<(String, TomlItem)>, String>)
    ensures
        match toml_meta(text@) {
            Ok(d) => r matches Ok(items) && items_view(items@) == d,
            Err(m) => r matches Err(e) && e@ == m,
        },
{
    let doc = text.parse::<DocumentMut>().map_err(|e| e.to_string())?;
    let scalar = |i: &Item| i.as_str().map(|s| Str(s.into())).or(i.as_bool().map(Bool)).or(i.as_integer().map(Int)).unwrap_or(Other);
    Ok(doc.iter().map(|(k, i)| (k.into(), match i.as_array_of_tables() {
        Some(a) => Tables(a.iter().map(|t| t.iter().map(|(k, v)| (k.into(), scalar(v))).collect()).collect()),
        None => Scalar(scalar(i)),
    })).collect())
}

/// The item under `key`: the first with that key.
pub open spec fn item_lookup(t: Seq<(Seq<char>, ItemView)>, key: Seq<char>) -> Option<ItemView>
    decreases t.len(),
{
    if t.len() == 0 {
        None
    } else if t[0].0 == key {
        Some(t[0].1)
    } else {
        item_lookup(t.drop_first(), key)
    }
}

/// The top-level keys with their values, an array of tables standing as
/// something other than a scalar.
pub open spec fn scalar_keys(t: Seq<(Seq<char>, ItemView)>) -> Seq<(Seq<char>, ScalarView)> {
    Seq::new(
        t.len(),
        |i: int|
            (
                t[i].0,
                match t[i].1 {
                    ItemView::Scalar(v) => v,
                    ItemView::Tables(_) => ScalarView::Other,
                },
            ),
    )
}

/// The `.meta` a parsed document describes: its keys, and its `[[clip]]`
/// tables when `clip` is an array of tables.
pub open spec fn meta_doc_of(t: Seq<(Seq<char>, ItemView)>) -> MetaDocView {
    MetaDocView {
        keys: scalar_keys(t),
        clips: match item_lookup(t, "clip"@) {
            Some(ItemView::Tables(ts)) => Some(ts),
            _ => None,
        },
    }
}

/// Sort a parsed document's items into keys and `[[clip]]` tables.
pub fn meta_doc(items: Vec<(String, TomlItem)>) -> (m: MetaDoc)
    ensures
        m.view() == meta_doc_of(items_view(items@)),
{
    let ghost raw = items@;
    let ghost v = items_view(items@);
    let mut rest = items;
    let mut keys: Vec<(String, TomlScalar)> = Vec::new();
    let mut clips: Option<Vec<Vec<(String, TomlScalar)>>> = None;
    let mut seen = false;
    let n = rest.len();
    let mut i: usize = 0;
    proof {
        reveal_strlit("clip");
        assert(v.skip(0) =~= v);
    }
    while i < n
        invariant
            i <= n,
            n == raw.len(),
            v == items_view(raw),
            rest@ == raw.skip(i as int),
            keys@.len() == i,
            forall|j: int| 0 <= j < i ==> (#[trigger] keys@[j]).0@ == scalar_keys(v)[j].0 && scalar_view(keys@[j].1) == scalar_keys(v)[j].1,
            !seen ==> clips is None && item_lookup(v, "clip"@) == item_lookup(v.skip(i as int), "clip"@),
            seen ==> match clips {
                Some(ts) => meta_doc_of(v).clips == Some(tables_view(ts@)),
                None => meta_doc_of(v).clips is None,
            },
        decreases n - i,
    {
        let (key, item) = rest.remove(0);
        proof {
            assert(raw.skip(i as int)[0] == (key, item));
            assert(raw.skip(i as int).remove(0) =~= raw.skip(i + 1));
            assert(v.skip(i as int)[0] == (key@, item_view(item)));
            assert(v.skip(i as int).drop_first() =~= v.skip(i + 1));
        }
        let is_clip = crate::text::str_eq(key.as_str(), "clip");
        match item {
            TomlItem::Scalar(value) => {
                if is_clip {
                    seen = true;
                }
                keys.push((key, value));
            },
            TomlItem::Tables(ts) => {
                if is_clip && !seen {
                    clips = Some(ts);
                }
                if is_clip {
                    seen = true;
                }
                keys.push((key, TomlScalar::Other));
            },
        }
        i = i + 1;
    }
    proof {
        assert(table_view(keys@) =~= scalar_keys(v));
        if !seen {
            assert(v.skip(n as int).len() == 0);
        }
    }
    MetaDoc { keys, clips }
}

/// The value under `key`: the first entry with that key.
pub open spec fn lookup(t: Seq<(Seq<char>, ScalarView)>, key: Seq<char>) -> Option<ScalarView>
    decreases t.len(),
{
    if t.len() == 0 {
        None
    } else if t[0].0 == key {
        Some(t[0].1)
    } else {
        lookup(t.drop_first(), key)
    }
}

/// A string value under `key`, if there is one.
pub open spec fn get_str(t: Seq<(Seq<char>, ScalarView)>, key: Seq<char>) -> Option<Seq<char>> {
    match lookup(t, key) {
        Some(ScalarView::Str(s)) => Some(s),
        _ => None,
    }
}

/// A boolean under `key`, or `default`.
pub open spec fn get_bool(t: Seq<(Seq<char>, ScalarView)>, key: Seq<char>, default: bool) -> bool {
    match lookup(t, key) {
        Some(ScalarView::Bool(b)) => b,
        _ => default,
    }
}

/// A positive 32-bit count under `key`, or `default`.
pub open spec fn get_count(t: Seq<(Seq<char>, ScalarView)>, key: Seq<char>, default: int) -> int {
    match lookup(t, key) {
        Some(ScalarView::Int(v)) => if 0 < v <= u32::MAX {
            v
        } else {
            default
        },
        _ => default,
    }
}

/// A 32-bit frame number under `key`, if there is one.
pub open spec fn get_frame(t: Seq<(Seq<char>, ScalarView)>, key: Seq<char>) -> Option<int> {
    match lookup(t, key) {
        Some(ScalarView::Int(v)) => if 0 <= v <= u32::MAX {
            Some(v)
        } else {
            None
        },
        _ => None,
    }
}

/// Why a `.meta` was refused, as plain values.
pub enum MetaFault {
    Malformed(Seq<char>),
    MissingId,
    BadId(Seq<char>),
    BadClip(Seq<char>),
    Unreadable(Seq<char>),
}

/// The clip a `[[clip]]` table describes, or why it is refused, given the
/// clips accepted before it.
pub open spec fn clip_from_table(
    t: Seq<(Seq<char>, ScalarView)>,
    frames: int,
    before: Seq<ClipView>,
) -> Result<ClipView, Seq<char>> {
    let name = match get_str(t, "name"@) {
        Some(n) => n,
        None => Seq::empty(),
    };
    if name.len() == 0 {
        Err("a clip needs a `name`; it is what `anim.play` asks for"@)
    } else if get_frame(t, "from"@) is None || get_frame(t, "to"@) is None {
        Err("clip "@ + debug_text(name) + " needs `from` and `to`, as whole frame numbers"@)
    } else {
        let from = get_frame(t, "from"@)->0;
        let to = get_frame(t, "to"@)->0;
        if to < from {
            Err("clip "@ + debug_text(name) + " runs from "@ + decimal(from as nat) + " to "@ + decimal(
                to as nat,
            ) + ", which is backwards"@)
        } else if to >= frames {
            Err("clip "@ + debug_text(name) + " ends at frame "@ + decimal(to as nat)
                + " and the strip declares "@ + decimal(frames as nat) + " frames, so the last one is "@
                + decimal((if frames >= 1 { frames - 1 } else { 0 }) as nat))
        } else if exists|k: int| 0 <= k < before.len() && #[trigger] before[k].name == name {
            Err("two clips are both called "@ + debug_text(name) + "; `anim.play` could not tell them apart"@)
        } else {
            Ok(ClipView {
                name,
                from,
                to,
                looping: get_bool(t, "looping"@, true),
                frame_ms: get_frame(t, "frame_ms"@),
            })
        }
    }
}

/// The clips the first `n` tables describe, or the first refusal.
pub open spec fn clips_from_tables(tables: Seq<Seq<(Seq<char>, ScalarView)>>, frames: int, n: int) -> Result<Seq<ClipView>, Seq<char>>
    decreases n,
{
    if n <= 0 {
        Ok(Seq::empty())
    } else {
        match clips_from_tables(tables, frames, n - 1) {
            Err(m) => Err(m),
            Ok(done) => match clip_from_table(tables[n - 1], frames, done) {
                Err(m) => Err(m),
                Ok(c) => Ok(done.push(c)),
            },
        }
    }
}

/// Import settings as plain values.
pub struct SettingsView {
    pub id: Seq<char>,
    pub source_hash: Option<Seq<char>>,
    pub nearest: bool,
    pub atlas: bool,
    pub frames: int,
    pub font_size: int,
    pub charset: Seq<char>,
    pub frame_ms: int,
    pub clips: Seq<ClipView>,
}

/// The settings a parsed `.meta` describes, or why it is refused.
pub open spec fn settings_of(items: Seq<(Seq<char>, ItemView)>) -> Result<SettingsView, MetaFault> {
    settings_from_keys(meta_doc_of(items))
}

/// The settings a `.meta`'s keys and clip tables describe, or why they are
/// refused: a missing id first, then a bad clip, then a bad id.
pub open spec fn settings_from_keys(doc: MetaDocView) -> Result<SettingsView, MetaFault> {
    let keys = doc.keys;
    match get_str(keys, "id"@) {
        None => Err(MetaFault::MissingId),
        Some(id_text) => {
            let frames = get_count(keys, "frames"@, 1);
            let clips = match doc.clips {
                None => Ok(Seq::empty()),
                Some(ts) => clips_from_tables(ts, frames, ts.len() as int),
            };
            match clips {
                Err(m) => Err(MetaFault::BadClip(m)),
                Ok(cs) => match uid_parse("a_"@, id_text) {
                    Err(f) => Err(MetaFault::BadId(uid_error_text(f))),
                    Ok(body) => Ok(SettingsView {
                        id: body,
                        source_hash: get_str(keys, "source_hash"@),
                        nearest: get_bool(keys, "nearest"@, true),
                        atlas: get_bool(keys, "atlas"@, true),
                        frames,
                        font_size: get_count(keys, "font_size"@, 16),
                        charset: match get_str(keys, "charset"@) {
                            Some(c) => c,
                            None => default_charset_text(),
                        },
                        frame_ms: get_count(keys, "frame_ms"@, 100),
                        clips: cs,
                    }),
                },
            }
        },
    }
}

/// Import settings carry exactly these plain values.
pub open spec fn settings_match(s: ImportSettings, v: SettingsView) -> bool {
    &&& s.id.body_chars() == v.id
    &&& match s.source_hash {
        Some(h) => v.source_hash == Some(h@),
        None => v.source_hash is None,
    }
    &&& s.nearest == v.nearest
    &&& s.atlas == v.atlas
    &&& s.frames == v.frames
    &&& s.font_size == v.font_size
    &&& s.charset@ == v.charset
    &&& s.frame_ms == v.frame_ms
    &&& s.clips@.len() == v.clips.len()
    &&& forall|k: int| 0 <= k < v.clips.len() ==> #[trigger] clip_view(s.clips@[k]) == v.clips[k]
}

/// The message a refusal is shown with.
pub open spec fn meta_fault_text(f: MetaFault) -> Seq<char> {
    match f {
        MetaFault::Malformed(m) => "import settings are not valid TOML: "@ + m,
        MetaFault::MissingId => "import settings need an `id`, so the asset keeps its identity across renames"@,
        MetaFault::BadId(m) => m,
        MetaFault::BadClip(m) => m,
        MetaFault::Unreadable(m) => "import settings could not be read: "@ + m,
    }
}

/// Why a `.meta` file could not be read.
#[derive(Debug, Clone, PartialEq, Eq)]
pub enum MetaError {
    /// Not well-formed TOML.
    Malformed(String),
    /// No `id` key.
    MissingId,
    /// The id was not a valid asset id.
    BadId(String),
    /// A `[[clip]]` block does not describe a usable range.
    BadClip(String),
    /// The file is there and could not be read at all.
    Unreadable(String),
}

impl MetaError {
    /// The refusal this error stands for.
    pub open spec fn fault(&self) -> MetaFault {
        match self {
            MetaError::Malformed(s) => MetaFault::Malformed(s@),
            MetaError::MissingId => MetaFault::MissingId,
            MetaError::BadId(s) => MetaFault::BadId(s@),
            MetaError::BadClip(s) => MetaFault::BadClip(s@),
            MetaError::Unreadable(s) => MetaFault::Unreadable(s@),
        }
    }

    /// A copy of this error.
    pub fn copy(&self) -> (r: MetaError)
        ensures
            r == *self,
    {
        match self {
            MetaError::Malformed(m) => MetaError::Malformed(m.clone()),
            MetaError::MissingId => MetaError::MissingId,
            MetaError::BadId(m) => MetaError::BadId(m.clone()),
            MetaError::BadClip(m) => MetaError::BadClip(m.clone()),
            MetaError::Unreadable(m) => MetaError::Unreadable(m.clone()),
        }
    }

    /// The human-readable message.
    pub fn message(&self) -> (out: String)
        ensures
            out@ == meta_fault_text(self.fault()),
    {
        let mut out = String::new();
        match self {
            MetaError::Malformed(m) => {
                crate::text::push_str(&mut out, "import settings are not valid TOML: ");
                crate::text::push_str(&mut out, m.as_str());
            },
            MetaError::MissingId => {
                crate::text::push_str(
                    &mut out,
                    "import settings need an `id`, so the asset keeps its identity across renames",
                );
            },
            MetaError::BadId(m) => {
                crate::text::push_str(&mut out, m.as_str());
            },
            MetaError::BadClip(m) => {
                crate::text::push_str(&mut out, m.as_str());
            },
            MetaError::Unreadable(m) => {
                crate::text::push_str(&mut out, "import settings could not be read: ");
                crate::text::push_str(&mut out, m.as_str());
            },
        }
        out
    }
}

/// Where `key` first appears in a table.
fn find_key(t: &Vec<(String, TomlScalar)>, key: &str) -> (r: Option<usize>)
    ensures
        match r {
            Some(i) => i < t@.len() && lookup(table_view(t@), key@) == Some(scalar_view(t@[i as int].1)),
            None => lookup(table_view(t@), key@) is None,
        },
{
    let mut i: usize = 0;
    proof {
        assert(table_view(t@).skip(0) =~= table_view(t@));
    }
    while i < t.len()
        invariant
            i <= t@.len(),
            lookup(table_view(t@), key@) == lookup(table_view(t@).skip(i as int), key@),
        decreases t@.len() - i,
    {
        if crate::text::str_eq(t[i].0.as_str(), key) {
            return Some(i);
        }
        proof {
            assert(table_view(t@).skip(i as int).drop_first() =~= table_view(t@).skip(i + 1));
        }
        i = i + 1;
    }
    None
}

fn get_str_exec(t: &Vec<(String, TomlScalar)>, key: &str) -> (r: Option<String>)
    ensures
        match get_str(table_view(t@), key@) {
            Some(v) => r matches Some(s) && s@ == v,
            None => r is None,
        },
{
    match find_key(t, key) {
        Some(i) => match &t[i].1 {
            TomlScalar::Str(s) => Some(s.clone()),
            _ => None,
        },
        None => None,
    }
}

fn get_bool_exec(t: &Vec<(String, TomlScalar)>, key: &str, default: bool) -> (r: bool)
    ensures
        r == get_bool(table_view(t@), key@, default),
{
    match find_key(t, key) {
        Some(i) => match &t[i].1 {
            TomlScalar::Bool(b) => *b,
            _ => default,
        },
        None => default,
    }
}

fn get_count_exec(t: &Vec<(String, TomlScalar)>, key: &str, default: u32) -> (r: u32)
    ensures
        r == get_count(table_view(t@), key@, default as int),
{
    match find_key(t, key) {
        Some(i) => match &t[i].1 {
            TomlScalar::Int(v) => if 0 < *v && *v <= u32::MAX as i64 {
                *v as u32
            } else {
                default
            },
            _ => default,
        },
        None => default,
    }
}

fn get_frame_exec(t: &Vec<(String, TomlScalar)>, key: &str) -> (r: Option<u32>)
    ensures
        match get_frame(table_view(t@), key@) {
            Some(v) => r == Some(v as u32),
            None => r is None,
        },
{
    match find_key(t, key) {
        Some(i) => match &t[i].1 {
            TomlScalar::Int(v) => if 0 <= *v && *v <= u32::MAX as i64 {
                Some(*v as u32)
            } else {
                None
            },
            _ => None,
        },
        None => None,
    }
}

/// `"clip " + name`, the start of most refusals.
fn clip_named(name: &str) -> (out: String)
    ensures
        out@ == "clip "@ + debug_text(name@),
{
    let mut out = String::new();
    crate::text::push_str(&mut out, "clip ");
    let d = crate::text::debug_str(name);
    crate::text::push_str(&mut out, d.as_str());
    out
}

/// The clip one `[[clip]]` table describes, or why it is refused.
fn clip_from_table_exec(t: &Vec<(String, TomlScalar)>, frames: u32, before: &Vec<ClipRange>) -> (r: Result<ClipRange, String>)
    ensures
        match clip_from_table(table_view(t@), frames as int, clip_views(before@)) {
            Ok(c) => r matches Ok(cr) && clip_view(cr) == c,
            Err(m) => r matches Err(e) && e@ == m,
        },
{
    let ghost views = clip_views(before@);
    proof {
        reveal_strlit("name");
        reveal_strlit("from");
        reveal_strlit("to");
        reveal_strlit("looping");
        reveal_strlit("frame_ms");
    }
    let name = match get_str_exec(t, "name") {
        Some(n) => n,
        None => String::new(),
    };
    if name.as_str().unicode_len() == 0 {
        return Err(crate::text::string_from("a clip needs a `name`; it is what `anim.play` asks for"));
    }
    let from = get_frame_exec(t, "from");
    let to = get_frame_exec(t, "to");
    if from.is_none() || to.is_none() {
        let mut m = clip_named(name.as_str());
        crate::text::push_str(&mut m, " needs `from` and `to`, as whole frame numbers");
        return Err(m);
    }
    let from = from.unwrap();
    let to = to.unwrap();
    if to < from {
        let mut m = clip_named(name.as_str());
        crate::text::push_str(&mut m, " runs from ");
        crate::text::push_u64(&mut m, from as u64);
        crate::text::push_str(&mut m, " to ");
        crate::text::push_u64(&mut m, to as u64);
        crate::text::push_str(&mut m, ", which is backwards");
        return Err(m);
    }
    if to >= frames {
        let mut m = clip_named(name.as_str());
        crate::text::push_str(&mut m, " ends at frame ");
        crate::text::push_u64(&mut m, to as u64);
        crate::text::push_str(&mut m, " and the strip declares ");
        crate::text::push_u64(&mut m, frames as u64);
        crate::text::push_str(&mut m, " frames, so the last one is ");
        let last = if frames >= 1 { frames - 1 } else { 0 };
        crate::text::push_u64(&mut m, last as u64);
        return Err(m);
    }
    let mut k: usize = 0;
    while k < before.len()
        invariant
            k <= before@.len(),
            views == clip_views(before@),
            (match get_str(table_view(t@), "name"@) {
                Some(n) => n,
                None => Seq::empty(),
            }) == name@,
            name@.len() != 0,
            get_frame(table_view(t@), "from"@) == Some(from as int),
            get_frame(table_view(t@), "to"@) == Some(to as int),
            from <= to < frames,
            forall|j: int| 0 <= j < k ==> #[trigger] views[j].name != name@,
        decreases before@.len() - k,
    {
        if crate::text::str_eq(before[k].name.as_str(), name.as_str()) {
            let mut m = crate::text::string_from("two clips are both called ");
            let d = crate::text::debug_str(name.as_str());
            crate::text::push_str(&mut m, d.as_str());
            crate::text::push_str(&mut m, "; `anim.play` could not tell them apart");
            proof {
                assert(views[k as int].name == name@);
                assert(exists|j: int| 0 <= j < views.len() && #[trigger] views[j].name == name@);
            }
            return Err(m);
        }
        k = k + 1;
    }
    let looping = get_bool_exec(t, "looping", true);
    let frame_ms = get_frame_exec(t, "frame_ms");
    Ok(ClipRange { name, from, to, looping, frame_ms })
}

/// The settings a parsed `.meta` describes, or why it is refused.
///
/// A missing id is reported first, then a bad `[[clip]]` table, then an id
/// that does not parse. Keys that are absent or of the wrong type take their
/// defaults; counts must be positive and fit 32 bits.
pub fn settings_from_doc(doc: &MetaDoc) -> (r: Result<ImportSettings, MetaError>)
    ensures
        match settings_from_keys(doc.view()) {
            Ok(v) => r matches Ok(s) && settings_match(s, v),
            Err(f) => r matches Err(e) && e.fault() == f,
        },
{
    proof {
        reveal_strlit("id");
        reveal_strlit("frames");
        reveal_strlit("source_hash");
        reveal_strlit("nearest");
        reveal_strlit("atlas");
        reveal_strlit("font_size");
        reveal_strlit("charset");
        reveal_strlit("frame_ms");
    }
    let id_text = match get_str_exec(&doc.keys, "id") {
        Some(t) => t,
        None => {
            return Err(MetaError::MissingId);
        },
    };
    let frames = get_count_exec(&doc.keys, "frames", 1);
    let mut clips: Vec<ClipRange> = Vec::new();
    match &doc.clips {
        None => {},
        Some(tables) => {
            let ghost tv = tables_view(tables@);
            let mut i: usize = 0;
            proof {
                assert(doc.view().clips == Some(tv));
                assert(clip_views(clips@) =~= Seq::<ClipView>::empty());
            }
            while i < tables.len()
                invariant
                    i <= tables@.len(),
                    tv == tables_view(tables@),
                    doc.view().clips == Some(tv),
                    get_str(doc.view().keys, "id"@) == Some(id_text@),
                    frames == get_count(doc.view().keys, "frames"@, 1),
                    clips_from_tables(tv, frames as int, i as int) == Ok::<Seq<ClipView>, Seq<char>>(
                        clip_views(clips@),
                    ),
                decreases tables@.len() - i,
            {
                match clip_from_table_exec(&tables[i], frames, &clips) {
                    Ok(c) => {
                        let ghost before = clips@;
                        clips.push(c);
                        proof {
                            assert(clip_views(clips@) =~= clip_views(before).push(clip_view(c)));
                        }
                    },
                    Err(m) => {
                        proof {
                            assert(tv[i as int] == table_view(tables@[i as int]@));
                            assert(clips_from_tables(tv, frames as int, i + 1) == Err::<Seq<ClipView>, Seq<char>>(m@));
                            assert(doc.view().clips == Some(tv));
                            lemma_clip_errors_stick(tv, frames as int, i + 1, tables@.len() as int);
                        }
                        return Err(MetaError::BadClip(m));
                    },
                }
                i = i + 1;
            }
        },
    }
    let id = match AssetId::parse(id_text.as_str()) {
        Ok(id) => id,
        Err(e) => {
            return Err(MetaError::BadId(e.message()));
        },
    };
    let source_hash = get_str_exec(&doc.keys, "source_hash");
    let nearest = get_bool_exec(&doc.keys, "nearest", true);
    let atlas = get_bool_exec(&doc.keys, "atlas", true);
    let frame_ms = get_count_exec(&doc.keys, "frame_ms", 100);
    let font_size = get_count_exec(&doc.keys, "font_size", 16);
    let charset = match get_str_exec(&doc.keys, "charset") {
        Some(c) => c,
        None => default_charset(),
    };
    Ok(ImportSettings { id, source_hash, nearest, atlas, frames, font_size, charset, frame_ms, clips })
}

/// Once a table is refused, every longer prefix is refused the same way.
proof fn lemma_clip_errors_stick(tables: Seq<Seq<(Seq<char>, ScalarView)>>, frames: int, i: int, n: int)
    requires
        0 <= i <= n,
        clips_from_tables(tables, frames, i) is Err,
    ensures
        clips_from_tables(tables, frames, n) == clips_from_tables(tables, frames, i),
    decreases n - i,
{
    if i < n {
        lemma_clip_errors_stick(tables, frames, i, n - 1);
    }
}

impl ImportSettings {
    /// Parse from TOML.
    ///
    /// The TOML itself is read by `toml_edit`; its verdict is
    /// [`toml_meta`]. What the settings are, given that, is
    /// [`meta_doc`] and then [`settings_from_doc`].
    pub fn parse(text: &str) -> (r: Result<ImportSettings, MetaError>)
        ensures
            match toml_meta(text@) {
                Err(m) => r matches Err(e) && e.fault() == MetaFault::Malformed(m),
                Ok(d) => match settings_of(d) {
                    Ok(v) => r matches Ok(s) && settings_match(s, v),
                    Err(f) => r matches Err(e) && e.fault() == f,
                },
            },
    {
        match parse_toml(text) {
            Err(m) => Err(MetaError::Malformed(m)),
            Ok(items) => {
                let doc = meta_doc(items);
                settings_from_doc(&doc)
            },
        }
    }
}

/// Hash a source file's contents: the BLAKE3 digest in lowercase hex.
pub fn content_hash(bytes: &[u8]) -> (r: String)
    ensures
        r@ == crate::hash::hex_text(crate::hash::blake3_digest(bytes@)),
{
    let digest = crate::hash::blake3_hash(bytes);
    crate::hash::StateHash(digest).to_hex()
}

} // verus!
