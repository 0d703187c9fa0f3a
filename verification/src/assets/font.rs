//! Fonts: rasterised once at import, measured in integers for ever after.
//!
//! A glyph bitmap is presentation, but its *metrics* are not as soon as
//! anything measures text: a label that centres itself, a button that sizes
//! to its caption. So a font is baked at one pixel size and what gets kept is
//! a page of glyphs plus a table of **integer** metrics, identical on every
//! machine that reads them.
use std::collections::BTreeMap;
use vstd::prelude::*;

use crate::assets::image::{blit_spec, Image};

verus! {

/// Where one glyph sits on the page, and how to place it. All integers, all
/// pixels.
#[derive(Clone, Copy, PartialEq, Eq, Debug)]
pub struct Glyph {
    /// Left edge of the glyph's bitmap on the page.
    pub x: u32,
    /// Top edge of the glyph's bitmap on the page.
    pub y: u32,
    /// Bitmap width. Zero for a space, which has an advance and no ink.
    pub width: u32,
    /// Bitmap height.
    pub height: u32,
    /// Offset from the pen position to the bitmap's left edge.
    pub bearing_x: i32,
    /// Offset from the baseline down to the bitmap's top edge.
    pub bearing_y: i32,
    /// How far the pen moves after drawing this glyph.
    pub advance: i32,
}

/// Every baked glyph, by character.
pub type GlyphMap = BTreeMap<char, Glyph>;

/// A baked font: one page of glyphs and the numbers needed to place them.
#[derive(Clone, PartialEq, Eq, Debug)]
pub struct Font {
    /// The size it was baked at, in pixels.
    pub size: u32,
    /// Distance from one baseline to the next.
    pub line_height: u32,
    /// Distance from the baseline to the top of the tallest glyph.
    pub ascent: i32,
    /// Distance from the baseline to the bottom of the lowest glyph.
    pub descent: i32,
    /// Every baked glyph, by character.
    pub glyphs: GlyphMap,
}

/// `BTreeMap::get` on the glyph table: the glyph stored under `c`, if any.
#[verifier::external_body]
pub(crate) fn glyph_lookup(m: &GlyphMap, c: char) -> (r: Option<&Glyph>)
    ensures
        m@.contains_key(c) ==> r == Some(&m@[c]),
        !m@.contains_key(c) ==> r is None,
{
    m.get(&c)
}

/// `BTreeMap::insert` on the glyph table: `c` now maps to `g`.
#[verifier::external_body]
pub(crate) fn glyph_store(m: &mut GlyphMap, c: char, g: Glyph)
    ensures
        final(m)@ == old(m)@.insert(c, g),
{
    m.insert(c, g);
}

/// `BTreeMap::new` for the glyph table: empty.
#[verifier::external_body]
pub(crate) fn glyph_table() -> (m: GlyphMap)
    ensures
        m@.dom() == Set::<char>::empty(),
{
    BTreeMap::new()
}

/// The glyph drawn for `c`: its own, else `?`'s, else none.
pub open spec fn glyph_for(glyphs: Map<char, Glyph>, c: char) -> Option<Glyph> {
    if glyphs.contains_key(c) {
        Some(glyphs[c])
    } else if glyphs.contains_key('?') {
        Some(glyphs['?'])
    } else {
        None
    }
}

/// The width of one line of text: the sum of the advances of its glyphs,
/// skipping line breaks and characters with nothing to draw.
pub open spec fn line_width(glyphs: Map<char, Glyph>, text: Seq<char>) -> int
    decreases text.len(),
{
    if text.len() == 0 {
        0
    } else {
        let c = text.last();
        line_width(glyphs, text.drop_last()) + if c == '\n' {
            0
        } else {
            match glyph_for(glyphs, c) {
                Some(g) => g.advance as int,
                None => 0,
            }
        }
    }
}

/// The lines of `text`, split at every `\n`.
pub open spec fn split_lines(text: Seq<char>) -> Seq<Seq<char>>
    decreases text.len(),
{
    if text.len() == 0 {
        seq![Seq::empty()]
    } else {
        let before = split_lines(text.drop_last());
        if text.last() == '\n' {
            before.push(Seq::empty())
        } else {
            before.update(before.len() - 1, before.last().push(text.last()))
        }
    }
}

/// The widest of `lines`, measured with [`line_width`], and never below 0.
pub open spec fn widest(glyphs: Map<char, Glyph>, lines: Seq<Seq<char>>) -> int
    decreases lines.len(),
{
    if lines.len() == 0 {
        0
    } else {
        let w = line_width(glyphs, lines.last());
        let rest = widest(glyphs, lines.drop_last());
        if w > rest {
            w
        } else {
            rest
        }
    }
}

/// How many line breaks `text` holds.
pub open spec fn newlines(text: Seq<char>) -> int
    decreases text.len(),
{
    if text.len() == 0 {
        0
    } else {
        newlines(text.drop_last()) + if text.last() == '\n' { 1int } else { 0int }
    }
}

/// Splitting at line breaks gives one more line than there are breaks, and
/// no line holds a break.
proof fn lemma_split_lines(text: Seq<char>)
    ensures
        newlines(text) >= 0,
        split_lines(text).len() == 1 + newlines(text),
        forall|i: int, k: int|
            0 <= i < split_lines(text).len() && 0 <= k < split_lines(text)[i].len() ==> #[trigger] split_lines(text)[i][k] != '\n',
    decreases text.len(),
{
    if text.len() > 0 {
        lemma_split_lines(text.drop_last());
        let before = split_lines(text.drop_last());
        if text.last() != '\n' {
            let lines = split_lines(text);
            assert(lines == before.update(before.len() - 1, before.last().push(text.last())));
            assert forall|i: int, k: int| 0 <= i < lines.len() && 0 <= k < lines[i].len() implies #[trigger] lines[i][k] != '\n' by {
                if i == lines.len() - 1 && k == lines[i].len() - 1 {
                } else if i == lines.len() - 1 {
                    assert(lines[i][k] == before.last()[k]);
                } else {
                    assert(lines[i] == before[i]);
                }
            }
        } else {
            let lines = split_lines(text);
            assert forall|i: int, k: int| 0 <= i < lines.len() && 0 <= k < lines[i].len() implies #[trigger] lines[i][k] != '\n' by {
                assert(lines[i] == before[i]);
            }
        }
    }
}

/// The widest line is at least every line and at least 0, and is 0 or the
/// width of one of them.
proof fn lemma_widest(glyphs: Map<char, Glyph>, lines: Seq<Seq<char>>)
    ensures
        widest(glyphs, lines) >= 0,
        forall|i: int| 0 <= i < lines.len() ==> widest(glyphs, lines) >= line_width(glyphs, #[trigger] lines[i]),
        widest(glyphs, lines) == 0 || exists|i: int| 0 <= i < lines.len() && widest(glyphs, lines) == line_width(glyphs, #[trigger] lines[i]),
    decreases lines.len(),
{
    if lines.len() > 0 {
        let rest = lines.drop_last();
        lemma_widest(glyphs, rest);
        assert forall|i: int| 0 <= i < lines.len() implies widest(glyphs, lines) >= line_width(glyphs, #[trigger] lines[i]) by {
            if i < lines.len() - 1 {
                assert(lines[i] == rest[i]);
            }
        }
        if widest(glyphs, lines) != 0 {
            if line_width(glyphs, lines.last()) > widest(glyphs, rest) {
                assert(widest(glyphs, lines) == line_width(glyphs, lines[lines.len() - 1]));
            } else {
                let i = choose|i: int| 0 <= i < rest.len() && widest(glyphs, rest) == line_width(glyphs, #[trigger] rest[i]);
                assert(lines[i] == rest[i]);
            }
        }
    }
}

/// What [`Font::measure_block`] gives is the widest of the text's lines as
/// [`Font::measure`] measures each, never below 0, and one more line than
/// the text has line breaks; the lines hold no breaks.
pub proof fn lemma_measure_block_is_widest_line(glyphs: Map<char, Glyph>, text: Seq<char>)
    ensures
        split_lines(text).len() == 1 + newlines(text),
        forall|i: int, k: int|
            0 <= i < split_lines(text).len() && 0 <= k < split_lines(text)[i].len() ==> #[trigger] split_lines(text)[i][k] != '\n',
        widest(glyphs, split_lines(text)) >= 0,
        forall|i: int|
            0 <= i < split_lines(text).len() ==> widest(glyphs, split_lines(text)) >= line_width(glyphs, #[trigger] split_lines(text)[i]),
        widest(glyphs, split_lines(text)) == 0 || exists|i: int|
            0 <= i < split_lines(text).len() && widest(glyphs, split_lines(text)) == line_width(glyphs, #[trigger] split_lines(text)[i]),
{
    lemma_split_lines(text);
    lemma_widest(glyphs, split_lines(text));
}

impl Font {
    /// The glyph for a character, or the one to draw in its place.
    ///
    /// A character that was not baked falls back to `?` and then to nothing:
    /// text that quietly disappears is worse than text that is visibly wrong.
    pub fn glyph(&self, c: char) -> (r: Option<&Glyph>)
        ensures
            match glyph_for(self.glyphs@, c) {
                Some(g) => r == Some(&g),
                None => r is None,
            },
    {
        match glyph_lookup(&self.glyphs, c) {
            Some(g) => Some(g),
            None => glyph_lookup(&self.glyphs, '?'),
        }
    }

    /// Width of a single line, in pixels. Integer arithmetic throughout, so
    /// this is the same number everywhere.
    pub fn measure(&self, text: &str) -> (w: i32)
        requires
            forall|k: int| 0 <= k <= text@.len() ==> i32::MIN <= #[trigger] line_width(self.glyphs@, text@.take(k)) <= i32::MAX,
        ensures
            w == line_width(self.glyphs@, text@),
    {
        let cs = crate::text::chars_of(text);
        let mut w: i32 = 0;
        let mut i: usize = 0;
        while i < cs.len()
            invariant
                i <= cs@.len(),
                cs@ == text@,
                w == line_width(self.glyphs@, cs@.take(i as int)),
                forall|k: int| 0 <= k <= text@.len() ==> i32::MIN <= #[trigger] line_width(self.glyphs@, text@.take(k)) <= i32::MAX,
            decreases cs@.len() - i,
        {
            let c = cs[i];
            proof {
                assert(cs@.take(i + 1).drop_last() =~= cs@.take(i as int));
                assert(line_width(self.glyphs@, text@.take(i + 1)) <= i32::MAX);
            }
            if c != '\n' {
                match self.glyph(c) {
                    Some(g) => {
                        w = w + g.advance;
                    },
                    None => {},
                }
            }
            i = i + 1;
        }
        proof {
            assert(cs@.take(cs@.len() as int) =~= cs@);
        }
        w
    }

    /// Width of the widest line and the number of lines.
    pub fn measure_block(&self, text: &str) -> (r: (i32, u32))
        requires
            forall|a: int, b: int| 0 <= a <= b <= text@.len() ==> i32::MIN <= #[trigger] line_width(self.glyphs@, text@.subrange(a, b)) <= i32::MAX,
            text@.len() < u32::MAX,
        ensures
            r.0 == widest(self.glyphs@, split_lines(text@)),
            r.1 == split_lines(text@).len(),
    {
        let cs = crate::text::chars_of(text);
        let mut widest_so_far: i32 = 0;
        let mut lines: u32 = 0;
        let mut line: Vec<char> = Vec::new();
        let mut line_w: i32 = 0;
        let mut i: usize = 0;
        proof {
            assert(cs@.take(0) =~= Seq::<char>::empty());
            assert(split_lines(Seq::<char>::empty()) == seq![Seq::<char>::empty()]);
        }
        while i < cs.len()
            invariant
                i <= cs@.len(),
                cs@ == text@,
                text@.len() < u32::MAX,
                lines as int + 1 == split_lines(cs@.take(i as int)).len(),
                lines <= i,
                line@ == split_lines(cs@.take(i as int)).last(),
                line_w == line_width(self.glyphs@, line@),
                widest_so_far == widest(self.glyphs@, split_lines(cs@.take(i as int)).drop_last()),
                exists|a: int| 0 <= a <= i && line@ == cs@.subrange(a, i as int),
                forall|a: int, b: int| 0 <= a <= b <= text@.len() ==> i32::MIN <= #[trigger] line_width(self.glyphs@, text@.subrange(a, b)) <= i32::MAX,
            decreases cs@.len() - i,
        {
            let c = cs[i];
            let ghost before = split_lines(cs@.take(i as int));
            proof {
                assert(cs@.take(i + 1).drop_last() =~= cs@.take(i as int));
                assert(cs@.take(i + 1).last() == c);
            }
            if c == '\n' {
                if line_w > widest_so_far {
                    widest_so_far = line_w;
                }
                lines = lines + 1;
                line = Vec::new();
                line_w = 0;
                proof {
                    let after = split_lines(cs@.take(i + 1));
                    assert(after == before.push(Seq::empty()));
                    assert(after.drop_last() =~= before);
                    assert(before =~= before.drop_last().push(before.last()));
                    assert(line@ =~= cs@.subrange(i + 1, i + 1));
                }
            } else {
                let ghost a = choose|a: int| 0 <= a <= i && line@ == cs@.subrange(a, i as int);
                line.push(c);
                proof {
                    assert(line@ =~= cs@.subrange(a, i + 1));
                    assert(line@.drop_last() =~= split_lines(cs@.take(i as int)).last());
                    assert(line_width(self.glyphs@, line@) <= i32::MAX);
                }
                match self.glyph(c) {
                    Some(g) => {
                        line_w = line_w + g.advance;
                    },
                    None => {},
                }
                proof {
                    let after = split_lines(cs@.take(i + 1));
                    assert(after == before.update(before.len() - 1, before.last().push(c)));
                    assert(after.drop_last() =~= before.drop_last());
                }
            }
            i = i + 1;
        }
        proof {
            assert(cs@.take(cs@.len() as int) =~= cs@);
            let all = split_lines(cs@);
            assert(all =~= all.drop_last().push(all.last()));
        }
        if line_w > widest_so_far {
            widest_so_far = line_w;
        }
        (widest_so_far, lines + 1)
    }
}

/// What went wrong baking a font.
#[derive(Debug, Clone, PartialEq, Eq)]
pub enum FontError {
    /// The file was not a font the rasteriser could read.
    Unreadable(String),
    /// The requested size was zero or absurd.
    Size(u32),
}

impl FontError {
    /// The human-readable message.
    pub fn message(&self) -> (out: String)
        ensures
            out@ == match self {
                FontError::Unreadable(m) => "not a readable font: "@ + m@,
                FontError::Size(n) => "font size "@ + crate::decimal::decimal(*n as nat)
                    + " is not usable; pick something between 4 and 512"@,
            },
    {
        let mut out = String::new();
        match self {
            FontError::Unreadable(m) => {
                crate::text::push_str(&mut out, "not a readable font: ");
                crate::text::push_str(&mut out, m.as_str());
            },
            FontError::Size(n) => {
                crate::text::push_str(&mut out, "font size ");
                crate::text::push_u64(&mut out, *n as u64);
                crate::text::push_str(&mut out, " is not usable; pick something between 4 and 512");
            },
        }
        out
    }
}

// ---------------------------------------------------------------------------
// Baking
// ---------------------------------------------------------------------------

/// The characters a font is baked for by default: printable ASCII.
pub open spec fn default_charset_chars() -> Seq<char> {
    Seq::new(95, |i: int| (32 + i) as char)
}

/// Refuse a size that is zero or absurd: a font is baked between 4 and 512
/// pixels.
pub fn check_size(size: u32) -> (r: Result<(), FontError>)
    ensures
        4 <= size <= 512 ==> r is Ok,
        !(4 <= size <= 512) ==> r == Err::<(), FontError>(FontError::Size(size)),
{
    if size < 4 || size > 512 {
        return Err(FontError::Size(size));
    }
    Ok(())
}

/// A control character, as Unicode's general category `Cc` has them.
pub open spec fn is_control(c: char) -> bool {
    (c as u32) < 0x20 || (0x7f <= (c as u32) && (c as u32) < 0xa0)
}

/// A prefix one longer holds what the shorter one does, and the next item.
proof fn lemma_take_contains(s: Seq<char>, k: int, d: char)
    requires
        0 <= k < s.len(),
    ensures
        s.take(k + 1).contains(d) <==> (s.take(k).contains(d) || s[k] == d),
{
    if s.take(k + 1).contains(d) && s[k] != d {
        let m = choose|m: int| 0 <= m < k + 1 && #[trigger] s.take(k + 1)[m] == d;
        assert(s.take(k)[m] == d);
    }
    if s.take(k).contains(d) {
        let m = choose|m: int| 0 <= m < k && #[trigger] s.take(k)[m] == d;
        assert(s.take(k + 1)[m] == d);
    }
    if s[k] == d {
        assert(s.take(k + 1)[k] == d);
    }
}

/// Inserting an item adds exactly it.
proof fn lemma_insert_contains(s: Seq<char>, i: int, c: char, d: char)
    requires
        0 <= i <= s.len(),
    ensures
        s.insert(i, c).contains(d) <==> (s.contains(d) || c == d),
{
    let t = s.insert(i, c);
    if t.contains(d) && c != d {
        let m = choose|m: int| 0 <= m < t.len() && #[trigger] t[m] == d;
        if m < i {
            assert(s[m] == d);
        } else {
            assert(s[m - 1] == d);
        }
    }
    if s.contains(d) {
        let m = choose|m: int| 0 <= m < s.len() && #[trigger] s[m] == d;
        if m < i {
            assert(t[m] == d);
        } else {
            assert(t[m + 1] == d);
        }
    }
    if c == d {
        assert(t[i] == d);
    }
}

/// The characters to bake from a charset: its non-control characters, sorted
/// by code point, each once. The page is then a function of the charset's
/// contents rather than of the order someone typed them in.
pub fn wanted_chars(charset: &str) -> (r: Vec<char>)
    ensures
        strictly_increasing(r@),
        forall|c: char| #[trigger] r@.contains(c) <==> charset@.contains(c) && !is_control(c),
{
    let cs = crate::text::chars_of(charset);
    let mut out: Vec<char> = Vec::new();
    let mut k: usize = 0;
    while k < cs.len()
        invariant
            k <= cs@.len(),
            cs@ == charset@,
            forall|i: int, j: int| 0 <= i < j < out@.len() ==> (#[trigger] out@[i] as u32) < (#[trigger] out@[j] as u32),
            forall|c: char| #[trigger] out@.contains(c) <==> cs@.take(k as int).contains(c) && !is_control(c),
        decreases cs@.len() - k,
    {
        let c = cs[k];
        proof {
            crate::rng::lemma_char_code(c);
        }
        let code = c as u32;
        let control = code < 0x20 || (0x7f <= code && code < 0xa0);
        let ghost before = out@;
        if !control {
            let mut i: usize = 0;
            while i < out.len() && (out[i] as u32) < code
                invariant
                    i <= out@.len(),
                    out@ == before,
                    code == c as u32,
                    forall|j: int| 0 <= j < i ==> (#[trigger] before[j] as u32) < code,
                decreases out@.len() - i,
            {
                i = i + 1;
            }
            if i < out.len() && out[i] == c {
                proof {
                    assert(before.contains(c)) by {
                        assert(before[i as int] == c);
                    }
                }
            } else {
                out.insert(i, c);
                proof {
                    assert(out@ == before.insert(i as int, c));
                    assert forall|d: char| #[trigger] out@.contains(d) <==> cs@.take(k + 1).contains(d) && !is_control(d) by {
                        lemma_take_contains(cs@, k as int, d);
                        lemma_insert_contains(before, i as int, c, d);
                    }
                    assert forall|a: int, b: int| 0 <= a < b < out@.len() implies (#[trigger] out@[a] as u32) < (#[trigger] out@[b] as u32) by {
                        if b < i {
                        } else if b == i {
                        } else if a < i {
                            assert(out@[b] == before[b - 1]);
                            assert((before[i as int] as u32) >= code);
                            if b - 1 > i {
                                assert((before[i as int] as u32) < (before[b - 1] as u32));
                            }
                        } else if a == i {
                            assert(out@[b] == before[b - 1]);
                            assert((before[i as int] as u32) >= code);
                            assert(before[i as int] != c);
                            crate::rng::lemma_char_code(before[i as int]);
                            if b - 1 > i {
                                assert((before[i as int] as u32) < (before[b - 1] as u32));
                            }
                        } else {
                            assert(out@[a] == before[a - 1]);
                            assert(out@[b] == before[b - 1]);
                        }
                    }
                }
            }
        }
        proof {
            if out@ == before {
                assert forall|d: char| #[trigger] out@.contains(d) <==> cs@.take(k + 1).contains(d) && !is_control(d) by {
                    lemma_take_contains(cs@, k as int, d);
                }
            }
        }
        k = k + 1;
    }
    proof {
        assert(cs@.take(k as int) =~= cs@);
        assert forall|c: char| #[trigger] out@.contains(c) <==> charset@.contains(c) && !is_control(c) by {
            assert(out@.contains(c) <==> cs@.take(k as int).contains(c) && !is_control(c));
            assert(cs@.take(k as int) == cs@);
            assert(cs@ == charset@);
        }
    }
    out
}

/// One rasterised character: its bitmap's size, where the bitmap sits
/// against the pen and baseline (measured upward, as rasterisers do), how
/// far the pen moves, rounded, and the coverage, a byte a pixel, row by row.
pub struct Raster {
    /// The character.
    pub c: char,
    /// Bitmap width.
    pub width: u32,
    /// Bitmap height.
    pub height: u32,
    /// Offset from the pen to the bitmap's left edge.
    pub xmin: i32,
    /// Offset from the baseline up to the bitmap's bottom edge.
    pub ymin: i32,
    /// Pen advance, rounded to whole pixels.
    pub advance: i32,
    /// Coverage, `width * height` bytes.
    pub coverage: Vec<u8>,
}

/// A face's line metrics at the baked size, rounded to whole pixels.
pub struct LineMetrics {
    /// Baseline to the top of the tallest glyph.
    pub ascent: i32,
    /// Baseline to the bottom of the lowest glyph, negative below.
    pub descent: i32,
    /// Extra space between lines.
    pub gap: i32,
}

/// The widest (or tallest, with `tall`) of the first `n` bitmaps; 0 for none.
pub open spec fn largest(rs: Seq<Raster>, tall: bool, n: int) -> int
    decreases n,
{
    if n <= 0 {
        0
    } else {
        let v = if tall { rs[n - 1].height as int } else { rs[n - 1].width as int };
        let rest = largest(rs, tall, n - 1);
        if n == 1 || v > rest { v } else { rest }
    }
}

/// `c` columns are the fewest whose square holds `n` glyphs: the square
/// root rounded up, and at least one.
pub open spec fn is_column_count(n: int, c: int) -> bool {
    c >= 1 && c * c >= n && (c == 1 || (c - 1) * (c - 1) < n)
}

/// The page layout for `n` glyphs: columns, cell width and height, page
/// width and height.
///
/// Columns are the square root of the count rounded up, so the page is about
/// square; a cell is the largest bitmap plus a pixel; an empty charset still
/// gives a one-pixel page.
pub open spec fn page_layout(rs: Seq<Raster>) -> (int, int, int, int, int) {
    let n = rs.len() as int;
    let columns = choose|c: int| #[trigger] is_column_count(n, c);
    let cell_w = if n == 0 { 2 } else { largest(rs, false, n) + 1 };
    let cell_h = if n == 0 { 2 } else { largest(rs, true, n) + 1 };
    let rows = (n + columns - 1) / columns;
    let page_w = if columns * cell_w > 1 { columns * cell_w } else { 1 };
    let page_h = if rows * cell_h > 1 { rows * cell_h } else { 1 };
    (columns, cell_w, cell_h, page_w, page_h)
}

/// Coverage widened to RGBA white, the coverage in the alpha: a label's tint
/// colours it, so one page serves every colour of text.
pub open spec fn white_rgba(cov: Seq<u8>) -> Seq<u8> {
    Seq::new(cov.len() * 4, |k: int| if k % 4 < 3 { 255u8 } else { cov[k / 4] })
}

/// The page after the first `n` glyphs are drawn into their cells.
pub open spec fn drawn(rs: Seq<Raster>, n: int) -> Seq<u8>
    decreases n,
{
    let (columns, cell_w, cell_h, page_w, page_h) = page_layout(rs);
    if n <= 0 {
        Seq::new((page_w * page_h * 4) as nat, |i: int| 0u8)
    } else {
        let r = rs[n - 1];
        let i = n - 1;
        blit_spec(
            drawn(rs, n - 1),
            page_w,
            white_rgba(r.coverage@),
            r.width as int,
            (i % columns) * cell_w,
            (i / columns) * cell_h,
            r.height as int,
        )
    }
}

/// The metrics recorded for glyph `i`: where its cell is, its size, and its
/// offsets measured downward from the top of the line.
pub open spec fn glyph_at(rs: Seq<Raster>, i: int) -> Glyph {
    let (columns, cell_w, cell_h, page_w, page_h) = page_layout(rs);
    let r = rs[i];
    Glyph {
        x: ((i % columns) * cell_w) as u32,
        y: ((i / columns) * cell_h) as u32,
        width: r.width,
        height: r.height,
        bearing_x: r.xmin,
        bearing_y: (-(r.height + r.ymin)) as i32,
        advance: r.advance,
    }
}

/// The glyph table after the first `n` glyphs.
pub open spec fn glyph_table_of(rs: Seq<Raster>, n: int) -> Map<char, Glyph>
    decreases n,
{
    if n <= 0 {
        Map::empty()
    } else {
        glyph_table_of(rs, n - 1).insert(rs[n - 1].c, glyph_at(rs, n - 1))
    }
}

/// The bitmaps and the page they make fit the machine's integers: each
/// bitmap holds its coverage, each glyph's offset from the top of the line
/// and the line height fit 32 bits, and the page's bytes, which are counted
/// in 32 bits, fit both that and memory.
pub open spec fn bake_fits(rs: Seq<Raster>, line: Option<LineMetrics>) -> bool {
    let (columns, cell_w, cell_h, page_w, page_h) = page_layout(rs);
    &&& forall|i: int|
        0 <= i < rs.len() ==> {
            let r = #[trigger] rs[i];
            &&& r.coverage@.len() == r.width * r.height
            &&& i32::MIN < r.height + r.ymin <= i32::MAX
        }
    &&& page_w * page_h * 4 <= u32::MAX
    &&& (page_h + 1) * page_w * 4 + 4 <= usize::MAX
    &&& match line {
        Some(m) => i32::MIN <= m.ascent - m.descent + m.gap <= i32::MAX,
        None => true,
    }
}

/// The layout's numbers bound each other: a page at least a cell, cells at
/// least a pixel, and every glyph's bitmap inside its cell.
proof fn lemma_layout_bounds(rs: Seq<Raster>, line: Option<LineMetrics>, columns: int)
    requires
        bake_fits(rs, line),
        is_column_count(rs.len() as int, columns),
    ensures
        ({
            let n = rs.len() as int;
            let (c, w, h, pw, ph) = page_layout(rs);
            let rows = (n + c - 1) / c;
            &&& c == columns
            &&& w >= 1 && h >= 1
            &&& pw == c * w
            &&& n > 0 ==> ph == rows * h && rows >= 1
            &&& pw >= 1 && ph >= 1
            &&& pw * ph * 4 <= u32::MAX
            &&& 0 <= rows <= n
            &&& n > 0 ==> w == largest(rs, false, n) + 1 && h == largest(rs, true, n) + 1
            &&& forall|i: int| 0 <= i < n ==> (#[trigger] rs[i]).width < w && rs[i].height < h
        }),
{
    let n = rs.len() as int;
    lemma_columns_unique(n, columns);
    let (c, w, h, pw, ph) = page_layout(rs);
    let rows = (n + c - 1) / c;
    assert forall|i: int| 0 <= i < n implies (#[trigger] rs[i]).width < w && rs[i].height < h by {
        lemma_largest_at_least(rs, false, n, i);
        lemma_largest_at_least(rs, true, n, i);
    }
    if n > 0 {
        lemma_largest_at_least(rs, false, n, 0);
        lemma_largest_at_least(rs, true, n, 0);
    }
    assert(w >= 1 && h >= 1);
    assert(c * w >= 1) by (nonlinear_arith)
        requires
            c >= 1,
            w >= 1,
    ;
    assert(0 <= rows <= n) by (nonlinear_arith)
        requires
            rows == (n + c - 1) / c,
            c >= 1,
            n >= 0,
    ;
    if n > 0 {
        assert(rows >= 1) by (nonlinear_arith)
            requires
                rows == (n + c - 1) / c,
                c >= 1,
                n >= 1,
        ;
        assert(rows * h >= 1) by (nonlinear_arith)
            requires
                rows >= 1,
                h >= 1,
        ;
    }
}

/// The page layout's numbers, computed: columns, cell width and height,
/// rows, page width and height.
fn page_numbers(rs: &Vec<Raster>) -> (r: (u128, u128, u128, u128, u128, u128))
    ensures
        is_column_count(rs@.len() as int, r.0 as int),
        r.0 <= rs@.len() || r.0 == 1,
        r.0 <= 0xffff_ffff_ffff_ffff,
        r.1 <= 0x1_0000_0001,
        r.2 <= 0x1_0000_0001,
        r.3 as int == (rs@.len() + r.0 - 1) / (r.0 as int),
        r.3 <= rs@.len(),
        r.4 as int == (if r.0 * r.1 > 1 { r.0 * r.1 } else { 1 }),
        r.5 as int == (if r.3 * r.2 > 1 { r.3 * r.2 } else { 1 }),
        (r.0 as int, r.1 as int, r.2 as int, r.4 as int, r.5 as int) == page_layout(rs@),
{
    let n = rs.len();
    // Columns: the square root of the count, rounded up, and at least one.
    let mut c: u128 = 1;
    while c * c < n as u128
        invariant
            1 <= c,
            c <= n || c == 1,
            n <= 0xffff_ffff_ffff_ffff,
            c * c <= 0xffff_ffff_ffff_ffff * 0xffff_ffff_ffff_ffff,
            (c - 1) * (c - 1) < n || c == 1,
        decreases n - c,
    {
        assert(c < n) by (nonlinear_arith)
            requires
                c * c < n,
                c >= 1,
        ;
        c = c + 1;
        assert(c * c <= 0xffff_ffff_ffff_ffff * 0xffff_ffff_ffff_ffff) by (nonlinear_arith)
            requires
                1 <= c <= 0xffff_ffff_ffff_ffff,
        ;
    }
    proof {
        assert(is_column_count(n as int, c as int));
        lemma_columns_unique(n as int, c as int);
    }
    // Cells: the largest bitmap plus a pixel.
    let mut widest: u32 = 0;
    let mut tallest: u32 = 0;
    let mut k: usize = 0;
    while k < n
        invariant
            k <= n,
            n == rs@.len(),
            widest == largest(rs@, false, k as int),
            tallest == largest(rs@, true, k as int),
        decreases n - k,
    {
        let r = &rs[k];
        if k == 0 || r.width > widest {
            widest = r.width;
        }
        if k == 0 || r.height > tallest {
            tallest = r.height;
        }
        k = k + 1;
    }
    let cw: u128 = if n == 0 { 2 } else { widest as u128 + 1 };
    let ch: u128 = if n == 0 { 2 } else { tallest as u128 + 1 };
    let rows_wide: u128 = (n as u128 + c - 1) / c;
    proof {
        assert(c * cw <= 0xffff_ffff_ffff_ffff * 0x1_0000_0001) by (nonlinear_arith)
            requires
                c <= 0xffff_ffff_ffff_ffff,
                cw <= 0x1_0000_0001,
        ;
        assert(rows_wide <= n) by (nonlinear_arith)
            requires
                rows_wide as int == (n as int + c as int - 1) / (c as int),
                c >= 1,
                n >= 0,
        ;
        assert(rows_wide * ch <= 0xffff_ffff_ffff_ffff * 0x1_0000_0001) by (nonlinear_arith)
            requires
                rows_wide <= 0xffff_ffff_ffff_ffff,
                ch <= 0x1_0000_0001,
        ;
    }
    let pw: u128 = if c * cw > 1 { c * cw } else { 1 };
    let ph: u128 = if rows_wide * ch > 1 { rows_wide * ch } else { 1 };
    proof {
        assert(page_layout(rs@) == (c as int, cw as int, ch as int, pw as int, ph as int));
    }
    (c, cw, ch, rows_wide, pw, ph)
}

/// Whether rasterised glyphs can be laid out, as [`lay_out`] needs.
pub fn fits_for_baking(rs: &Vec<Raster>, line: &Option<LineMetrics>) -> (r: bool)
    ensures
        r == bake_fits(rs@, *line),
{
    let (c, cw, ch, rows, pw, ph) = page_numbers(rs);
    let mut k: usize = 0;
    while k < rs.len()
        invariant
            k <= rs@.len(),
            forall|i: int|
                0 <= i < k ==> {
                    let r = #[trigger] rs@[i];
                    &&& r.coverage@.len() == r.width * r.height
                    &&& i32::MIN < r.height + r.ymin <= i32::MAX
                },
        decreases rs@.len() - k,
    {
        let r = &rs[k];
        assert((r.width as int) * (r.height as int) <= 0xffff_ffff * 0xffff_ffff) by (nonlinear_arith)
            requires
                r.width <= 0xffff_ffff,
                r.height <= 0xffff_ffff,
        ;
        let area = (r.width as u64) * (r.height as u64);
        let down = r.height as i64 + r.ymin as i64;
        if r.coverage.len() as u64 != area || down <= i32::MIN as i64 || down > i32::MAX as i64 {
            return false;
        }
        k = k + 1;
    }
    let line_ok = match line {
        Some(m) => {
            let spread = m.ascent as i64 - m.descent as i64 + m.gap as i64;
            i32::MIN as i64 <= spread && spread <= i32::MAX as i64
        },
        None => true,
    };
    if !line_ok || pw > u32::MAX as u128 || ph > u32::MAX as u128 {
        proof {
            if pw > u32::MAX || ph > u32::MAX {
                assert(pw * ph * 4 > u32::MAX) by (nonlinear_arith)
                    requires
                        pw >= 1,
                        ph >= 1,
                        pw > u32::MAX || ph > u32::MAX,
                ;
            }
        }
        return false;
    }
    assert(pw * ph * 4 <= 0x1_0000_0000 * 0x1_0000_0000 * 4 && (ph + 1) * pw * 4 + 4 <= 0x1_0000_0001 * 0x1_0000_0000 * 4 + 4) by (nonlinear_arith)
        requires
            pw <= u32::MAX,
            ph <= u32::MAX,
    ;
    pw * ph * 4 <= u32::MAX as u128 && (ph + 1) * pw * 4 + 4 <= usize::MAX as u128
}

/// Lay rasterised glyphs out on a page and record their metrics.
///
/// A simple shelf: glyphs are all about one size, so anything cleverer would
/// buy a few percent of a texture that is already small. Glyph `i` sits at
/// column `i % columns`, row `i / columns`. Without line metrics the size
/// stands in for the ascent.
pub fn lay_out(size: u32, rs: Vec<Raster>, line: Option<LineMetrics>) -> (r: (Font, Image))
    requires
        size <= i32::MAX,
        bake_fits(rs@, line),
    ensures
        ({
            let (columns, cell_w, cell_h, page_w, page_h) = page_layout(rs@);
            let (ascent, descent, gap) = match line {
                Some(m) => (m.ascent as int, m.descent as int, m.gap as int),
                None => (size as int, 0, 0),
            };
            &&& r.0.size == size
            &&& r.0.ascent == ascent
            &&& r.0.descent == descent
            &&& r.0.line_height == (if ascent - descent + gap > 1 { ascent - descent + gap } else { 1 })
            &&& r.0.glyphs@ == glyph_table_of(rs@, rs@.len() as int)
            &&& r.1.name@.len() == 0
            &&& r.1.width == page_w
            &&& r.1.height == page_h
            &&& r.1.pixels@ == drawn(rs@, rs@.len() as int)
        }),
        glyphs_laid_apart(r.0.glyphs@, r.1.width as int, r.1.height as int),
{
    let n = rs.len();
    let (c, cw, ch, rows_wide, pw, ph) = page_numbers(&rs);
    let ghost layout = page_layout(rs@);
    proof {
        lemma_layout_bounds(rs@, line, c as int);
    }
    proof {
        assert(layout == (c as int, cw as int, ch as int, pw as int, ph as int));
        assert(pw <= u32::MAX && ph <= u32::MAX) by (nonlinear_arith)
            requires
                pw * ph * 4 <= u32::MAX,
                pw >= 1,
                ph >= 1,
        ;
        assert(c <= pw && cw <= pw) by (nonlinear_arith)
            requires
                pw == c * cw,
                c >= 1,
                cw >= 1,
        ;
        if n > 0 {
            assert(rows_wide <= ph && ch <= ph) by (nonlinear_arith)
                requires
                    ph == rows_wide * ch,
                    rows_wide >= 1,
                    ch >= 1,
            ;
        }
        assert(pw * ph * 4 <= usize::MAX) by (nonlinear_arith)
            requires
                (ph + 1) * pw * 4 + 4 <= usize::MAX,
        ;
    }
    let columns = c as u64;
    let cell_w = cw as u64;
    let cell_h = ch as u64;
    let rows = rows_wide as u64;
    let page_w = pw as u64;
    let page_h = ph as u64;
    let mut page = Image::blank("", page_w as u32, page_h as u32);
    let mut glyphs = glyph_table();
    proof {
        reveal_strlit("");
        assert(page.pixels@ =~= drawn(rs@, 0));
        assert(glyphs@ =~= glyph_table_of(rs@, 0));
    }
    let mut i: usize = 0;
    while i < n
        invariant
            i <= n,
            n == rs@.len(),
            bake_fits(rs@, line),
            layout == page_layout(rs@),
            layout == (columns as int, cell_w as int, cell_h as int, page_w as int, page_h as int),
            1 <= columns,
            rows as int == (n as int + columns as int - 1) / (columns as int),
            rows <= n,
            page_w as int == columns * cell_w,
            n > 0 ==> page_h as int == rows * cell_h,
            page_w >= 1,
            page_h >= 1,
            page_w * page_h * 4 <= u32::MAX,
            forall|j: int| 0 <= j < n ==> (#[trigger] rs@[j]).width < cell_w && rs@[j].height < cell_h,
            page.width == page_w,
            page.height == page_h,
            page.name@.len() == 0,
            page.pixels@ == drawn(rs@, i as int),
            glyphs@ == glyph_table_of(rs@, i as int),
        decreases n - i,
    {
        let r = &rs[i];
        let col = (i as u64) % columns;
        let row = (i as u64) / columns;
        proof {
            assert(r.width < cell_w && r.height < cell_h);
            assert(row < rows) by (nonlinear_arith)
                requires
                    row as int == (i as int) / (columns as int),
                    rows as int == (n as int + columns as int - 1) / (columns as int),
                    i < n,
                    columns >= 1,
            ;
            assert(col < columns);
            assert((col + 1) * cell_w <= columns * cell_w) by (nonlinear_arith)
                requires
                    col < columns,
                    cell_w >= 0,
            ;
            assert((row + 1) * cell_h <= rows * cell_h) by (nonlinear_arith)
                requires
                    row < rows,
                    cell_h >= 0,
            ;
            assert(col * cell_w + r.width < (col + 1) * cell_w) by (nonlinear_arith)
                requires
                    r.width < cell_w,
            ;
            assert(row * cell_h + r.height < (row + 1) * cell_h) by (nonlinear_arith)
                requires
                    r.height < cell_h,
            ;
        }
        let x = col * cell_w;
        let y = row * cell_h;
        proof {
            assert((y + r.height) * page_w + x + r.width <= (usize::MAX - 4) / 4) by (nonlinear_arith)
                requires
                    y + r.height <= page_h,
                    x + r.width <= page_w,
                    (page_h + 1) * page_w * 4 + 4 <= usize::MAX,
            ;
            assert(r.height * r.width * 4 <= u32::MAX) by (nonlinear_arith)
                requires
                    r.height <= page_h,
                    r.width <= page_w,
                    page_w * page_h * 4 <= u32::MAX,
            ;
            assert(r.coverage@.len() == r.width * r.height);
            assert(page_h <= 0x4000_0000) by (nonlinear_arith)
                requires
                    page_w * page_h * 4 <= u32::MAX,
                    page_w >= 1,
            ;
            assert(i32::MIN < r.height + r.ymin <= i32::MAX);
        }
        let glyph_img = Image {
            name: String::new(),
            width: r.width,
            height: r.height,
            pixels: white_pixels(&r.coverage),
        };
        page.blit(&glyph_img, x as u32, y as u32);
        let g = Glyph {
            x: x as u32,
            y: y as u32,
            width: r.width,
            height: r.height,
            bearing_x: r.xmin,
            bearing_y: -(r.height as i32 + r.ymin),
            advance: r.advance,
        };
        glyph_store(&mut glyphs, r.c, g);
        proof {
            assert(g == glyph_at(rs@, i as int));
        }
        i = i + 1;
    }
    let (ascent, descent, gap) = match &line {
        Some(m) => (m.ascent, m.descent, m.gap),
        None => (size as i32, 0i32, 0i32),
    };
    let spread = ascent as i64 - descent as i64 + gap as i64;
    let line_height: u32 = if spread > 1 { spread as u32 } else { 1 };
    proof {
        lemma_glyphs_laid_apart(rs@, line, columns as int);
    }
    (Font { size, line_height, ascent, descent, glyphs }, page)
}

/// Coverage widened to RGBA white.
fn white_pixels(cov: &Vec<u8>) -> (out: Vec<u8>)
    requires
        cov@.len() * 4 <= usize::MAX,
    ensures
        out@ == white_rgba(cov@),
{
    let mut out: Vec<u8> = Vec::new();
    let mut k: usize = 0;
    while k < cov.len()
        invariant
            k <= cov@.len(),
            cov@.len() * 4 <= usize::MAX,
            out@ == white_rgba(cov@).take(k * 4),
        decreases cov@.len() - k,
    {
        let a = cov[k];
        out.push(255);
        out.push(255);
        out.push(255);
        out.push(a);
        proof {
            assert(white_rgba(cov@).take(k * 4 + 4) =~= white_rgba(cov@).take(k * 4).push(255u8).push(255u8).push(255u8).push(a)) by {
                assert((k * 4) / 4 == k && (k * 4 + 1) / 4 == k && (k * 4 + 2) / 4 == k && (k * 4 + 3) / 4 == k);
                assert((k * 4) % 4 == 0 && (k * 4 + 1) % 4 == 1 && (k * 4 + 2) % 4 == 2 && (k * 4 + 3) % 4 == 3);
            }
        }
        k = k + 1;
    }
    proof {
        assert(white_rgba(cov@).take(cov@.len() as int * 4) =~= white_rgba(cov@));
    }
    out
}

/// There is one column count for a glyph count.
proof fn lemma_columns_unique(n: int, c: int)
    requires
        is_column_count(n, c),
    ensures
        (choose|d: int| #[trigger] is_column_count(n, d)) == c,
{
    let d = choose|d: int| #[trigger] is_column_count(n, d);
    assert(is_column_count(n, d));
    if d < c {
        assert(d * d <= (c - 1) * (c - 1)) by (nonlinear_arith)
            requires
                1 <= d < c,
        ;
    } else if d > c {
        assert(c * c <= (d - 1) * (d - 1)) by (nonlinear_arith)
            requires
                1 <= c < d,
        ;
    }
}

/// Every bitmap is within the largest.
proof fn lemma_largest_at_least(rs: Seq<Raster>, tall: bool, n: int, i: int)
    requires
        0 <= i < n <= rs.len(),
    ensures
        (if tall { rs[i].height as int } else { rs[i].width as int }) <= largest(rs, tall, n),
    decreases n,
{
    if i < n - 1 {
        lemma_largest_at_least(rs, tall, n - 1, i);
    }
}


/// A baked font holds a glyph for exactly the characters rasterised: with
/// [`wanted_chars`] giving the charset's distinct printable characters in
/// order, the table's keys are that set, whatever order the charset was
/// written in.
pub proof fn lemma_glyph_table_keys(rs: Seq<Raster>, n: int)
    requires
        0 <= n <= rs.len(),
    ensures
        glyph_table_of(rs, n).dom() == Set::new(|c: char| exists|i: int| 0 <= i < n && #[trigger] rs[i].c == c),
    decreases n,
{
    if n > 0 {
        lemma_glyph_table_keys(rs, n - 1);
        assert(glyph_table_of(rs, n).dom() =~= Set::new(|c: char| exists|i: int| 0 <= i < n && #[trigger] rs[i].c == c)) by {
            assert forall|c: char| (exists|i: int| 0 <= i < n && #[trigger] rs[i].c == c) implies glyph_table_of(rs, n).dom().contains(c) by {
                let i = choose|i: int| 0 <= i < n && #[trigger] rs[i].c == c;
                if i < n - 1 {
                    assert(exists|j: int| 0 <= j < n - 1 && #[trigger] rs[j].c == c);
                }
            }
            assert forall|c: char| glyph_table_of(rs, n).dom().contains(c) implies (exists|i: int| 0 <= i < n && #[trigger] rs[i].c == c) by {
                if c != rs[n - 1].c {
                    let i = choose|i: int| 0 <= i < n - 1 && #[trigger] rs[i].c == c;
                    assert(rs[i].c == c);
                } else {
                    assert(rs[n - 1].c == c);
                }
            }
        }
    } else {
        assert(glyph_table_of(rs, 0).dom() =~= Set::new(|c: char| exists|i: int| 0 <= i < 0 && #[trigger] rs[i].c == c));
    }
}

/// Two glyph boxes share no pixel.
pub open spec fn glyph_boxes_apart(a: Glyph, b: Glyph) -> bool {
    a.x + a.width <= b.x || b.x + b.width <= a.x || a.y + a.height <= b.y || b.y + b.height <= a.y
}

/// No two glyphs of a table overlap, and every glyph lies inside a page
/// `page_w` by `page_h`.
pub open spec fn glyphs_laid_apart(m: Map<char, Glyph>, page_w: int, page_h: int) -> bool {
    &&& forall|a: char, b: char|
        a != b && #[trigger] m.contains_key(a) && #[trigger] m.contains_key(b) ==> glyph_boxes_apart(m[a], m[b])
    &&& forall|a: char| #[trigger] m.contains_key(a) ==> m[a].x + m[a].width <= page_w && m[a].y + m[a].height <= page_h
}

/// What the table records for a character is the metrics of some glyph of
/// that character.
proof fn lemma_glyph_entry(rs: Seq<Raster>, n: int, c: char)
    requires
        0 <= n <= rs.len(),
        glyph_table_of(rs, n).contains_key(c),
    ensures
        exists|i: int| 0 <= i < n && (#[trigger] rs[i]).c == c && glyph_table_of(rs, n)[c] == glyph_at(rs, i),
    decreases n,
{
    if n > 0 && rs[n - 1].c != c {
        lemma_glyph_entry(rs, n - 1, c);
        let i = choose|i: int| 0 <= i < n - 1 && (#[trigger] rs[i]).c == c && glyph_table_of(rs, n - 1)[c] == glyph_at(rs, i);
        assert(rs[i].c == c);
    } else if n > 0 {
        assert(rs[n - 1].c == c);
    }
}

/// Glyph `i` sits in its cell: column `i % columns`, row `i / columns`,
/// with a pixel to spare right and below, inside the page.
proof fn lemma_glyph_cell(rs: Seq<Raster>, line: Option<LineMetrics>, columns: int, i: int)
    requires
        bake_fits(rs, line),
        is_column_count(rs.len() as int, columns),
        0 <= i < rs.len(),
    ensures
        ({
            let (c, w, h, pw, ph) = page_layout(rs);
            let g = glyph_at(rs, i);
            &&& c == columns
            &&& g.x as int == (i % c) * w
            &&& g.y as int == (i / c) * h
            &&& g.x + g.width + 1 <= (i % c + 1) * w <= pw
            &&& g.y + g.height + 1 <= (i / c + 1) * h <= ph
        }),
{
    let n = rs.len() as int;
    lemma_layout_bounds(rs, line, columns);
    let (c, w, h, pw, ph) = page_layout(rs);
    let col = i % c;
    let row = i / c;
    let rows = (n + c - 1) / c;
    assert(0 <= col < c && 0 <= row) by (nonlinear_arith)
        requires
            c >= 1,
            i >= 0,
            col == i % c,
            row == i / c,
    ;
    assert(row < rows) by (nonlinear_arith)
        requires
            row == i / c,
            rows == (n + c - 1) / c,
            i < n,
            c >= 1,
    ;
    let r = rs[i];
    assert(r.width + 1 <= w && r.height + 1 <= h);
    assert(col * w + r.width + 1 <= (col + 1) * w) by (nonlinear_arith)
        requires
            r.width + 1 <= w,
    ;
    assert((col + 1) * w <= c * w) by (nonlinear_arith)
        requires
            col < c,
            w >= 0,
    ;
    assert(row * h + r.height + 1 <= (row + 1) * h) by (nonlinear_arith)
        requires
            r.height + 1 <= h,
    ;
    assert((row + 1) * h <= rows * h) by (nonlinear_arith)
        requires
            row < rows,
            h >= 0,
    ;
    assert(pw <= u32::MAX && ph <= u32::MAX) by (nonlinear_arith)
        requires
            pw * ph * 4 <= u32::MAX,
            pw >= 1,
            ph >= 1,
    ;
    assert(0 <= col * w && 0 <= row * h) by (nonlinear_arith)
        requires
            col >= 0,
            row >= 0,
            w >= 0,
            h >= 0,
    ;
}

/// A baked page holds its glyphs apart: no two glyphs of the table overlap,
/// and each lies inside the page.
proof fn lemma_glyphs_laid_apart(rs: Seq<Raster>, line: Option<LineMetrics>, columns: int)
    requires
        bake_fits(rs, line),
        is_column_count(rs.len() as int, columns),
    ensures
        glyphs_laid_apart(glyph_table_of(rs, rs.len() as int), page_layout(rs).3, page_layout(rs).4),
{
    let n = rs.len() as int;
    let m = glyph_table_of(rs, n);
    let (c, w, h, pw, ph) = page_layout(rs);
    assert forall|a: char| #[trigger] m.contains_key(a) implies m[a].x + m[a].width <= pw && m[a].y + m[a].height <= ph by {
        lemma_glyph_entry(rs, n, a);
        let i = choose|i: int| 0 <= i < n && (#[trigger] rs[i]).c == a && m[a] == glyph_at(rs, i);
        lemma_glyph_cell(rs, line, columns, i);
    }
    assert forall|a: char, b: char|
        a != b && #[trigger] m.contains_key(a) && #[trigger] m.contains_key(b) implies glyph_boxes_apart(m[a], m[b]) by {
        lemma_glyph_entry(rs, n, a);
        lemma_glyph_entry(rs, n, b);
        let i = choose|i: int| 0 <= i < n && (#[trigger] rs[i]).c == a && m[a] == glyph_at(rs, i);
        let j = choose|j: int| 0 <= j < n && (#[trigger] rs[j]).c == b && m[b] == glyph_at(rs, j);
        lemma_glyph_cell(rs, line, columns, i);
        lemma_glyph_cell(rs, line, columns, j);
        assert(i != j);
        let (ci, ri, cj, rj) = (i % c, i / c, j % c, j / c);
        assert(i == ri * c + ci && j == rj * c + cj) by (nonlinear_arith)
            requires
                c >= 1,
                ci == i % c,
                ri == i / c,
                cj == j % c,
                rj == j / c,
        ;
        if ri == rj {
            assert(ci != cj);
            if ci < cj {
                assert((ci + 1) * w <= cj * w) by (nonlinear_arith)
                    requires
                        ci + 1 <= cj,
                        w >= 0,
                ;
            } else {
                assert((cj + 1) * w <= ci * w) by (nonlinear_arith)
                    requires
                        cj + 1 <= ci,
                        w >= 0,
                ;
            }
        } else if ri < rj {
            assert((ri + 1) * h <= rj * h) by (nonlinear_arith)
                requires
                    ri + 1 <= rj,
                    h >= 0,
            ;
        } else {
            assert((rj + 1) * h <= ri * h) by (nonlinear_arith)
                requires
                    rj + 1 <= ri,
                    h >= 0,
            ;
        }
    }
}


/// Characters in strictly increasing code point order.
pub open spec fn strictly_increasing(s: Seq<char>) -> bool {
    forall|i: int, j: int| 0 <= i < j < s.len() ==> (#[trigger] s[i] as u32) < (#[trigger] s[j] as u32)
}

/// Two strictly increasing lists of the same characters are the same list.
proof fn lemma_sorted_same_members(a: Seq<char>, b: Seq<char>)
    requires
        strictly_increasing(a),
        strictly_increasing(b),
        forall|c: char| a.contains(c) <==> b.contains(c),
    ensures
        a == b,
    decreases a.len(),
{
    if a.len() == 0 {
        if b.len() > 0 {
            assert(b.contains(b[0]));
        }
        assert(a =~= b);
    } else {
        assert(a.contains(a[0]));
        assert(b.contains(a[0]));
        assert(b.len() > 0);
        assert(b.contains(b[0]));
        assert(a.contains(b[0]));
        let k = choose|k: int| 0 <= k < b.len() && b[k] == a[0];
        let l = choose|l: int| 0 <= l < a.len() && a[l] == b[0];
        assert((b[0] as u32) <= (a[0] as u32)) by {
            if k > 0 {
                assert((b[0] as u32) < (b[k] as u32));
            }
        }
        assert((a[0] as u32) <= (b[0] as u32)) by {
            if l > 0 {
                assert((a[0] as u32) < (a[l] as u32));
            }
        }
        crate::rng::lemma_char_code(a[0]);
        crate::rng::lemma_char_code(b[0]);
        assert(a[0] == b[0]);
        let ta = a.drop_first();
        let tb = b.drop_first();
        assert forall|c: char| ta.contains(c) <==> tb.contains(c) by {
            if ta.contains(c) {
                let i = choose|i: int| 0 <= i < ta.len() && ta[i] == c;
                assert(a[i + 1] == c);
                assert((a[0] as u32) < (a[i + 1] as u32));
                assert(b.contains(c));
                let j = choose|j: int| 0 <= j < b.len() && b[j] == c;
                assert(j != 0);
                assert(tb[j - 1] == c);
            }
            if tb.contains(c) {
                let j = choose|j: int| 0 <= j < tb.len() && tb[j] == c;
                assert(b[j + 1] == c);
                assert((b[0] as u32) < (b[j + 1] as u32));
                assert(a.contains(c));
                let i = choose|i: int| 0 <= i < a.len() && a[i] == c;
                assert(i != 0);
                assert(ta[i - 1] == c);
            }
        }
        assert(strictly_increasing(ta)) by {
            assert forall|i: int, j: int| 0 <= i < j < ta.len() implies (#[trigger] ta[i] as u32) < (#[trigger] ta[j] as u32) by {
                assert(ta[i] == a[i + 1] && ta[j] == a[j + 1]);
            }
        }
        assert(strictly_increasing(tb)) by {
            assert forall|i: int, j: int| 0 <= i < j < tb.len() implies (#[trigger] tb[i] as u32) < (#[trigger] tb[j] as u32) by {
                assert(tb[i] == b[i + 1] && tb[j] == b[j + 1]);
            }
        }
        lemma_sorted_same_members(ta, tb);
        assert(a.len() == b.len());
        assert forall|i: int| 0 <= i < a.len() implies a[i] == b[i] by {
            if i > 0 {
                assert(a[i] == ta[i - 1] && b[i] == tb[i - 1]);
            }
        }
        assert(a =~= b);
    }
}

/// The characters a font is baked for depend on which characters its
/// charset holds, not on their order or how often they repeat: two
/// charsets with the same characters give the same list, and so the same
/// page.
pub proof fn lemma_charset_order_irrelevant(s1: Seq<char>, s2: Seq<char>, r1: Seq<char>, r2: Seq<char>)
    requires
        forall|c: char| s1.contains(c) <==> s2.contains(c),
        strictly_increasing(r1),
        strictly_increasing(r2),
        forall|c: char| #[trigger] r1.contains(c) <==> s1.contains(c) && !is_control(c),
        forall|c: char| #[trigger] r2.contains(c) <==> s2.contains(c) && !is_control(c),
    ensures
        r1 == r2,
{
    assert forall|c: char| r1.contains(c) <==> r2.contains(c) by {
        assert(r1.contains(c) <==> s1.contains(c) && !is_control(c));
        assert(r2.contains(c) <==> s2.contains(c) && !is_control(c));
    }
    lemma_sorted_same_members(r1, r2);
}

} // verus!
