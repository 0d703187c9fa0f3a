//! Decoded pixels.
//!
//! Everything above this works in RGBA, row-major, eight bits a channel. The
//! variety in the source formats — PNG colour types, indexed and grayscale
//! modes — is flattened here, once, at import.
use vstd::prelude::*;

verus! {

/// Decoded pixels.
#[derive(Clone, PartialEq, Eq, Debug)]
pub struct Image {
    /// Name the scene refers to it by, without the `asset:` prefix.
    pub name: String,
    /// Width in pixels.
    pub width: u32,
    /// Height in pixels.
    pub height: u32,
    /// RGBA, row-major, 8 bits per channel.
    pub pixels: Vec<u8>,
}

/// `d` with `span` bytes from `src` at `from` copied to `to`, when both
/// ranges lie inside their buffers; unchanged otherwise.
pub open spec fn copy_row(d: Seq<u8>, src: Seq<u8>, from: int, to: int, span: int) -> Seq<u8> {
    if from + span <= src.len() && to + span <= d.len() {
        Seq::new(d.len(), |p: int| if to <= p < to + span { src[from + p - to] } else { d[p] })
    } else {
        d
    }
}

/// The first `rows` rows of a blit of a `sw`-wide `src` into a `dw`-wide
/// `d` at `(x, y)`, applied in order.
pub open spec fn blit_spec(d: Seq<u8>, dw: int, src: Seq<u8>, sw: int, x: int, y: int, rows: int) -> Seq<u8>
    decreases rows,
{
    if rows <= 0 {
        d
    } else {
        let before = blit_spec(d, dw, src, sw, x, y, rows - 1);
        let r = rows - 1;
        copy_row(before, src, r * sw * 4, ((y + r) * dw + x) * 4, sw * 4)
    }
}

/// Copy `span` bytes of `src` from `from` into `dst` at `to`.
fn copy_bytes(dst: &mut Vec<u8>, src: &Vec<u8>, from: usize, to: usize, span: usize)
    requires
        from + span <= src@.len(),
        to + span <= old(dst)@.len(),
    ensures
        final(dst)@ == copy_row(old(dst)@, src@, from as int, to as int, span as int),
{
    let ghost d0 = dst@;
    let sl = src.len();
    let dl = dst.len();
    let mut k: usize = 0;
    while k < span
        invariant
            k <= span,
            from + span <= sl,
            to + span <= dl,
            dl == d0.len(),
            sl == src@.len(),
            from + span <= src@.len(),
            to + span <= d0.len(),
            dst@.len() == d0.len(),
            forall|p: int|
                0 <= p < d0.len() ==> #[trigger] dst@[p] == if to <= p < to + k {
                    src@[from + p - to]
                } else {
                    d0[p]
                },
        decreases span - k,
    {
        dst.set(to + k, src[from + k]);
        k = k + 1;
    }
    proof {
        assert(dst@ =~= copy_row(d0, src@, from as int, to as int, span as int));
    }
}

impl Image {
    /// Whether the pixel buffer holds exactly `width * height` RGBA pixels.
    pub open spec fn well_formed(&self) -> bool {
        self.pixels@.len() == self.width * self.height * 4
    }

    /// An image of a given size, fully transparent.
    pub fn blank(name: &str, width: u32, height: u32) -> (r: Image)
        requires
            width * height * 4 <= usize::MAX,
        ensures
            r.name@ == name@,
            r.width == width,
            r.height == height,
            r.pixels@ == Seq::new((width * height * 4) as nat, |i: int| 0u8),
            r.well_formed(),
    {
        let n = (width as usize) * (height as usize) * 4;
        let mut pixels: Vec<u8> = Vec::new();
        let mut i: usize = 0;
        while i < n
            invariant
                i <= n,
                pixels@ == Seq::new(i as nat, |k: int| 0u8),
            decreases n - i,
        {
            pixels.push(0);
            proof {
                assert(pixels@ =~= Seq::new((i + 1) as nat, |k: int| 0u8));
            }
            i = i + 1;
        }
        Image { name: crate::text::string_from(name), width, height, pixels }
    }

    /// Copy `src` into this image with its top-left at `(x, y)`.
    ///
    /// Straight replacement, not a blend: the callers are laying frames out
    /// side by side on a sheet, where nothing overlaps by construction. A row
    /// that would fall outside either buffer is skipped.
    pub fn blit(&mut self, src: &Image, x: u32, y: u32)
        requires
            (y + src.height) * old(self).width + x + src.width <= (usize::MAX - 4) / 4,
            src.height * src.width * 4 <= usize::MAX,
            y + src.height <= u32::MAX + 1,
        ensures
            final(self).pixels@ == blit_spec(
                old(self).pixels@,
                old(self).width as int,
                src.pixels@,
                src.width as int,
                x as int,
                y as int,
                src.height as int,
            ),
            final(self).name == old(self).name,
            final(self).width == old(self).width,
            final(self).height == old(self).height,
    {
        let span = (src.width as usize) * 4;
        let ghost p0 = self.pixels@;
        let mut row: u32 = 0;
        while row < src.height
            invariant
                row <= src.height,
                self.name == old(self).name,
                self.width == old(self).width,
                self.height == old(self).height,
                p0 == old(self).pixels@,
                (y + src.height) * self.width + x + src.width <= (usize::MAX - 4) / 4,
                src.height * src.width * 4 <= usize::MAX,
                y + src.height <= u32::MAX + 1,
                span == src.width * 4,
                self.pixels@ == blit_spec(p0, self.width as int, src.pixels@, src.width as int, x as int, y as int, row as int),
            decreases src.height - row,
        {
            assert(row * span + span <= src.height * src.width * 4) by (nonlinear_arith)
                requires
                    row < src.height,
                    span == src.width * 4,
            ;
            assert(((y + row) * self.width + x) * 4 + span <= usize::MAX) by (nonlinear_arith)
                requires
                    row < src.height,
                    (y + src.height) * self.width + x + src.width <= (usize::MAX - 4) / 4,
                    span == src.width * 4,
            ;
            let from = (row as usize) * span;
            let to = (((y + row) as usize) * (self.width as usize) + (x as usize)) * 4;
            assert(from as int == (row as int) * (src.width as int) * 4) by (nonlinear_arith)
                requires
                    from == row * span,
                    span == src.width * 4,
            ;
            if from + span <= src.pixels.len() && to + span <= self.pixels.len() {
                copy_bytes(&mut self.pixels, &src.pixels, from, to, span);
            }
            row = row + 1;
        }
    }

    /// The rectangle `(x, y, width, height)` as an image of its own; the part
    /// that falls outside this image stays transparent.
    pub fn crop(&self, name: &str, x: u32, y: u32, width: u32, height: u32) -> (r: Image)
        requires
            self.well_formed(),
            x <= self.width,
            y <= self.height,
            width * height * 4 <= usize::MAX,
            self.width * self.height * 4 <= usize::MAX,
            width * 4 <= usize::MAX,
        ensures
            r.name@ == name@,
            r.width == width,
            r.height == height,
            r.well_formed(),
            forall|row: int, col: int, c: int|
                0 <= row < height && 0 <= col < width && 0 <= c < 4 ==> #[trigger] r.pixels@[(row * width + col) * 4 + c] == if y + row < self.height && x + col < self.width {
                    self.pixels@[((y + row) * self.width + x + col) * 4 + c]
                } else {
                    0u8
                },
    {
        let mut out = Image::blank(name, width, height);
        let rows = if height < self.height - y { height } else { self.height - y };
        let cols = if width < self.width - x { width } else { self.width - x };
        let span = (cols as usize) * 4;
        let ghost blank = out.pixels@;
        proof {
            assert forall|r: int, col: int, c: int|
                0 <= r < height && 0 <= col < width && 0 <= c < 4 implies #[trigger] out.pixels@[(r * width + col) * 4 + c] == 0u8 by {
                let p = (r * width + col) * 4 + c;
                assert(0 <= p < width * height * 4) by (nonlinear_arith)
                    requires
                        0 <= r < height,
                        0 <= col < width,
                        0 <= c < 4,
                        p == (r * width + col) * 4 + c,
                ;
            }
        }
        let mut row: u32 = 0;
        while row < rows
            invariant
                row <= rows,
                rows <= height,
                rows <= self.height - y,
                cols <= width,
                cols <= self.width - x,
                span == cols * 4,
                self.well_formed(),
                y <= self.height,
                x <= self.width,
                out.width == width,
                out.height == height,
                out.name@ == name@,
                out.pixels@.len() == width * height * 4,
                width * height * 4 <= usize::MAX,
                self.width * self.height * 4 <= usize::MAX,
                forall|r: int, col: int, c: int|
                    0 <= r < height && 0 <= col < width && 0 <= c < 4 ==> #[trigger] out.pixels@[(r * width + col) * 4 + c] == if r < row && col < cols {
                        self.pixels@[((y + r) * self.width + x + col) * 4 + c]
                    } else {
                        0u8
                    },
            decreases rows - row,
        {
            assert(((y + row) * self.width + x) * 4 + span <= self.width * self.height * 4) by (nonlinear_arith)
                requires
                    row < rows,
                    rows <= self.height - y,
                    cols <= self.width - x,
                    span == cols * 4,
            ;
            assert((row * width) * 4 + span <= width * height * 4) by (nonlinear_arith)
                requires
                    row < rows,
                    rows <= height,
                    cols <= width,
                    span == cols * 4,
            ;
            let from = (((y + row) as usize) * (self.width as usize) + (x as usize)) * 4;
            let to = (row as usize) * (width as usize) * 4;
            let ghost before = out.pixels@;
            copy_bytes(&mut out.pixels, &self.pixels, from, to, span);
            proof {
                assert forall|r: int, col: int, c: int|
                    0 <= r < height && 0 <= col < width && 0 <= c < 4 implies #[trigger] out.pixels@[(r * width + col) * 4 + c] == if r < row + 1 && col < cols {
                        self.pixels@[((y + r) * self.width + x + col) * 4 + c]
                    } else {
                        0u8
                    } by {
                    let p = (r * width + col) * 4 + c;
                    assert(0 <= p < width * height * 4) by (nonlinear_arith)
                        requires
                            0 <= r < height,
                            0 <= col < width,
                            0 <= c < 4,
                            p == (r * width + col) * 4 + c,
                    ;
                    if r == row && col < cols {
                        assert(to <= p < to + span) by (nonlinear_arith)
                            requires
                                r == row,
                                0 <= col < cols,
                                0 <= c < 4,
                                p == (r * width + col) * 4 + c,
                                to == row * width * 4,
                                span == cols * 4,
                        ;
                        assert(from + p - to == ((y + r) * self.width + x + col) * 4 + c) by (nonlinear_arith)
                            requires
                                r == row,
                                p == (r * width + col) * 4 + c,
                                to == row * width * 4,
                                from == ((y + row) * self.width + x) * 4,
                        ;
                    } else {
                        assert(!(to <= p < to + span)) by (nonlinear_arith)
                            requires
                                !(r == row && col < cols),
                                0 <= r < height,
                                0 <= col < width,
                                0 <= c < 4,
                                p == (r * width + col) * 4 + c,
                                to == row * width * 4,
                                span == cols * 4,
                                cols <= width,
                        ;
                    }
                }
            }
            row = row + 1;
        }
        proof {
            assert forall|r: int, col: int, c: int|
                0 <= r < height && 0 <= col < width && 0 <= c < 4 implies #[trigger] out.pixels@[(r * width + col) * 4 + c] == if y + r < self.height && x + col < self.width {
                    self.pixels@[((y + r) * self.width + x + col) * 4 + c]
                } else {
                    0u8
                } by {
                assert((r < rows && col < cols) == (y + r < self.height && x + col < self.width));
            }
        }
        out
    }
}

/// Why an image could not be read.
#[derive(Debug, Clone, PartialEq, Eq)]
pub enum ImageError {
    /// The file could not be opened.
    Io {
        /// Path that failed.
        path: String,
        /// What the operating system said.
        detail: String,
    },
    /// The file was not something this build can decode.
    Decode {
        /// Path that failed.
        path: String,
        /// What the decoder said.
        detail: String,
    },
}

impl ImageError {
    /// An I/O failure against a path.
    pub fn io(path: &str, detail: &str) -> (e: ImageError)
        ensures
            e matches ImageError::Io { path: p, detail: d } && p@ == path@ && d@ == detail@,
    {
        ImageError::Io { path: crate::text::string_from(path), detail: crate::text::string_from(detail) }
    }

    /// A decode failure against a path.
    pub fn decode(path: &str, detail: &str) -> (e: ImageError)
        ensures
            e matches ImageError::Decode { path: p, detail: d } && p@ == path@ && d@ == detail@,
    {
        ImageError::Decode {
            path: crate::text::string_from(path),
            detail: crate::text::string_from(detail),
        }
    }

    /// The human-readable message.
    pub fn message(&self) -> (out: String)
        ensures
            out@ == match self {
                ImageError::Io { path, detail } => "cannot read "@ + path@ + ": "@ + detail@,
                ImageError::Decode { path, detail } => "cannot decode "@ + path@ + ": "@ + detail@,
            },
    {
        let mut out = String::new();
        match self {
            ImageError::Io { path, detail } => {
                crate::text::push_str(&mut out, "cannot read ");
                crate::text::push_str(&mut out, path.as_str());
                crate::text::push_str(&mut out, ": ");
                crate::text::push_str(&mut out, detail.as_str());
            },
            ImageError::Decode { path, detail } => {
                crate::text::push_str(&mut out, "cannot decode ");
                crate::text::push_str(&mut out, path.as_str());
                crate::text::push_str(&mut out, ": ");
                crate::text::push_str(&mut out, detail.as_str());
            },
        }
        out
    }
}

// ---------------------------------------------------------------------------
// PNG
// ---------------------------------------------------------------------------

/// A decoded PNG frame as the decoder hands it back: its size, colour type
/// and bit depth as the PNG format numbers them, the raw samples, and the
/// palette and transparency chunks when the file has them.
pub struct PngFrame {
    /// Width in pixels.
    pub width: u32,
    /// Height in pixels.
    pub height: u32,
    /// Colour type: 0 grey, 2 RGB, 3 indexed, 4 grey and alpha, 6 RGBA.
    pub color: u8,
    /// Bits per sample.
    pub depth: u8,
    /// The samples, row by row.
    pub data: Vec<u8>,
    /// The palette, three bytes an entry.
    pub palette: Option<Vec<u8>>,
    /// The transparency chunk, one alpha an entry.
    pub trns: Option<Vec<u8>>,
}

/// A decoded frame as plain values.
pub struct PngFrameView {
    /// Width in pixels.
    pub width: u32,
    /// Height in pixels.
    pub height: u32,
    /// Colour type.
    pub color: u8,
    /// Bits per sample.
    pub depth: u8,
    /// The samples.
    pub data: Seq<u8>,
    /// The palette.
    pub palette: Option<Seq<u8>>,
    /// The transparency chunk.
    pub trns: Option<Seq<u8>>,
}

/// A frame seen as plain values.
pub open spec fn png_frame_view(f: PngFrame) -> PngFrameView {
    PngFrameView {
        width: f.width,
        height: f.height,
        color: f.color,
        depth: f.depth,
        data: f.data@,
        palette: match f.palette {
            Some(p) => Some(p@),
            None => None,
        },
        trns: match f.trns {
            Some(t) => Some(t@),
            None => None,
        },
    }
}

/// What the `png` crate decodes a file's bytes to, with its default
/// settings: the first frame, or the decoder's message.
pub uninterp spec fn png_decoded(bytes: Seq<u8>) -> Result<PngFrameView, Seq<char>>;

/// Decode with `png`: `Decoder::new` over the bytes, `read_info`, then
/// `next_frame` into a buffer of `output_buffer_size` bytes, cut to the
/// frame's `buffer_size`. What it gives is [`png_decoded`] of the bytes.
#[verifier::external_body]
fn png_decode(bytes: &[u8]) -> (r: Result<PngFrame, String>)
    ensures
        match r {
            Ok(f) => png_decoded(bytes@) == Ok::<PngFrameView, Seq<char>>(png_frame_view(f)),
            Err(m) => png_decoded(bytes@) == Err::<PngFrameView, Seq<char>>(m@),
        },
{
    let mut reader = png::Decoder::new(bytes).read_info().map_err(|e| e.to_string())?;
    let mut data = vec![0u8; reader.output_buffer_size()];
    let info = reader.next_frame(&mut data).map_err(|e| e.to_string())?;
    data.truncate(info.buffer_size());
    let palette = reader.info().palette.as_ref().map(|p| p.to_vec());
    let trns = reader.info().trns.as_ref().map(|t| t.to_vec());
    Ok(PngFrame { width: info.width, height: info.height, color: info.color_type as u8, depth: info.bit_depth as u8, data, palette, trns })
}

/// The RGBA an indexed pixel `i` stands for, if the palette has an entry
/// for it: the palette colour, with the transparency chunk's alpha or opaque.
pub open spec fn palette_entry_ok(palette: Seq<u8>, i: int) -> bool {
    i * 3 + 3 <= palette.len()
}

/// Samples expanded to RGBA, for the colour types worth supporting at 8 bits:
/// none for any other depth or type, or for an index the palette lacks.
pub open spec fn rgba_of(data: Seq<u8>, color: u8, depth: u8, palette: Option<Seq<u8>>, trns: Option<Seq<u8>>) -> Option<Seq<u8>> {
    if depth != 8 {
        None
    } else if color == 6 {
        Some(data)
    } else if color == 2 {
        Some(Seq::new(((data.len() / 3) * 4) as nat, |k: int| if k % 4 < 3 { data[(k / 4) * 3 + k % 4] } else { 255u8 }))
    } else if color == 4 {
        Some(Seq::new(((data.len() / 2) * 4) as nat, |k: int| if k % 4 < 3 { data[(k / 4) * 2] } else { data[(k / 4) * 2 + 1] }))
    } else if color == 0 {
        Some(Seq::new((data.len() * 4) as nat, |k: int| if k % 4 < 3 { data[k / 4] } else { 255u8 }))
    } else if color == 3 {
        match palette {
            None => None,
            Some(p) => if forall|i: int| 0 <= i < data.len() ==> palette_entry_ok(p, #[trigger] data[i] as int) {
                Some(Seq::new((data.len() * 4) as nat, |k: int| {
                    let idx = data[k / 4] as int;
                    if k % 4 < 3 {
                        p[idx * 3 + k % 4]
                    } else {
                        match trns {
                            Some(t) => if idx < t.len() { t[idx] } else { 255u8 },
                            None => 255u8,
                        }
                    }
                }))
            } else {
                None
            },
        }
    } else {
        None
    }
}

/// Expand the colour types worth supporting into RGBA.
pub fn to_rgba(data: &[u8], color: u8, depth: u8, palette: Option<&[u8]>, trns: Option<&[u8]>) -> (r: Option<Vec<u8>>)
    requires
        data@.len() * 4 <= usize::MAX,
    ensures
        match rgba_of(
            data@,
            color,
            depth,
            match palette {
                Some(p) => Some(p@),
                None => None,
            },
            match trns {
                Some(t) => Some(t@),
                None => None,
            },
        ) {
            Some(v) => r matches Some(out) && out@ == v,
            None => r is None,
        },
{
    if depth != 8 {
        return None;
    }
    let n = data.len();
    let mut out: Vec<u8> = Vec::new();
    if color == 6 {
        let mut i: usize = 0;
        while i < n
            invariant
                i <= n,
                n == data@.len(),
                out@ == data@.take(i as int),
            decreases n - i,
        {
            out.push(data[i]);
            proof {
                assert(data@.take(i + 1) =~= data@.take(i as int).push(data@[i as int]));
            }
            i = i + 1;
        }
        proof {
            assert(data@.take(n as int) =~= data@);
        }
        return Some(out);
    }
    if color == 0 || color == 2 || color == 4 {
        let w: usize = if color == 2 { 3 } else if color == 4 { 2 } else { 1 };
        let count = n / w;
        let ghost want = rgba_of(data@, color, depth, None, None)->0;
        let mut p: usize = 0;
        while p < count
            invariant
                p <= count,
                count == n / w,
                n == data@.len(),
                w == (if color == 2 { 3 } else if color == 4 { 2 } else { 1usize }),
                color == 0 || color == 2 || color == 4,
                depth == 8,
                n * 4 <= usize::MAX,
                want == rgba_of(data@, color, depth, None, None)->0,
                want.len() == count * 4,
                out@ == want.take(p * 4),
            decreases count - p,
        {
            assert(p * w + w <= n) by (nonlinear_arith)
                requires
                    p < count,
                    count == n / w,
                    w >= 1,
            ;
            let (r, g, b, a) = if color == 2 {
                (data[p * 3], data[p * 3 + 1], data[p * 3 + 2], 255u8)
            } else if color == 4 {
                (data[p * 2], data[p * 2], data[p * 2], data[p * 2 + 1])
            } else {
                (data[p], data[p], data[p], 255u8)
            };
            out.push(r);
            out.push(g);
            out.push(b);
            out.push(a);
            proof {
                assert(want.take(p * 4 + 4) =~= want.take(p * 4).push(r).push(g).push(b).push(a)) by {
                    assert((p * 4) / 4 == p && (p * 4 + 1) / 4 == p && (p * 4 + 2) / 4 == p && (p * 4 + 3) / 4 == p);
                    assert((p * 4) % 4 == 0 && (p * 4 + 1) % 4 == 1 && (p * 4 + 2) % 4 == 2 && (p * 4 + 3) % 4 == 3);
                }
            }
            p = p + 1;
        }
        proof {
            assert(want.take(count * 4) =~= want);
        }
        return Some(out);
    }
    if color != 3 {
        return None;
    }
    let pal = match palette {
        Some(p) => p,
        None => return None,
    };
    let ghost pv = pal@;
    let ghost tv = match trns {
        Some(t) => Some(t@),
        None => None::<Seq<u8>>,
    };
    let mut i: usize = 0;
    while i < n
        invariant
            i <= n,
            n == data@.len(),
            n * 4 <= usize::MAX,
            pv == pal@,
            palette matches Some(pp) && pp@ == pv,
            depth == 8,
            color == 3,
            tv == (match trns {
                Some(t) => Some(t@),
                None => None::<Seq<u8>>,
            }),
            forall|j: int| 0 <= j < i ==> palette_entry_ok(pv, #[trigger] data@[j] as int),
            out@.len() == i * 4,
            forall|k: int|
                0 <= k < i * 4 ==> #[trigger] out@[k] == {
                    let idx = data@[k / 4] as int;
                    if k % 4 < 3 {
                        pv[idx * 3 + k % 4]
                    } else {
                        match tv {
                            Some(t) => if idx < t.len() { t[idx] } else { 255u8 },
                            None => 255u8,
                        }
                    }
                },
        decreases n - i,
    {
        let idx = data[i] as usize;
        if idx * 3 + 3 > pal.len() {
            proof {
                assert(!palette_entry_ok(pv, data@[i as int] as int));
            }
            return None;
        }
        let alpha = match trns {
            Some(t) => if idx < t.len() { t[idx] } else { 255u8 },
            None => 255u8,
        };
        let ghost before = out@;
        out.push(pal[idx * 3]);
        out.push(pal[idx * 3 + 1]);
        out.push(pal[idx * 3 + 2]);
        out.push(alpha);
        proof {
            assert forall|k: int| 0 <= k < (i + 1) * 4 implies #[trigger] out@[k] == {
                let idx = data@[k / 4] as int;
                if k % 4 < 3 {
                    pv[idx * 3 + k % 4]
                } else {
                    match tv {
                        Some(t) => if idx < t.len() { t[idx] } else { 255u8 },
                        None => 255u8,
                    }
                }
            } by {
                if k >= i * 4 {
                    assert(k / 4 == i);
                    assert(k % 4 == k - i * 4);
                } else {
                    assert(out@[k] == before[k]);
                }
            }
        }
        i = i + 1;
    }
    proof {
        let want = rgba_of(data@, color, depth, Some(pv), tv)->0;
        assert(out@ =~= want);
    }
    Some(out)
}

/// The name the `png` crate's `Debug` gives a colour type.
pub open spec fn color_type_text(c: u8) -> Seq<char> {
    if c == 0 {
        "Grayscale"@
    } else if c == 2 {
        "Rgb"@
    } else if c == 3 {
        "Indexed"@
    } else if c == 4 {
        "GrayscaleAlpha"@
    } else {
        "Rgba"@
    }
}

/// The name the `png` crate's `Debug` gives a bit depth.
pub open spec fn bit_depth_text(d: u8) -> Seq<char> {
    if d == 1 {
        "One"@
    } else if d == 2 {
        "Two"@
    } else if d == 4 {
        "Four"@
    } else if d == 8 {
        "Eight"@
    } else {
        "Sixteen"@
    }
}

fn color_type_name(c: u8) -> (r: &'static str)
    ensures
        r@ == color_type_text(c),
{
    if c == 0 {
        "Grayscale"
    } else if c == 2 {
        "Rgb"
    } else if c == 3 {
        "Indexed"
    } else if c == 4 {
        "GrayscaleAlpha"
    } else {
        "Rgba"
    }
}

fn bit_depth_name(d: u8) -> (r: &'static str)
    ensures
        r@ == bit_depth_text(d),
{
    if d == 1 {
        "One"
    } else if d == 2 {
        "Two"
    } else if d == 4 {
        "Four"
    } else if d == 8 {
        "Eight"
    } else {
        "Sixteen"
    }
}

/// Decode a PNG file's bytes to RGBA.
///
/// `path` names the file in the error. Eight-bit greyscale, grey with
/// alpha, RGB, RGBA and indexed images are expanded; anything else is
/// refused with a message saying what it was.
pub fn decode_png(path: &str, bytes: &[u8]) -> (r: Result<Image, ImageError>)
    ensures
        match png_decoded(bytes@) {
            Err(m) => r matches Err(ImageError::Decode { path: p, detail: d }) && p@ == path@ && d@ == m,
            Ok(f) => match rgba_of(f.data, f.color, f.depth, f.palette, f.trns) {
                Some(px) => f.data.len() * 4 <= usize::MAX ==> (r matches Ok(img) && img.name@.len() == 0
                    && img.width == f.width && img.height == f.height && img.pixels@ == px),
                None => f.data.len() * 4 <= usize::MAX ==> (r matches Err(ImageError::Decode { path: p, detail: d })
                    && p@ == path@ && d@ == "unsupported "@ + color_type_text(f.color) + " at "@ + bit_depth_text(f.depth)
                    + " bits; convert the file to 8-bit RGBA"@),
            },
        },
{
    let frame = match png_decode(bytes) {
        Ok(f) => f,
        Err(m) => return Err(ImageError::decode(path, m.as_str())),
    };
    if frame.data.len() > usize::MAX / 4 {
        return Err(ImageError::decode(path, "image too large"));
    }
    let palette = match &frame.palette {
        Some(p) => Some(p.as_slice()),
        None => None,
    };
    let trns = match &frame.trns {
        Some(t) => Some(t.as_slice()),
        None => None,
    };
    match to_rgba(frame.data.as_slice(), frame.color, frame.depth, palette, trns) {
        Some(pixels) => Ok(Image { name: String::new(), width: frame.width, height: frame.height, pixels }),
        None => {
            let mut detail = crate::text::string_from("unsupported ");
            crate::text::push_str(&mut detail, color_type_name(frame.color));
            crate::text::push_str(&mut detail, " at ");
            crate::text::push_str(&mut detail, bit_depth_name(frame.depth));
            crate::text::push_str(&mut detail, " bits; convert the file to 8-bit RGBA");
            Err(ImageError::decode(path, detail.as_str()))
        },
    }
}

/// Inside the region a blit covered, every byte is the source's.
proof fn lemma_blit_inside(d: Seq<u8>, dw: int, dh: int, src: Seq<u8>, sw: int, x: int, y: int, n: int, row: int, col: int, c: int)
    requires
        0 <= x,
        0 <= y,
        0 <= sw,
        x + sw <= dw,
        0 <= n,
        y + n <= dh,
        d.len() == dw * dh * 4,
        src.len() >= n * sw * 4,
        0 <= row < n,
        0 <= col < sw,
        0 <= c < 4,
    ensures
        blit_spec(d, dw, src, sw, x, y, n).len() == d.len(),
        blit_spec(d, dw, src, sw, x, y, n)[((y + row) * dw + x + col) * 4 + c] == src[(row * sw + col) * 4 + c],
    decreases n,
{
    lemma_blit_len(d, dw, src, sw, x, y, n);
    let before = blit_spec(d, dw, src, sw, x, y, n - 1);
    lemma_blit_len(d, dw, src, sw, x, y, n - 1);
    let from = (n - 1) * sw * 4;
    let to = ((y + n - 1) * dw + x) * 4;
    let span = sw * 4;
    let p = ((y + row) * dw + x + col) * 4 + c;
    assert(from + span <= src.len()) by (nonlinear_arith)
        requires
            from == (n - 1) * sw * 4,
            span == sw * 4,
            src.len() >= n * sw * 4,
    ;
    assert(to + span <= d.len()) by (nonlinear_arith)
        requires
            to == ((y + n - 1) * dw + x) * 4,
            span == sw * 4,
            x + sw <= dw,
            y + n <= dh,
            d.len() == dw * dh * 4,
            0 <= x,
            0 <= sw,
    ;
    if row == n - 1 {
        assert(p - to == col * 4 + c && from + p - to == (row * sw + col) * 4 + c) by (nonlinear_arith)
            requires
                p == ((y + row) * dw + x + col) * 4 + c,
                to == ((y + n - 1) * dw + x) * 4,
                from == (n - 1) * sw * 4,
                row == n - 1,
        ;
        assert(to <= p < to + span);
        assert(blit_spec(d, dw, src, sw, x, y, n) == copy_row(before, src, from, to, span));
        assert(copy_row(before, src, from, to, span)[p] == src[from + p - to]);
    } else {
        assert((y + row + 1) * dw <= (y + n - 1) * dw) by (nonlinear_arith)
            requires
                row + 1 <= n - 1,
                dw >= 0,
        ;
        assert(((y + row) * dw + x + col) < (y + row + 1) * dw) by (nonlinear_arith)
            requires
                x + col < dw,
        ;
        assert(p < to);
        assert(0 <= p) by (nonlinear_arith)
            requires
                p == ((y + row) * dw + x + col) * 4 + c,
                0 <= y,
                0 <= row,
                0 <= x,
                0 <= col,
                0 <= c,
                dw >= 0,
        ;
        lemma_blit_inside(d, dw, dh, src, sw, x, y, n - 1, row, col, c);
    }
}

/// A blit keeps the buffer's length.
proof fn lemma_blit_len(d: Seq<u8>, dw: int, src: Seq<u8>, sw: int, x: int, y: int, n: int)
    ensures
        blit_spec(d, dw, src, sw, x, y, n).len() == d.len(),
    decreases n,
{
    if n > 0 {
        lemma_blit_len(d, dw, src, sw, x, y, n - 1);
    }
}

/// Cropping, at the same place and size, an image just blitted whole into
/// a page gives the blitted image back: stated over what [`Image::blit`]
/// and [`Image::crop`] promise, with `out` a crop of the blitted page.
pub proof fn lemma_crop_after_blit(page: Image, src: Image, x: u32, y: u32, blitted: Seq<u8>, out: Seq<u8>)
    requires
        page.well_formed(),
        src.well_formed(),
        x + src.width <= page.width,
        y + src.height <= page.height,
        blitted == blit_spec(page.pixels@, page.width as int, src.pixels@, src.width as int, x as int, y as int, src.height as int),
        out.len() == src.width * src.height * 4,
        forall|row: int, col: int, c: int|
            0 <= row < src.height && 0 <= col < src.width && 0 <= c < 4 ==> #[trigger] out[(row * src.width + col) * 4 + c] == if y + row < page.height && x + col < page.width {
                blitted[((y + row) * page.width + x + col) * 4 + c]
            } else {
                0u8
            },
    ensures
        out == src.pixels@,
{
    let w = src.width as int;
    let h = src.height as int;
    assert forall|k: int| 0 <= k < out.len() implies out[k] == src.pixels@[k] by {
        let row = k / (w * 4);
        let col = (k % (w * 4)) / 4;
        let c = k % 4;
        assert(w > 0) by (nonlinear_arith)
            requires
                0 <= k < w * h * 4,
                h >= 0,
        ;
        assert(k == (row * w + col) * 4 + c && 0 <= row < h && 0 <= col < w && 0 <= c < 4) by (nonlinear_arith)
            requires
                row == k / (w * 4),
                col == (k % (w * 4)) / 4,
                c == k % 4,
                w > 0,
                0 <= k < w * h * 4,
        ;
        assert(out[(row * w + col) * 4 + c] == blitted[((y + row) * page.width + x + col) * 4 + c]);
        lemma_blit_inside(page.pixels@, page.width as int, page.height as int, src.pixels@, w, x as int, y as int, h, row, col, c);
    }
    assert(out =~= src.pixels@);
}

} // verus!
