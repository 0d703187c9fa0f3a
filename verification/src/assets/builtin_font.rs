//! The font the engine always has.
//!
//! Every other font comes from a project's assets, baked at import. This one
//! is compiled in, because "no font" should not mean "no text": a debug
//! overlay, a frame counter, or the message explaining that the real font
//! failed to load are all worth being able to draw before a project has any
//! assets at all.
//!
//! The glyphs are drawn by hand, as text, one row per line, so that a change
//! to a letter shows up in a diff as that letter changing shape. They are
//! five pixels wide and eight tall; rows 0 to 6 sit on the baseline and row 7
//! is below it, for the tails of `g`, `j`, `p`, `q`, `y` and a comma.
use vstd::prelude::*;
use vstd::string::StringSliceAdditionalSpecFns;

use crate::assets::font::{glyph_store, glyph_table, Font, Glyph};
use crate::assets::image::Image;

verus! {

/// Glyph bitmap width, in pixels.
pub const GLYPH_WIDTH: u32 = 5;

/// Glyph bitmap height, in pixels.
pub const GLYPH_HEIGHT: u32 = 8;

/// One pixel of space between one glyph and the next, part of the advance.
pub const GAP: i32 = 1;

/// The name a scene uses to ask for it.
pub const BUILTIN_FONT: &'static str = "builtin";

/// Every glyph's art, in character order from space to `~`, one text row
/// per pixel row, `#` for ink.
pub const GLYPH_ART: [[&'static str; 8]; 95] = [
    // ' '
    [".....", ".....", ".....", ".....", ".....", ".....", ".....", "....."],
    // '!'
    ["..#..", "..#..", "..#..", "..#..", "..#..", ".....", "..#..", "....."],
    // '"'
    [".#.#.", ".#.#.", ".....", ".....", ".....", ".....", ".....", "....."],
    // '#'
    [".#.#.", ".#.#.", "#####", ".#.#.", "#####", ".#.#.", ".#.#.", "....."],
    // '$'
    ["..#..", ".####", "#.#..", ".###.", "..#.#", "####.", "..#..", "....."],
    // '%'
    ["##...", "##..#", "...#.", "..#..", ".#...", "#..##", "...##", "....."],
    // '&'
    [".##..", "#..#.", "#.#..", ".#...", "#.#.#", "#..#.", ".##.#", "....."],
    // "'"
    ["..#..", "..#..", ".....", ".....", ".....", ".....", ".....", "....."],
    // '('
    ["...#.", "..#..", ".#...", ".#...", ".#...", "..#..", "...#.", "....."],
    // ')'
    [".#...", "..#..", "...#.", "...#.", "...#.", "..#..", ".#...", "....."],
    // '*'
    [".....", "#.#.#", ".###.", "#####", ".###.", "#.#.#", ".....", "....."],
    // '+'
    [".....", "..#..", "..#..", "#####", "..#..", "..#..", ".....", "....."],
    // ','
    [".....", ".....", ".....", ".....", ".....", ".....", "..##.", "..#.."],
    // '-'
    [".....", ".....", ".....", "#####", ".....", ".....", ".....", "....."],
    // '.'
    [".....", ".....", ".....", ".....", ".....", ".##..", ".##..", "....."],
    // '/'
    ["....#", "...#.", "...#.", "..#..", ".#...", ".#...", "#....", "....."],
    // '0'
    [".###.", "#...#", "#..##", "#.#.#", "##..#", "#...#", ".###.", "....."],
    // '1'
    ["..#..", ".##..", "..#..", "..#..", "..#..", "..#..", ".###.", "....."],
    // '2'
    [".###.", "#...#", "....#", "...#.", "..#..", ".#...", "#####", "....."],
    // '3'
    ["#####", "...#.", "..#..", "...#.", "....#", "#...#", ".###.", "....."],
    // '4'
    ["...#.", "..##.", ".#.#.", "#..#.", "#####", "...#.", "...#.", "....."],
    // '5'
    ["#####", "#....", "####.", "....#", "....#", "#...#", ".###.", "....."],
    // '6'
    ["..##.", ".#...", "#....", "####.", "#...#", "#...#", ".###.", "....."],
    // '7'
    ["#####", "....#", "...#.", "..#..", ".#...", ".#...", ".#...", "....."],
    // '8'
    [".###.", "#...#", "#...#", ".###.", "#...#", "#...#", ".###.", "....."],
    // '9'
    [".###.", "#...#", "#...#", ".####", "....#", "...#.", ".##..", "....."],
    // ':'
    [".....", ".##..", ".##..", ".....", ".##..", ".##..", ".....", "....."],
    // ';'
    [".....", ".##..", ".##..", ".....", ".##..", ".##..", "..#..", ".#..."],
    // '<'
    ["...#.", "..#..", ".#...", "#....", ".#...", "..#..", "...#.", "....."],
    // '='
    [".....", ".....", "#####", ".....", "#####", ".....", ".....", "....."],
    // '>'
    [".#...", "..#..", "...#.", "....#", "...#.", "..#..", ".#...", "....."],
    // '?'
    [".###.", "#...#", "....#", "...#.", "..#..", ".....", "..#..", "....."],
    // '@'
    [".###.", "#...#", "#.###", "#.#.#", "#.###", "#....", ".###.", "....."],
    // 'A'
    [".###.", "#...#", "#...#", "#####", "#...#", "#...#", "#...#", "....."],
    // 'B'
    ["####.", "#...#", "#...#", "####.", "#...#", "#...#", "####.", "....."],
    // 'C'
    [".###.", "#...#", "#....", "#....", "#....", "#...#", ".###.", "....."],
    // 'D'
    ["####.", "#...#", "#...#", "#...#", "#...#", "#...#", "####.", "....."],
    // 'E'
    ["#####", "#....", "#....", "###..", "#....", "#....", "#####", "....."],
    // 'F'
    ["#####", "#....", "#....", "###..", "#....", "#....", "#....", "....."],
    // 'G'
    [".###.", "#...#", "#....", "#.###", "#...#", "#...#", ".###.", "....."],
    // 'H'
    ["#...#", "#...#", "#...#", "#####", "#...#", "#...#", "#...#", "....."],
    // 'I'
    [".###.", "..#..", "..#..", "..#..", "..#..", "..#..", ".###.", "....."],
    // 'J'
    ["..###", "...#.", "...#.", "...#.", "...#.", "#..#.", ".##..", "....."],
    // 'K'
    ["#...#", "#..#.", "#.#..", "##...", "#.#..", "#..#.", "#...#", "....."],
    // 'L'
    ["#....", "#....", "#....", "#....", "#....", "#....", "#####", "....."],
    // 'M'
    ["#...#", "##.##", "#.#.#", "#.#.#", "#...#", "#...#", "#...#", "....."],
    // 'N'
    ["#...#", "##..#", "#.#.#", "#..##", "#...#", "#...#", "#...#", "....."],
    // 'O'
    [".###.", "#...#", "#...#", "#...#", "#...#", "#...#", ".###.", "....."],
    // 'P'
    ["####.", "#...#", "#...#", "####.", "#....", "#....", "#....", "....."],
    // 'Q'
    [".###.", "#...#", "#...#", "#...#", "#.#.#", "#..#.", ".##.#", "....."],
    // 'R'
    ["####.", "#...#", "#...#", "####.", "#.#..", "#..#.", "#...#", "....."],
    // 'S'
    [".####", "#....", "#....", ".###.", "....#", "....#", "####.", "....."],
    // 'T'
    ["#####", "..#..", "..#..", "..#..", "..#..", "..#..", "..#..", "....."],
    // 'U'
    ["#...#", "#...#", "#...#", "#...#", "#...#", "#...#", ".###.", "....."],
    // 'V'
    ["#...#", "#...#", "#...#", "#...#", "#...#", ".#.#.", "..#..", "....."],
    // 'W'
    ["#...#", "#...#", "#...#", "#.#.#", "#.#.#", "##.##", "#...#", "....."],
    // 'X'
    ["#...#", "#...#", ".#.#.", "..#..", ".#.#.", "#...#", "#...#", "....."],
    // 'Y'
    ["#...#", "#...#", ".#.#.", "..#..", "..#..", "..#..", "..#..", "....."],
    // 'Z'
    ["#####", "....#", "...#.", "..#..", ".#...", "#....", "#####", "....."],
    // '['
    ["..##.", "..#..", "..#..", "..#..", "..#..", "..#..", "..##.", "....."],
    // '\\'
    ["#....", ".#...", ".#...", "..#..", "...#.", "...#.", "....#", "....."],
    // ']'
    [".##..", "..#..", "..#..", "..#..", "..#..", "..#..", ".##..", "....."],
    // '^'
    ["..#..", ".#.#.", "#...#", ".....", ".....", ".....", ".....", "....."],
    // '_'
    [".....", ".....", ".....", ".....", ".....", ".....", ".....", "#####"],
    // '`'
    [".#...", "..#..", ".....", ".....", ".....", ".....", ".....", "....."],
    // 'a'
    [".....", ".....", ".###.", "....#", ".####", "#...#", ".####", "....."],
    // 'b'
    ["#....", "#....", "####.", "#...#", "#...#", "#...#", "####.", "....."],
    // 'c'
    [".....", ".....", ".###.", "#....", "#....", "#....", ".###.", "....."],
    // 'd'
    ["....#", "....#", ".####", "#...#", "#...#", "#...#", ".####", "....."],
    // 'e'
    [".....", ".....", ".###.", "#...#", "#####", "#....", ".###.", "....."],
    // 'f'
    ["..##.", ".#..#", ".#...", "###..", ".#...", ".#...", ".#...", "....."],
    // 'g'
    [".....", ".....", ".####", "#...#", "#...#", ".####", "....#", ".###."],
    // 'h'
    ["#....", "#....", "####.", "#...#", "#...#", "#...#", "#...#", "....."],
    // 'i'
    ["..#..", ".....", ".##..", "..#..", "..#..", "..#..", ".###.", "....."],
    // 'j'
    ["...#.", ".....", "..##.", "...#.", "...#.", "...#.", "#..#.", ".##.."],
    // 'k'
    ["#....", "#....", "#..#.", "#.#..", "##...", "#.#..", "#..#.", "....."],
    // 'l'
    [".##..", "..#..", "..#..", "..#..", "..#..", "..#..", ".###.", "....."],
    // 'm'
    [".....", ".....", "##.#.", "#.#.#", "#.#.#", "#...#", "#...#", "....."],
    // 'n'
    [".....", ".....", "####.", "#...#", "#...#", "#...#", "#...#", "....."],
    // 'o'
    [".....", ".....", ".###.", "#...#", "#...#", "#...#", ".###.", "....."],
    // 'p'
    [".....", ".....", "####.", "#...#", "#...#", "####.", "#....", "#...."],
    // 'q'
    [".....", ".....", ".####", "#...#", "#...#", ".####", "....#", "....#"],
    // 'r'
    [".....", ".....", "#.##.", "##..#", "#....", "#....", "#....", "....."],
    // 's'
    [".....", ".....", ".####", "#....", ".###.", "....#", "####.", "....."],
    // 't'
    [".#...", ".#...", "###..", ".#...", ".#...", ".#..#", "..##.", "....."],
    // 'u'
    [".....", ".....", "#...#", "#...#", "#...#", "#..##", ".##.#", "....."],
    // 'v'
    [".....", ".....", "#...#", "#...#", "#...#", ".#.#.", "..#..", "....."],
    // 'w'
    [".....", ".....", "#...#", "#...#", "#.#.#", "#.#.#", ".#.#.", "....."],
    // 'x'
    [".....", ".....", "#...#", ".#.#.", "..#..", ".#.#.", "#...#", "....."],
    // 'y'
    [".....", ".....", "#...#", "#...#", "#...#", ".####", "....#", ".###."],
    // 'z'
    [".....", ".....", "#####", "...#.", "..#..", ".#...", "#####", "....."],
    // '{'
    ["...##", "..#..", "..#..", ".#...", "..#..", "..#..", "...##", "....."],
    // '|'
    ["..#..", "..#..", "..#..", "..#..", "..#..", "..#..", "..#..", "....."],
    // '}'
    ["##...", "..#..", "..#..", "...#.", "..#..", "..#..", "##...", "....."],
    // '~'
    [".....", ".#..#", "#.#.#", "#..#.", ".....", ".....", ".....", "....."],
];

/// The pixel at `(col, row)` of glyph `index`'s cell, counted row-major on
/// the 475-pixel-wide page.
pub open spec fn cell_pixel(index: int, col: int, row: int) -> int {
    row * 475 + index * 5 + col
}

/// Which glyph's cell pixel `q` of the page lies in.
pub open spec fn cell_of(q: int) -> int {
    (q % 475) / 5
}

/// Whether the pixel at `(col, row)` of glyph `index` is inked on `page`.
pub open spec fn inked(page: Seq<u8>, index: int, col: int, row: int) -> bool {
    page[4 * cell_pixel(index, col, row) + 3] != 0
}

/// Whether a glyph's art marks `(col, row)`: the row's text has a `#` there.
pub open spec fn art_marks(art: [&'static str; 8], col: int, row: int) -> bool {
    let bytes = art@[row].spec_bytes();
    col < bytes.len() && bytes[col] == 35u8
}

/// Whether glyph `index` has any ink in its cell.
pub open spec fn has_ink(page: Seq<u8>, index: int) -> bool {
    exists|col: int, row: int| 0 <= col < 5 && 0 <= row < 8 && #[trigger] inked(page, index, col, row)
}

/// A pixel of a glyph's cell lies in that glyph's cell, and on the page.
proof fn lemma_cell(index: int, col: int, row: int)
    requires
        0 <= index < 95,
        0 <= col < 5,
        0 <= row < 8,
    ensures
        cell_of(cell_pixel(index, col, row)) == index,
        0 <= cell_pixel(index, col, row) < 475 * 8,
{
    let q = cell_pixel(index, col, row);
    assert(q % 475 == index * 5 + col) by (nonlinear_arith)
        requires
            q == row * 475 + index * 5 + col,
            0 <= index < 95,
            0 <= col < 5,
            0 <= row < 8,
    ;
    assert((index * 5 + col) / 5 == index) by (nonlinear_arith)
        requires
            0 <= col < 5,
            0 <= index,
    ;
}

/// The RGBA page every glyph is drawn on: white, alpha 0 or 255.
pub open spec fn white_page(page: Seq<u8>) -> bool {
    &&& page.len() == 475 * 8 * 4
    &&& forall|q: int| 0 <= q < 475 * 8 ==> #[trigger] page[4 * q] == 0xff && page[4 * q + 1] == 0xff && page[4 * q + 2] == 0xff
    &&& forall|q: int| 0 <= q < 475 * 8 ==> #[trigger] page[4 * q + 3] == 0 || page[4 * q + 3] == 0xff
}

/// Inking one pixel keeps the page white with two-valued alpha, and changes
/// no other pixel's alpha.
proof fn lemma_set_alpha(page: Seq<u8>, q: int)
    requires
        white_page(page),
        0 <= q < 475 * 8,
    ensures
        white_page(page.update(4 * q + 3, 0xff)),
        forall|q2: int| 0 <= q2 < 475 * 8 && q2 != q ==> #[trigger] page.update(4 * q + 3, 0xff)[4 * q2 + 3] == page[4 * q2 + 3],
        page.update(4 * q + 3, 0xff)[4 * q + 3] == 0xff,
{
    let u = page.update(4 * q + 3, 0xff);
    assert forall|q2: int| 0 <= q2 < 475 * 8 implies #[trigger] u[4 * q2] == 0xff && u[4 * q2 + 1] == 0xff && u[4 * q2 + 2] == 0xff by {
        assert(page[4 * q2] == 0xff && page[4 * q2 + 1] == 0xff && page[4 * q2 + 2] == 0xff);
    }
    assert forall|q2: int| 0 <= q2 < 475 * 8 implies #[trigger] u[4 * q2 + 3] == 0 || u[4 * q2 + 3] == 0xff by {
        assert(page[4 * q2 + 3] == 0 || page[4 * q2 + 3] == 0xff);
    }
}

/// Two pages with the same ink in a glyph's cell agree on whether it has ink.
proof fn lemma_has_ink_same(a: Seq<u8>, b: Seq<u8>, k: int)
    requires
        forall|col: int, row: int| 0 <= col < 5 && 0 <= row < 8 ==> #[trigger] inked(a, k, col, row) == inked(b, k, col, row),
    ensures
        has_ink(a, k) == has_ink(b, k),
{
    if has_ink(a, k) {
        let (c, r) = choose|col: int, row: int| 0 <= col < 5 && 0 <= row < 8 && #[trigger] inked(a, k, col, row);
        assert(inked(b, k, c, r));
    }
    if has_ink(b, k) {
        let (c, r) = choose|col: int, row: int| 0 <= col < 5 && 0 <= row < 8 && #[trigger] inked(b, k, col, row);
        assert(inked(a, k, c, r));
    }
}

/// Ink glyph `index` from its eight rows of art onto the page, and say
/// whether any pixel was inked. Nothing outside its cell changes.
fn draw_glyph(pixels: &mut Vec<u8>, art: [&'static str; 8], index: usize) -> (ink: bool)
    requires
        index < 95,
        white_page(old(pixels)@),
        forall|col: int, row: int| 0 <= col < 5 && 0 <= row < 8 ==> !#[trigger] inked(old(pixels)@, index as int, col, row),
    ensures
        white_page(final(pixels)@),
        forall|q: int| 0 <= q < 475 * 8 && cell_of(q) != index ==> #[trigger] final(pixels)@[4 * q + 3] == old(pixels)@[4 * q + 3],
        ink == has_ink(final(pixels)@, index as int),
        forall|col: int, row: int|
            0 <= col < 5 && 0 <= row < 8 ==> #[trigger] inked(final(pixels)@, index as int, col, row) == art_marks(art, col, row),
{
    let ghost start = pixels@;
    let mut ink = false;
    let mut row: usize = 0;
    while row < 8
        invariant
            index < 95,
            row <= 8,
            white_page(pixels@),
            forall|q: int| 0 <= q < 475 * 8 && cell_of(q) != index ==> #[trigger] pixels@[4 * q + 3] == start[4 * q + 3],
            forall|col: int, r: int| 0 <= col < 5 && row <= r < 8 ==> !#[trigger] inked(pixels@, index as int, col, r),
            ink == exists|col: int, r: int| 0 <= col < 5 && 0 <= r < row && #[trigger] inked(pixels@, index as int, col, r),
            forall|c: int, r: int| 0 <= c < 5 && 0 <= r < row ==> #[trigger] inked(pixels@, index as int, c, r) == art_marks(art, c, r),
        decreases 8 - row,
    {
        let bits = art[row].as_bytes();
        let mut col: usize = 0;
        while col < 5
            invariant
                index < 95,
                row < 8,
                col <= 5,
                white_page(pixels@),
                forall|q: int| 0 <= q < 475 * 8 && cell_of(q) != index ==> #[trigger] pixels@[4 * q + 3] == start[4 * q + 3],
                forall|c: int, r: int| 0 <= c < 5 && row < r < 8 ==> !#[trigger] inked(pixels@, index as int, c, r),
                forall|c: int| col <= c < 5 ==> !#[trigger] inked(pixels@, index as int, c, row as int),
                ink == ((exists|c: int, r: int| 0 <= c < 5 && 0 <= r < row && #[trigger] inked(pixels@, index as int, c, r))
                    || (exists|c: int| 0 <= c < col && #[trigger] inked(pixels@, index as int, c, row as int))),
                bits@ == art@[row as int].spec_bytes(),
                forall|c: int, r: int| 0 <= c < 5 && 0 <= r < row ==> #[trigger] inked(pixels@, index as int, c, r) == art_marks(art, c, r),
                forall|c: int| 0 <= c < col ==> #[trigger] inked(pixels@, index as int, c, row as int) == art_marks(art, c, row as int),
            decreases 5 - col,
        {
            if col < bits.len() && bits[col] == 35 {
                let q = row * 475 + index * 5 + col;
                proof {
                    lemma_cell(index as int, col as int, row as int);
                    assert forall|q2: int| 0 <= q2 < 475 * 8 && cell_of(q2) != index implies 4 * q2 + 3 != 4 * q + 3 by {}
                    assert forall|c: int, r: int| 0 <= c < 5 && 0 <= r < 8 && (c != col || r != row) implies cell_pixel(index as int, c, r) != q by {}
                }
                let ghost prev = pixels@;
                proof {
                    lemma_set_alpha(prev, q as int);
                }
                pixels.set(4 * q + 3, 0xff);
                ink = true;
                proof {
                    assert(pixels@ == prev.update(4 * q + 3, 0xff));
                    assert(inked(pixels@, index as int, col as int, row as int));
                    assert forall|c: int, r: int| 0 <= c < 5 && 0 <= r < 8 && (c != col || r != row) implies #[trigger] inked(pixels@, index as int, c, r) == inked(prev, index as int, c, r) by {
                        lemma_cell(index as int, c, r);
                    }
                }
            }
            col = col + 1;
        }
        proof {
            assert(col == 5);
            let a = exists|c: int, r: int| 0 <= c < 5 && 0 <= r < row && #[trigger] inked(pixels@, index as int, c, r);
            let b = exists|c: int| 0 <= c < col && #[trigger] inked(pixels@, index as int, c, row as int);
            assert(ink == (a || b));
            let goal = exists|c: int, r: int| 0 <= c < 5 && 0 <= r < row + 1 && #[trigger] inked(pixels@, index as int, c, r);
            if exists|c: int| 0 <= c < 5 && #[trigger] inked(pixels@, index as int, c, row as int) {
                let c = choose|c: int| 0 <= c < 5 && #[trigger] inked(pixels@, index as int, c, row as int);
                assert(inked(pixels@, index as int, c, row as int));
                assert(goal);
            }
            if exists|c: int, r: int| 0 <= c < 5 && 0 <= r < row && #[trigger] inked(pixels@, index as int, c, r) {
                let (c, r) = choose|c: int, r: int| 0 <= c < 5 && 0 <= r < row && #[trigger] inked(pixels@, index as int, c, r);
                assert(inked(pixels@, index as int, c, r));
                assert(goal);
            }
            if goal {
                let (c, r) = choose|c: int, r: int| 0 <= c < 5 && 0 <= r < row + 1 && #[trigger] inked(pixels@, index as int, c, r);
                if r < row {
                    assert(inked(pixels@, index as int, c, r));
                } else {
                    assert(inked(pixels@, index as int, c, row as int));
                }
            }
            assert(ink == goal);
        }
        row = row + 1;
    }
    proof {
        if has_ink(pixels@, index as int) {
            let (c, r) = choose|col: int, row: int| 0 <= col < 5 && 0 <= row < 8 && #[trigger] inked(pixels@, index as int, col, row);
            assert(inked(pixels@, index as int, c, r));
        }
    }
    ink
}

/// The built-in font and its glyph page, ready to pack like any other asset.
///
/// One row of glyphs, character `c` at column `5 * (c - 32)`. The page is
/// white with the coverage in the alpha channel, so a label's tint colours it
/// the way it colours an imported font. A space has an advance and no ink.
pub fn builtin() -> (r: (Font, Image))
    ensures
        r.1.name@ == "builtin"@,
        r.1.width == 475,
        r.1.height == 8,
        white_page(r.1.pixels@),
        r.0.size == 8,
        r.0.line_height == 9,
        r.0.ascent == 7,
        r.0.descent == 1,
        forall|c: char| #[trigger] r.0.glyphs@.contains_key(c) <==> 32 <= (c as u32) < 127,
        forall|c: char| 32 <= (c as u32) < 127 ==> glyph_facts(#[trigger] r.0.glyphs@[c], (c as u32) - 32, r.1.pixels@),
        forall|i: int, col: int, row: int|
            0 <= i < 95 && 0 <= col < 5 && 0 <= row < 8 ==> #[trigger] inked(r.1.pixels@, i, col, row) == art_marks(GLYPH_ART[i], col, row),
{
    let mut pixels: Vec<u8> = Vec::new();
    let mut p: usize = 0;
    while p < 475 * 8
        invariant
            p <= 475 * 8,
            pixels@ == blank_page(4 * p as nat),
        decreases 475 * 8 - p,
    {
        pixels.push(0xff);
        pixels.push(0xff);
        pixels.push(0xff);
        pixels.push(0);
        proof {
            assert(pixels@ =~= blank_page(4 * (p + 1) as nat));
        }
        p = p + 1;
    }
    proof {
        assert forall|q: int| 0 <= q < 475 * 8 implies #[trigger] pixels@[4 * q + 3] == 0 by {}
        assert forall|q: int| 0 <= q < 475 * 8 implies #[trigger] pixels@[4 * q] == 0xff && pixels@[4 * q + 1] == 0xff && pixels@[4 * q + 2] == 0xff by {}
        assert(white_page(pixels@));
    }
    let mut glyphs = glyph_table();
    let mut index: usize = 0;
    while index < 95
        invariant
            index <= 95,
            white_page(pixels@),
            forall|q: int| 0 <= q < 475 * 8 && cell_of(q) >= index ==> #[trigger] pixels@[4 * q + 3] == 0,
            forall|c: char| #[trigger] glyphs@.contains_key(c) <==> 32 <= (c as u32) < 32 + index,
            forall|c: char| 32 <= (c as u32) < 32 + index ==> glyph_facts(#[trigger] glyphs@[c], (c as u32) - 32, pixels@),
            forall|i: int, col: int, row: int|
                0 <= i < index && 0 <= col < 5 && 0 <= row < 8 ==> #[trigger] inked(pixels@, i, col, row) == art_marks(GLYPH_ART[i], col, row),
        decreases 95 - index,
    {
        proof {
            assert forall|col: int, row: int| 0 <= col < 5 && 0 <= row < 8 implies !#[trigger] inked(pixels@, index as int, col, row) by {
                lemma_cell(index as int, col, row);
            }
        }
        let ghost before = pixels@;
        let ink = draw_glyph(&mut pixels, GLYPH_ART[index], index);
        proof {
            assert forall|c: char| 32 <= (c as u32) < 32 + index implies glyph_facts(#[trigger] glyphs@[c], (c as u32) - 32, pixels@) by {
                let k = (c as u32) - 32;
                assert(glyph_facts(glyphs@[c], k, before));
                assert forall|col: int, row: int| 0 <= col < 5 && 0 <= row < 8 implies #[trigger] inked(pixels@, k as int, col, row) == inked(before, k as int, col, row) by {
                    lemma_cell(k as int, col, row);
                }
                lemma_has_ink_same(pixels@, before, k as int);
            }
            assert forall|i: int, col: int, row: int|
                0 <= i < index + 1 && 0 <= col < 5 && 0 <= row < 8 implies #[trigger] inked(pixels@, i, col, row) == art_marks(GLYPH_ART[i], col, row) by {
                if i < index {
                    lemma_cell(i, col, row);
                    assert(inked(before, i, col, row) == art_marks(GLYPH_ART[i], col, row));
                }
            }
        }
        let c = crate::assets::meta::char_from_ascii((32 + index) as u8);
        let g = Glyph {
            x: 5 * index as u32,
            y: 0,
            width: if ink { 5 } else { 0 },
            height: if ink { 8 } else { 0 },
            bearing_x: 0,
            bearing_y: -7,
            advance: 6,
        };
        let ghost old_glyphs = glyphs@;
        glyph_store(&mut glyphs, c, g);
        proof {
            crate::rng::lemma_char_code(c);
            assert forall|d: char| #[trigger] glyphs@.contains_key(d) <==> 32 <= (d as u32) < 32 + index + 1 by {
                crate::rng::lemma_char_code(d);
            }
            assert forall|d: char| 32 <= (d as u32) < 32 + index + 1 implies glyph_facts(#[trigger] glyphs@[d], (d as u32) - 32, pixels@) by {
                crate::rng::lemma_char_code(d);
                if d != c {
                    assert(glyphs@[d] == old_glyphs[d]);
                }
            }
        }
        index = index + 1;
    }
    let font = Font { size: 8, line_height: 9, ascent: 7, descent: 1, glyphs };
    (font, Image { name: crate::text::string_from(BUILTIN_FONT), width: 475, height: 8, pixels })
}

/// `n` bytes of white pixels with no ink.
pub open spec fn blank_page(n: nat) -> Seq<u8> {
    Seq::new(n, |i: int| if i % 4 == 3 { 0u8 } else { 0xffu8 })
}

/// What the built-in font says of glyph `index`: where it is, how it
/// advances, and that it has a box exactly when its cell has ink.
pub open spec fn glyph_facts(g: Glyph, index: int, page: Seq<u8>) -> bool {
    &&& g.x == 5 * index
    &&& g.y == 0
    &&& g.bearing_x == 0
    &&& g.bearing_y == -7
    &&& g.advance == 6
    &&& (g.width == 5 && g.height == 8) == has_ink(page, index)
    &&& (g.width == 0 && g.height == 0) == !has_ink(page, index)
}

} // verus!
