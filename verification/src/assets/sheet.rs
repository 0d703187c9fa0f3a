//! Atlas packing.
//!
//! Sprites batch by texture, so putting everything in one image is what turns
//! a thousand sprites into one draw call. This runs at import, and the result
//! is cached: startup uploads a sheet rather than computing one.
//!
//! Shelf packing: tallest first, laid left to right in rows. Not the tightest
//! algorithm, but simple and — sorted by height and then by name — completely
//! deterministic, which matters because a golden image of a differently
//! packed atlas is a different image.
use std::collections::BTreeMap;
use vstd::prelude::*;

use crate::assets::image::{blit_spec, Image};
use crate::rng::name_less;

verus! {

broadcast use vstd::seq_lib::group_to_multiset_ensures;

/// Space left between packed images.
pub const PADDING: u32 = 1;

/// Where one image ended up on the sheet.
#[derive(Clone, Copy, PartialEq, Eq, Debug)]
pub struct Placement {
    /// Left edge, in pixels.
    pub x: u32,
    /// Top edge, in pixels.
    pub y: u32,
    /// Width in pixels.
    pub width: u32,
    /// Height in pixels.
    pub height: u32,
    /// How many animation frames the image holds, side by side.
    pub frames: u32,
}

/// Placements by asset name.
pub type PlacementMap = BTreeMap<String, Placement>;

/// One packed image and the map of what is where in it.
#[derive(Clone, PartialEq, Eq, Debug)]
pub struct Sheet {
    /// Width in pixels.
    pub width: u32,
    /// Height in pixels.
    pub height: u32,
    /// RGBA pixel data.
    pub pixels: Vec<u8>,
    /// Placement by asset name, in name order.
    pub placements: PlacementMap,
}

/// An image to pack, and how many frames it holds.
pub struct Framed {
    /// The pixels.
    pub image: Image,
    /// Frames side by side within it. One for a still.
    pub frames: u32,
}

/// What a placement map holds: each name's placement.
pub uninterp spec fn placements_of(m: PlacementMap) -> Map<Seq<char>, Placement>;

/// `BTreeMap::new` for placements: empty.
#[verifier::external_body]
fn placements_new() -> (m: PlacementMap)
    ensures
        placements_of(m).dom() == Set::<Seq<char>>::empty(),
{
    BTreeMap::new()
}

/// `BTreeMap::insert` for placements: `name` now maps to `p`, and no other
/// name changes.
#[verifier::external_body]
fn placements_insert(m: &mut PlacementMap, name: String, p: Placement)
    ensures
        placements_of(*final(m)) == placements_of(*old(m)).insert(name@, p),
{
    m.insert(name, p);
}

/// `BTreeMap::get` for placements: the placement recorded under `name`.
#[verifier::external_body]
pub(crate) fn placements_get<'a>(m: &'a PlacementMap, name: &str) -> (r: Option<&'a Placement>)
    ensures
        r == (if placements_of(*m).contains_key(name@) { Some(&placements_of(*m)[name@]) } else { None }),
{
    m.get(name)
}

/// `BTreeMap::len` for placements: how many names there are.
#[verifier::external_body]
pub(crate) fn placements_len(m: &PlacementMap) -> (r: usize)
    ensures
        r == placements_of(*m).dom().len(),
{
    m.len()
}

/// `a` packs before `b`: taller first, then by name.
pub open spec fn packs_before(a: Image, b: Image) -> bool {
    a.height > b.height || (a.height == b.height && !name_less(b.name@, a.name@))
}

/// The images are in packing order.
pub open spec fn in_packing_order(s: Seq<Framed>) -> bool {
    forall|i: int, j: int| 0 <= i < j < s.len() ==> packs_before(#[trigger] s[i].image, #[trigger] s[j].image)
}

/// The shelf layout after the first `n` images: the cursor `(x, y)`, the
/// height of the current shelf, and where image `n - 1` went.
pub open spec fn shelf(widths: Seq<int>, heights: Seq<int>, width: int, n: int) -> (int, int, int, int, int)
    decreases n,
{
    if n <= 0 {
        (1, 1, 0, 1, 1)
    } else {
        let (x0, y0, sh0, _, _) = shelf(widths, heights, width, n - 1);
        let w = widths[n - 1];
        let h = heights[n - 1];
        let (px, py, sh) = if x0 + w + 1 > width && x0 > 1 {
            (1, y0 + sh0 + 1, 0)
        } else {
            (x0, y0, sh0)
        };
        (px + w + 1, py, if sh > h { sh } else { h }, px, py)
    }
}

/// Whether every intermediate of the layout fits in 32 bits.
pub open spec fn shelf_fits(widths: Seq<int>, heights: Seq<int>, width: int, n: int) -> bool
    decreases n,
{
    n <= 0 || {
        let (x0, y0, sh0, _, _) = shelf(widths, heights, width, n - 1);
        &&& shelf_fits(widths, heights, width, n - 1)
        &&& x0 + widths[n - 1] + 1 <= u32::MAX
        &&& y0 + sh0 + 1 <= u32::MAX
    }
}

/// The widths of the images.
pub open spec fn widths_of(s: Seq<Framed>) -> Seq<int> {
    Seq::new(s.len(), |i: int| s[i].image.width as int)
}

/// The heights of the images.
pub open spec fn heights_of(s: Seq<Framed>) -> Seq<int> {
    Seq::new(s.len(), |i: int| s[i].image.height as int)
}

/// The widest image plus padding on both sides, or 1 for none.
pub open spec fn widest_padded(widths: Seq<int>) -> int
    decreases widths.len(),
{
    if widths.len() == 0 {
        1
    } else {
        let w = widths.last() + 2;
        let rest = widest_padded(widths.drop_last());
        if widths.len() == 1 || w > rest {
            w
        } else {
            rest
        }
    }
}

/// The right edge used by the first `n` images, plus padding, or 1 for none.
pub open spec fn used_width(widths: Seq<int>, heights: Seq<int>, width: int, n: int) -> int
    decreases n,
{
    if n <= 0 {
        1
    } else {
        let (_, _, _, px, _) = shelf(widths, heights, width, n);
        let e = px + widths[n - 1] + 1;
        let rest = used_width(widths, heights, width, n - 1);
        if n == 1 || e > rest {
            e
        } else {
            rest
        }
    }
}

/// Where image `i` goes: the top-left corner the layout gives it.
pub open spec fn spot(widths: Seq<int>, heights: Seq<int>, width: int, i: int) -> (int, int) {
    let (_, _, _, px, py) = shelf(widths, heights, width, i + 1);
    (px, py)
}

/// Image `i` sits at `positions[i]`, inside `right` and `bottom`.
pub open spec fn sits(widths: Seq<int>, heights: Seq<int>, width: int, i: int, at: (u32, u32), right: int, bottom: int) -> bool {
    let p = spot(widths, heights, width, i);
    &&& 1 <= p.0
    &&& 1 <= p.1
    &&& p.0 + widths[i] + 1 <= right
    &&& p.1 + heights[i] <= bottom
    &&& at.0 == p.0
    &&& at.1 == p.1
}

/// Taller first, then by name: whether `a` may go before `b`.
fn packs_before_exec(a: &Image, b: &Image) -> (r: bool)
    ensures
        r == packs_before(*a, *b),
{
    if a.height != b.height {
        return a.height > b.height;
    }
    let an = crate::text::chars_of(a.name.as_str());
    let bn = crate::text::chars_of(b.name.as_str());
    !crate::rng::name_less_exec(bn.as_slice(), an.as_slice())
}

/// Packing order is total: of two images, one may go before the other.
proof fn lemma_packs_before_total(a: Image, b: Image)
    ensures
        packs_before(a, b) || packs_before(b, a),
{
    if !packs_before(a, b) && a.height == b.height {
        assert(name_less(b.name@, a.name@));
        crate::rng::lemma_name_less_asymmetric(b.name@, a.name@);
    }
}

/// Packing order is transitive.
proof fn lemma_packs_before_transitive(a: Image, b: Image, c: Image)
    requires
        packs_before(a, b),
        packs_before(b, c),
    ensures
        packs_before(a, c),
{
    if a.height == b.height && b.height == c.height {
        if name_less(c.name@, a.name@) {
            // c < a, and a <= b (not b < a): then c < b, contradicting b <= c
            // unless b < c ... by totality of names.
            if b.name@ == a.name@ {
            } else if name_less(a.name@, b.name@) {
                crate::rng::lemma_name_less_transitive(c.name@, a.name@, b.name@);
            } else {
                crate::rng::lemma_name_less_total(a.name@, b.name@);
            }
        }
    }
}

/// Sort images into packing order: taller first, then by name, and stable.
fn sort_for_packing(framed: Vec<Framed>) -> (out: Vec<Framed>)
    ensures
        out@.to_multiset() =~= framed@.to_multiset(),
        in_packing_order(out@),
{
    let mut input = framed;
    let ghost all = input@;
    let mut out: Vec<Framed> = Vec::new();
    while input.len() > 0
        invariant
            out@.to_multiset().add(input@.to_multiset()) =~= all.to_multiset(),
            in_packing_order(out@),
        decreases input@.len(),
    {
        let ghost before_in = input@;
        let item = input.remove(0);
        proof {
            assert(before_in[0] == item);
            assert(before_in.remove(0) =~= input@);
            assert(before_in.remove(0).to_multiset() =~= before_in.to_multiset().remove(before_in[0]));
            assert(input@.to_multiset() =~= before_in.to_multiset().remove(item));
            assert(before_in.contains(item));
            assert(before_in.to_multiset().count(item) > 0);
            assert(before_in.to_multiset() =~= input@.to_multiset().insert(item));
        }
        let mut j: usize = 0;
        while j < out.len() && packs_before_exec(&out[j].image, &item.image)
            invariant
                j <= out@.len(),
                forall|k: int| 0 <= k < j ==> packs_before(#[trigger] out@[k].image, item.image),
            decreases out@.len() - j,
        {
            j = j + 1;
        }
        let ghost prev = out@;
        proof {
            if j < prev.len() {
                assert(!packs_before(prev[j as int].image, item.image));
                lemma_packs_before_total(prev[j as int].image, item.image);
            }
        }
        let ghost it = item;
        out.insert(j, item);
        proof {
            assert(out@ == prev.insert(j as int, it));
            assert(out@.to_multiset() =~= prev.to_multiset().insert(it));
            assert(out@.to_multiset().add(input@.to_multiset()) =~= all.to_multiset());
            assert forall|a: int, b: int| 0 <= a < b < out@.len() implies packs_before(#[trigger] out@[a].image, #[trigger] out@[b].image) by {
                if a < j && b == j {
                } else if a == j && b > j {
                    assert(out@[b] == prev[b - 1]);
                    if b - 1 > j {
                        assert(packs_before(prev[j as int].image, prev[b - 1].image));
                        lemma_packs_before_transitive(item.image, prev[j as int].image, prev[b - 1].image);
                    }
                } else if a < j && b > j {
                    assert(out@[b] == prev[b - 1]);
                } else if a > j {
                    assert(out@[a] == prev[a - 1]);
                    assert(out@[b] == prev[b - 1]);
                }
            }
        }
    }
    out
}

/// The sheet for images in packing order at positions from the layout, all
/// blitted in order onto a blank page `width` wide.
pub open spec fn blits(page: Seq<u8>, width: int, order: Seq<Framed>, widths: Seq<int>, heights: Seq<int>, shelf_width: int, n: int) -> Seq<u8>
    decreases n,
{
    if n <= 0 {
        page
    } else {
        let before = blits(page, width, order, widths, heights, shelf_width, n - 1);
        let (_, _, _, px, py) = shelf(widths, heights, shelf_width, n);
        let img = order[n - 1].image;
        blit_spec(before, width, img.pixels@, img.width as int, px, py, img.height as int)
    }
}

/// The placements recorded for the first `n` images, by name.
pub open spec fn placed(order: Seq<Framed>, widths: Seq<int>, heights: Seq<int>, shelf_width: int, n: int) -> Map<Seq<char>, Placement>
    decreases n,
{
    if n <= 0 {
        Map::empty()
    } else {
        let (_, _, _, px, py) = shelf(widths, heights, shelf_width, n);
        let f = order[n - 1];
        placed(order, widths, heights, shelf_width, n - 1).insert(
            f.image.name@,
            Placement {
                x: px as u32,
                y: py as u32,
                width: f.image.width,
                height: f.image.height,
                frames: if f.frames > 1 { f.frames } else { 1 },
            },
        )
    }
}

/// What packing `order` gives: the sheet's size, pixels and placements.
pub open spec fn packed(order: Seq<Framed>, max_width: int, sheet: Sheet) -> bool {
    let widths = widths_of(order);
    let heights = heights_of(order);
    let n = order.len() as int;
    let shelf_width = if max_width > widest_padded(widths) { max_width } else { widest_padded(widths) };
    let (_, y, sh, _, _) = shelf(widths, heights, shelf_width, n);
    let height = if y + sh + 1 > 1 { y + sh + 1 } else { 1 };
    let used = used_width(widths, heights, shelf_width, n);
    let clipped = if used < shelf_width { used } else { shelf_width };
    let width = if clipped > 1 { clipped } else { 1 };
    &&& sheet.width == width
    &&& sheet.height == height
    &&& sheet.pixels@ == blits(Seq::new((width * height * 4) as nat, |i: int| 0u8), width, order, widths, heights, shelf_width, n)
    &&& placements_of(sheet.placements) == placed(order, widths, heights, shelf_width, n)
}

/// With `n` images, the sizes of `a` and `b` leave room for `n` of the
/// wider on one row and `n` of the taller in one column, for the page that
/// would make, and for `a`'s own pixels.
pub open spec fn fits_pair(n: int, a: Image, b: Image) -> bool {
    let w = n * (a.width + 2) + 2;
    let h = n * (b.height + 2) + 2;
    &&& w <= u32::MAX
    &&& h <= u32::MAX
    &&& (h + 1) * w * 4 + 4 <= usize::MAX
    &&& a.height * a.width * 4 <= usize::MAX
}

/// Packing stays inside the machine's integers: every pair of images fits.
pub open spec fn pack_fits(s: Seq<Framed>) -> bool {
    forall|i: int, j: int|
        #![trigger s[i], s[j]]
        0 <= i < s.len() && 0 <= j < s.len() ==> fits_pair(s.len() as int, s[i].image, s[j].image)
}

/// Packing bounds hold of any reordering of the same images.
proof fn lemma_pack_fits_reordered(a: Seq<Framed>, b: Seq<Framed>)
    requires
        a.to_multiset() =~= b.to_multiset(),
        pack_fits(a),
    ensures
        pack_fits(b),
{
    assert(a.len() == b.len()) by {
        assert(a.to_multiset().len() == b.to_multiset().len());
    }
    assert forall|i: int, j: int| 0 <= i < b.len() && 0 <= j < b.len() implies fits_pair(
        b.len() as int,
        #[trigger] b[i].image,
        #[trigger] b[j].image,
    ) by {
        assert(b.contains(b[i]));
        assert(b.to_multiset().count(b[i]) > 0);
        assert(a.to_multiset().count(b[i]) > 0);
        assert(a.contains(b[i]));
        let i2 = choose|k: int| 0 <= k < a.len() && a[k] == b[i];
        assert(b.contains(b[j]));
        assert(b.to_multiset().count(b[j]) > 0);
        assert(a.to_multiset().count(b[j]) > 0);
        assert(a.contains(b[j]));
        let j2 = choose|k: int| 0 <= k < a.len() && a[k] == b[j];
        assert(fits_pair(a.len() as int, a[i2].image, a[j2].image));
    }
}

/// Two boxes share no pixel.
pub open spec fn boxes_apart(a: Placement, b: Placement) -> bool {
    a.x + a.width <= b.x || b.x + b.width <= a.x || a.y + a.height <= b.y || b.y + b.height <= a.y
}

/// Nothing on the sheet lies on top of anything else, and everything lies
/// inside it.
pub open spec fn laid_apart(sheet: Sheet) -> bool {
    let m = placements_of(sheet.placements);
    &&& forall|a: Seq<char>, b: Seq<char>|
        a != b && #[trigger] m.contains_key(a) && #[trigger] m.contains_key(b) ==> boxes_apart(m[a], m[b])
    &&& forall|a: Seq<char>|
        #[trigger] m.contains_key(a) ==> m[a].x + m[a].width <= sheet.width && m[a].y + m[a].height <= sheet.height
}

/// No image has a negative size.
pub open spec fn sizes_nonnegative(widths: Seq<int>, heights: Seq<int>) -> bool {
    &&& widths.len() == heights.len()
    &&& forall|t: int| 0 <= t < widths.len() ==> 0 <= #[trigger] widths[t] && 0 <= heights[t]
}

/// The current shelf is never of negative height.
proof fn lemma_shelf_height(widths: Seq<int>, heights: Seq<int>, sw: int, k: int)
    requires
        sizes_nonnegative(widths, heights),
        0 <= k <= widths.len(),
    ensures
        shelf(widths, heights, sw, k).2 >= 0,
    decreases k,
{
    if k > 0 {
        lemma_shelf_height(widths, heights, sw, k - 1);
    }
}

/// After `k` images, each of them is either on the current shelf, left of
/// the cursor and no taller than the shelf, or wholly above the shelf.
proof fn lemma_shelf_cursor(widths: Seq<int>, heights: Seq<int>, sw: int, k: int, i: int)
    requires
        sizes_nonnegative(widths, heights),
        0 <= i < k <= widths.len(),
    ensures
        ({
            let (x, y, sh, _, _) = shelf(widths, heights, sw, k);
            let (xi, yi) = spot(widths, heights, sw, i);
            (yi == y && xi + widths[i] + 1 <= x && heights[i] <= sh) || yi + heights[i] + 1 <= y
        }),
    decreases k,
{
    lemma_shelf_height(widths, heights, sw, k - 1);
    if i < k - 1 {
        lemma_shelf_cursor(widths, heights, sw, k - 1, i);
    }
}

/// Of two images, the later one is to the right on the same shelf or on a
/// lower shelf, a padding pixel clear.
proof fn lemma_spots_apart(widths: Seq<int>, heights: Seq<int>, sw: int, i: int, j: int)
    requires
        sizes_nonnegative(widths, heights),
        0 <= i < j < widths.len(),
    ensures
        ({
            let (xi, yi) = spot(widths, heights, sw, i);
            let (xj, yj) = spot(widths, heights, sw, j);
            (yi == yj && xi + widths[i] + 1 <= xj) || yi + heights[i] + 1 <= yj
        }),
{
    lemma_shelf_cursor(widths, heights, sw, j, i);
    lemma_shelf_height(widths, heights, sw, j);
}

/// What the placements record under a name is the placement of some image
/// of that name.
proof fn lemma_placed_entry(order: Seq<Framed>, widths: Seq<int>, heights: Seq<int>, sw: int, n: int, name: Seq<char>)
    requires
        0 <= n <= order.len(),
        placed(order, widths, heights, sw, n).contains_key(name),
    ensures
        exists|i: int| 0 <= i < n && (#[trigger] order[i]).image.name@ == name && placed(order, widths, heights, sw, n)[name] == (Placement {
            x: spot(widths, heights, sw, i).0 as u32,
            y: spot(widths, heights, sw, i).1 as u32,
            width: order[i].image.width,
            height: order[i].image.height,
            frames: if order[i].frames > 1 { order[i].frames } else { 1 },
        }),
    decreases n,
{
    if n > 0 && order[n - 1].image.name@ != name {
        lemma_placed_entry(order, widths, heights, sw, n - 1, name);
        let i = choose|i: int| 0 <= i < n - 1 && (#[trigger] order[i]).image.name@ == name && placed(order, widths, heights, sw, n - 1)[name] == (Placement {
            x: spot(widths, heights, sw, i).0 as u32,
            y: spot(widths, heights, sw, i).1 as u32,
            width: order[i].image.width,
            height: order[i].image.height,
            frames: if order[i].frames > 1 { order[i].frames } else { 1 },
        });
        assert(order[i].image.name@ == name);
    } else if n > 0 {
        assert(order[n - 1].image.name@ == name);
    }
}

/// Laid out as packing lays them, with every spot inside the sheet, the
/// images are apart.
proof fn lemma_laid_apart(order: Seq<Framed>, max_width: int, sheet: Sheet, sw: int, positions: Seq<(u32, u32)>)
    requires
        packed(order, max_width, sheet),
        sw == (if max_width > widest_padded(widths_of(order)) { max_width } else { widest_padded(widths_of(order)) }),
        positions.len() == order.len(),
        forall|i: int|
            0 <= i < order.len() ==> sits(widths_of(order), heights_of(order), sw, i, #[trigger] positions[i], sheet.width as int, sheet.height as int),
    ensures
        laid_apart(sheet),
{
    let widths = widths_of(order);
    let heights = heights_of(order);
    let n = order.len() as int;
    let m = placements_of(sheet.placements);
    assert(m == placed(order, widths, heights, sw, n));
    assert(sizes_nonnegative(widths, heights));
    assert forall|a: Seq<char>| #[trigger] m.contains_key(a) implies m[a].x + m[a].width <= sheet.width && m[a].y + m[a].height <= sheet.height by {
        lemma_placed_entry(order, widths, heights, sw, n, a);
        let i = choose|i: int| 0 <= i < n && (#[trigger] order[i]).image.name@ == a && m[a] == (Placement {
            x: spot(widths, heights, sw, i).0 as u32,
            y: spot(widths, heights, sw, i).1 as u32,
            width: order[i].image.width,
            height: order[i].image.height,
            frames: if order[i].frames > 1 { order[i].frames } else { 1 },
        });
        assert(sits(widths, heights, sw, i, positions[i], sheet.width as int, sheet.height as int));
    }
    assert forall|a: Seq<char>, b: Seq<char>|
        a != b && #[trigger] m.contains_key(a) && #[trigger] m.contains_key(b) implies boxes_apart(m[a], m[b]) by {
        lemma_placed_entry(order, widths, heights, sw, n, a);
        lemma_placed_entry(order, widths, heights, sw, n, b);
        let i = choose|i: int| 0 <= i < n && (#[trigger] order[i]).image.name@ == a && m[a] == (Placement {
            x: spot(widths, heights, sw, i).0 as u32,
            y: spot(widths, heights, sw, i).1 as u32,
            width: order[i].image.width,
            height: order[i].image.height,
            frames: if order[i].frames > 1 { order[i].frames } else { 1 },
        });
        let j = choose|j: int| 0 <= j < n && (#[trigger] order[j]).image.name@ == b && m[b] == (Placement {
            x: spot(widths, heights, sw, j).0 as u32,
            y: spot(widths, heights, sw, j).1 as u32,
            width: order[j].image.width,
            height: order[j].image.height,
            frames: if order[j].frames > 1 { order[j].frames } else { 1 },
        });
        assert(sits(widths, heights, sw, i, positions[i], sheet.width as int, sheet.height as int));
        assert(sits(widths, heights, sw, j, positions[j], sheet.width as int, sheet.height as int));
        if i < j {
            lemma_spots_apart(widths, heights, sw, i, j);
        } else {
            lemma_spots_apart(widths, heights, sw, j, i);
        }
    }
}

/// No two images share a name.
pub open spec fn names_distinct(s: Seq<Framed>) -> bool {
    forall|i: int, j: int|
        0 <= i < s.len() && 0 <= j < s.len() && i != j ==> (#[trigger] s[i]).image.name@ != (#[trigger] s[j]).image.name@
}

/// Reordering images keeps their names distinct.
proof fn lemma_names_distinct_reordered(a: Seq<Framed>, b: Seq<Framed>)
    requires
        a.to_multiset() =~= b.to_multiset(),
        names_distinct(b),
    ensures
        names_distinct(a),
{
    a.to_multiset_ensures();
    b.to_multiset_ensures();
    assert forall|i: int, j: int|
        0 <= i < a.len() && 0 <= j < a.len() && i != j implies (#[trigger] a[i]).image.name@ != (#[trigger] a[j]).image.name@ by {
        if a[i].image.name@ == a[j].image.name@ {
            assert(a.contains(a[i]));
            assert(a.contains(a[j]));
            assert(a.to_multiset().count(a[i]) > 0 && a.to_multiset().count(a[j]) > 0);
            assert(b.to_multiset().count(a[i]) > 0 && b.to_multiset().count(a[j]) > 0);
            assert(b.contains(a[i]));
            assert(b.contains(a[j]));
            let p = choose|p: int| 0 <= p < b.len() && b[p] == a[i];
            let q = choose|q: int| 0 <= q < b.len() && b[q] == a[j];
            if a[i] == a[j] {
                let r = a.remove(i);
                r.to_multiset_ensures();
                assert(r[if j < i { j } else { j - 1 }] == a[j]);
                let rb = b.remove(p);
                assert(r.contains(a[i]));
                assert(r.to_multiset() =~= a.to_multiset().remove(a[i]));
                assert(r.to_multiset().count(a[i]) > 0);
                assert(a.to_multiset().count(a[i]) >= 2);
                assert(b.to_multiset().count(a[i]) >= 2);
                assert(rb.to_multiset() =~= b.to_multiset().remove(a[i]));
                rb.to_multiset_ensures();
                assert(rb.to_multiset().count(a[i]) >= 1);
                assert(rb.contains(a[i]));
                let k = choose|k: int| 0 <= k < rb.len() && rb[k] == a[i];
                let k2 = if k < p { k } else { k + 1 };
                assert(b[k2] == a[i]);
                assert(b[k2].image.name@ == b[p].image.name@);
            } else {
                assert(p != q);
                assert(b[p].image.name@ == b[q].image.name@);
            }
        }
    }
}

/// Two arrangements of the same images, both in packing order, with no two
/// of one name, are the same arrangement.
proof fn lemma_packing_order_unique(a: Seq<Framed>, b: Seq<Framed>)
    requires
        a.to_multiset() =~= b.to_multiset(),
        in_packing_order(a),
        in_packing_order(b),
        names_distinct(a),
    ensures
        a == b,
    decreases a.len(),
{
    a.to_multiset_ensures();
    b.to_multiset_ensures();
    if a.len() == 0 {
        assert(a =~= b);
    } else {
        assert(b.contains(b[0]));
        assert(a.contains(a[0]));
        assert(b.to_multiset().count(b[0]) > 0 && a.to_multiset().count(a[0]) > 0);
        assert(a.to_multiset().count(b[0]) > 0 && b.to_multiset().count(a[0]) > 0);
        assert(a.contains(b[0]));
        assert(b.contains(a[0]));
        let i = choose|i: int| 0 <= i < a.len() && a[i] == b[0];
        let j = choose|j: int| 0 <= j < b.len() && b[j] == a[0];
        if i != 0 {
            assert(packs_before(a[0].image, a[i].image));
            if j != 0 {
                assert(packs_before(b[0].image, b[j].image));
            }
            let na = a[0].image.name@;
            let nb = b[0].image.name@;
            if na != nb {
                if !crate::rng::name_less(na, nb) {
                    crate::rng::lemma_name_less_total(na, nb);
                }
                if j != 0 {
                    crate::rng::lemma_name_less_asymmetric(na, nb);
                }
            }
            assert(a[i].image.name@ == a[0].image.name@);
        }
        assert(a[0] == b[0]);
        let ra = a.remove(0);
        let rb = b.remove(0);
        assert(ra.to_multiset() =~= rb.to_multiset());
        assert(in_packing_order(ra)) by {
            assert forall|x: int, y: int| 0 <= x < y < ra.len() implies packs_before(#[trigger] ra[x].image, #[trigger] ra[y].image) by {
                assert(ra[x] == a[x + 1] && ra[y] == a[y + 1]);
            }
        }
        assert(in_packing_order(rb)) by {
            assert forall|x: int, y: int| 0 <= x < y < rb.len() implies packs_before(#[trigger] rb[x].image, #[trigger] rb[y].image) by {
                assert(rb[x] == b[x + 1] && rb[y] == b[y + 1]);
            }
        }
        assert(names_distinct(ra)) by {
            assert forall|x: int, y: int| 0 <= x < ra.len() && 0 <= y < ra.len() && x != y implies (#[trigger] ra[x]).image.name@ != (#[trigger] ra[y]).image.name@ by {
                assert(ra[x] == a[x + 1] && ra[y] == a[y + 1]);
            }
        }
        lemma_packing_order_unique(ra, rb);
        assert forall|k: int| 0 <= k < a.len() implies a[k] == b[k] by {
            if k > 0 {
                assert(a[k] == ra[k - 1] && b[k] == rb[k - 1]);
            }
        }
        assert(a =~= b);
    }
}

/// Packing is a function of the images it is given: two packings of the
/// same images, no two of one name, agree on the sheet's size, every pixel
/// and every placement.
pub proof fn lemma_packing_is_determined(framed: Seq<Framed>, max_width: int, s1: Sheet, s2: Sheet)
    requires
        names_distinct(framed),
        exists|o: Seq<Framed>|
            o.to_multiset() =~= framed.to_multiset() && in_packing_order(o) && #[trigger] packed(o, max_width, s1),
        exists|o: Seq<Framed>|
            o.to_multiset() =~= framed.to_multiset() && in_packing_order(o) && #[trigger] packed(o, max_width, s2),
    ensures
        s1.width == s2.width,
        s1.height == s2.height,
        s1.pixels@ == s2.pixels@,
        placements_of(s1.placements) == placements_of(s2.placements),
{
    let o1 = choose|o: Seq<Framed>|
        o.to_multiset() =~= framed.to_multiset() && in_packing_order(o) && #[trigger] packed(o, max_width, s1);
    let o2 = choose|o: Seq<Framed>|
        o.to_multiset() =~= framed.to_multiset() && in_packing_order(o) && #[trigger] packed(o, max_width, s2);
    lemma_names_distinct_reordered(o1, framed);
    lemma_packing_order_unique(o1, o2);
}

/// The atlas does not depend on the order the images were given in: two
/// packings of the same images in any two orders, no two of one name,
/// agree on the sheet's size, every pixel and every placement.
pub proof fn lemma_pack_order_irrelevant(first: Seq<Framed>, second: Seq<Framed>, max_width: int, s1: Sheet, s2: Sheet)
    requires
        names_distinct(first),
        first.to_multiset() =~= second.to_multiset(),
        exists|o: Seq<Framed>|
            o.to_multiset() =~= first.to_multiset() && in_packing_order(o) && #[trigger] packed(o, max_width, s1),
        exists|o: Seq<Framed>|
            o.to_multiset() =~= second.to_multiset() && in_packing_order(o) && #[trigger] packed(o, max_width, s2),
    ensures
        s1.width == s2.width,
        s1.height == s2.height,
        s1.pixels@ == s2.pixels@,
        placements_of(s1.placements) == placements_of(s2.placements),
{
    let o2 = choose|o: Seq<Framed>|
        o.to_multiset() =~= second.to_multiset() && in_packing_order(o) && #[trigger] packed(o, max_width, s2);
    assert(o2.to_multiset() =~= first.to_multiset() && in_packing_order(o2) && packed(o2, max_width, s2));
    lemma_packing_is_determined(first, max_width, s1, s2);
}

/// Pack images into a single sheet, each a still of one frame.
pub fn pack(images: Vec<Image>, max_width: u32) -> (sheet: Sheet)
    requires
        pack_fits(Seq::new(images@.len(), |i: int| Framed { image: images@[i], frames: 1 })),
    ensures
        exists|order: Seq<Framed>|
            order.to_multiset() =~= Seq::new(images@.len(), |i: int| Framed { image: images@[i], frames: 1 }).to_multiset()
                && in_packing_order(order) && #[trigger] packed(order, max_width as int, sheet),
        laid_apart(sheet),
{
    let mut framed: Vec<Framed> = Vec::new();
    let mut rest = images;
    let ghost all = rest@;
    let total = rest.len();
    let mut taken: usize = 0;
    while rest.len() > 0
        invariant
            all.len() == total,
            taken + rest@.len() == all.len(),
            rest@ == all.skip(taken as int),
            framed@ == Seq::new(taken as nat, |i: int| Framed { image: all[i], frames: 1 }),
        decreases rest@.len(),
    {
        let image = rest.remove(0);
        proof {
            assert(all.skip(taken as int)[0] == image);
            assert(all.skip(taken as int).remove(0) =~= all.skip(taken + 1));
        }
        framed.push(Framed { image, frames: 1 });
        proof {
            assert(framed@ =~= Seq::new((taken + 1) as nat, |i: int| Framed { image: all[i], frames: 1 }));
        }
        taken = taken + 1;
    }
    proof {
        assert(framed@ =~= Seq::new(all.len(), |i: int| Framed { image: all[i], frames: 1 }));
    }
    pack_framed(framed, max_width)
}

/// Pack images that may be animation strips.
///
/// Taller images first, then by name; left to right in shelves no wider
/// than the larger of `max_width` and the widest image, with a pixel of
/// padding all round. The sheet is then cut down to the width actually
/// used. A frame count below one is recorded as one.
pub fn pack_framed(framed: Vec<Framed>, max_width: u32) -> (sheet: Sheet)
    requires
        pack_fits(framed@),
    ensures
        exists|order: Seq<Framed>|
            order.to_multiset() =~= framed@.to_multiset() && in_packing_order(order) && #[trigger] packed(
                order,
                max_width as int,
                sheet,
            ),
        laid_apart(sheet),
{
    let ghost input = framed@;
    let order = sort_for_packing(framed);
    proof {
        lemma_pack_fits_reordered(input, order@);
    }
    let n = order.len();
    let ghost widths = widths_of(order@);
    let ghost heights = heights_of(order@);
    // The widest and tallest image, and the widest plus padding.
    let mut mw: u32 = 0;
    let mut mh: u32 = 0;
    let mut wp: u32 = 1;
    let mut k: usize = 0;
    while k < n
        invariant
            k <= n,
            n == order@.len(),
            pack_fits(order@),
            widths == widths_of(order@),
            heights == heights_of(order@),
            forall|i: int| 0 <= i < k ==> #[trigger] widths[i] <= mw,
            forall|i: int| 0 <= i < k ==> #[trigger] heights[i] <= mh,
            k == 0 ==> mw == 0 && mh == 0,
            k > 0 ==> exists|i: int| 0 <= i < k && #[trigger] widths[i] == mw,
            k > 0 ==> exists|i: int| 0 <= i < k && #[trigger] heights[i] == mh,
            wp == widest_padded(widths.take(k as int)),
        decreases n - k,
    {
        let w = order[k].image.width;
        let h = order[k].image.height;
        proof {
            assert(widths[k as int] == w);
            assert(heights[k as int] == h);
            assert(fits_pair(n as int, order@[k as int].image, order@[k as int].image));
            assert(w + 2 <= u32::MAX) by (nonlinear_arith)
                requires
                    n * (w + 2) + 2 <= u32::MAX,
                    n >= 1,
            ;
            assert(widths.take(k + 1).drop_last() =~= widths.take(k as int));
        }
        if k == 0 || w + 2 > wp {
            wp = w + 2;
        }
        if w > mw {
            mw = w;
        }
        if h > mh {
            mh = h;
        }
        k = k + 1;
    }
    proof {
        assert(widths.take(n as int) =~= widths);
    }
    let shelf_width = if max_width > wp { max_width } else { wp };
    let ghost sw = shelf_width as int;
    // Where everything goes.
    let mut positions: Vec<(u32, u32)> = Vec::new();
    let mut x: u32 = 1;
    let mut y: u32 = 1;
    let mut shelf_height: u32 = 0;
    let mut used: u32 = 1;
    let mut k: usize = 0;
    proof {
        if n > 0 {
            let i = choose|i: int| 0 <= i < n && #[trigger] widths[i] == mw;
            let j = choose|i: int| 0 <= i < n && #[trigger] heights[i] == mh;
            assert(order@[i].image.width == mw);
            assert(order@[j].image.height == mh);
        }
    }
    while k < n
        invariant
            k <= n,
            n == order@.len(),
            widths == widths_of(order@),
            heights == heights_of(order@),
            forall|i: int| 0 <= i < n ==> #[trigger] widths[i] <= mw && heights[i] <= mh,
            n > 0 ==> n * (mw + 2) + 2 <= u32::MAX && n * (mh + 2) + 2 <= u32::MAX,
            wp == widest_padded(widths),
            sw == shelf_width,
            shelf_width >= wp,
            (x as int, y as int, shelf_height as int) == (shelf(widths, heights, sw, k as int).0, shelf(widths, heights, sw, k as int).1, shelf(widths, heights, sw, k as int).2),
            1 <= x <= 1 + k * (mw + 1),
            y + shelf_height <= 1 + k * (mh + 1),
            used == used_width(widths, heights, sw, k as int),
            used <= 1 + k * (mw + 1),
            used <= shelf_width,
            positions@.len() == k,
            forall|i: int| 0 <= i < k ==> sits(widths, heights, sw, i, #[trigger] positions@[i], used as int, y + shelf_height),
            1 <= y,
        decreases n - k,
    {
        let w = order[k].image.width;
        let h = order[k].image.height;
        proof {
            assert(widths[k as int] == w);
            assert(heights[k as int] == h);
            assert(w + 2 <= widest_padded(widths)) by {
                lemma_widest_padded(widths, k as int);
            }
            assert(k * (mw + 1) + mw + 1 <= n * (mw + 1)) by (nonlinear_arith)
                requires
                    k < n,
            ;
            assert(k * (mh + 1) + mh + 1 <= n * (mh + 1)) by (nonlinear_arith)
                requires
                    k < n,
            ;
            assert(n * (mw + 1) <= n * (mw + 2)) by (nonlinear_arith)
                requires
                    n >= 0,
            ;
            assert(n * (mh + 1) <= n * (mh + 2)) by (nonlinear_arith)
                requires
                    n >= 0,
            ;
        }
        let ghost old_positions = positions@;
        let ghost old_used = used;
        let ghost old_bottom = y + shelf_height;
        if x + w + 1 > shelf_width && x > 1 {
            x = 1;
            y = y + shelf_height + 1;
            shelf_height = 0;
        }
        positions.push((x, y));
        proof {
            assert(spot(widths, heights, sw, k as int) == (x as int, y as int));
        }
        x = x + w + 1;
        if h > shelf_height {
            shelf_height = h;
        }
        if x > used || k == 0 {
            used = x;
        }
        proof {
            assert forall|i: int| 0 <= i < k + 1 implies sits(widths, heights, sw, i, #[trigger] positions@[i], used as int, y + shelf_height) by {
                if i < k {
                    assert(positions@[i] == old_positions[i]);
                    assert(sits(widths, heights, sw, i, old_positions[i], old_used as int, old_bottom));
                }
            }
            assert((k + 1) * (mw + 1) == k * (mw + 1) + mw + 1) by (nonlinear_arith);
            assert((k + 1) * (mh + 1) == k * (mh + 1) + mh + 1) by (nonlinear_arith);
        }
        k = k + 1;
    }
    proof {
        if n > 0 {
            assert(n * (mh + 1) <= n * (mh + 2)) by (nonlinear_arith)
                requires
                    n >= 0,
            ;
        }
    }
    let height = if y + shelf_height + 1 > 1 { y + shelf_height + 1 } else { 1 };
    let clipped = if used < shelf_width { used } else { shelf_width };
    let width = if clipped > 1 { clipped } else { 1 };
    proof {
        if n > 0 {
            let i = choose|i: int| 0 <= i < n && #[trigger] widths[i] == mw;
            let j = choose|i: int| 0 <= i < n && #[trigger] heights[i] == mh;
            assert(order@[i].image.width == mw);
            assert(order@[j].image.height == mh);
            assert(fits_pair(n as int, order@[i].image, order@[j].image));
            assert(n * (mw + 1) + 1 <= n * (mw + 2) + 2) by (nonlinear_arith)
                requires
                    n >= 0,
            ;
            assert(n * (mh + 1) + 2 <= n * (mh + 2) + 2) by (nonlinear_arith)
                requires
                    n >= 0,
            ;
            assert((height + 1) * width * 4 + 4 <= usize::MAX) by (nonlinear_arith)
                requires
                    height + 1 <= n * (mh + 2) + 2 + 1,
                    width <= n * (mw + 2) + 2,
                    ((n * (mh + 2) + 2) + 1) * (n * (mw + 2) + 2) * 4 + 4 <= usize::MAX,
            ;
        } else {
            assert(width == 1 && height == 2);
        }
        assert(width * height * 4 <= usize::MAX) by (nonlinear_arith)
            requires
                (height + 1) * width * 4 + 4 <= usize::MAX,
        ;
        assert forall|i: int| 0 <= i < n implies sits(widths, heights, sw, i, #[trigger] positions@[i], width as int, height as int) by {
            assert(sits(widths, heights, sw, i, positions@[i], used as int, y + shelf_height));
        }
    }
    let mut page = Image::blank("", width, height);
    let mut placements = placements_new();
    proof {
        assert(placements_of(placements) =~= placed(order@, widths, heights, sw, 0));
    }
    let ghost blank = page.pixels@;
    let mut k: usize = 0;
    while k < n
        invariant
            k <= n,
            n == order@.len(),
            pack_fits(order@),
            widths == widths_of(order@),
            heights == heights_of(order@),
            page.width == width,
            page.height == height,
            positions@.len() == n,
            (height + 1) * width * 4 + 4 <= usize::MAX,
            forall|i: int| 0 <= i < n ==> sits(widths, heights, sw, i, #[trigger] positions@[i], width as int, height as int),
            page.pixels@ == blits(blank, width as int, order@, widths, heights, sw, k as int),
            placements_of(placements) == placed(order@, widths, heights, sw, k as int),
        decreases n - k,
    {
        let (ox, oy) = positions[k];
        let img = &order[k].image;
        proof {
            assert(widths[k as int] == img.width);
            assert(heights[k as int] == img.height);
            assert((oy + img.height) * page.width + ox + img.width <= (usize::MAX - 4) / 4) by (nonlinear_arith)
                requires
                    oy + img.height <= height,
                    ox + img.width + 1 <= width,
                    page.width == width,
                    (height + 1) * width * 4 + 4 <= usize::MAX,
            ;
        }
        page.blit(img, ox, oy);
        let frames = if order[k].frames > 1 { order[k].frames } else { 1 };
        placements_insert(
            &mut placements,
            img.name.clone(),
            Placement { x: ox, y: oy, width: img.width, height: img.height, frames },
        );
        k = k + 1;
    }
    let sheet = Sheet { width, height, pixels: page.pixels, placements };
    proof {
        assert(packed(order@, max_width as int, sheet));
        lemma_laid_apart(order@, max_width as int, sheet, sw, positions@);
    }
    sheet
}

/// Every image's padded width is at most the widest.
proof fn lemma_widest_padded(widths: Seq<int>, k: int)
    requires
        0 <= k < widths.len(),
    ensures
        widths[k] + 2 <= widest_padded(widths),
    decreases widths.len(),
{
    if k < widths.len() - 1 {
        lemma_widest_padded(widths.drop_last(), k);
    }
}

} // verus!
