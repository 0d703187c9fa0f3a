//! LDtk levels, read for baking.
//!
//! LDtk is an authoring front-end and nothing more. Import bakes its tile
//! layers into native chunk data and the scene never references the `.ldtk`
//! again. LDtk owns tile layers and the collision grid; `.dim` owns every
//! entity. Import is one-way and never written back.
//!
//! The JSON is read into [`LdtkProject`], which holds only the fields that
//! matter for baking; [`levels_of`] is everything after that.
use vstd::prelude::*;

use crate::text::debug_text;

verus! {

/// A level read out of an LDtk project.
#[derive(Clone, PartialEq, Eq, Debug)]
pub struct Level {
    /// Identifier from the project.
    pub name: String,
    /// Tile layers, in draw order: the first is furthest back.
    pub layers: Vec<TileLayer>,
}

/// One tile layer, flattened to a list of placed tiles.
#[derive(Clone, PartialEq, Eq, Debug)]
pub struct TileLayer {
    /// Identifier from the project.
    pub name: String,
    /// Edge of one cell, in pixels.
    pub grid_size: u32,
    /// Width in cells.
    pub width: i32,
    /// Height in cells.
    pub height: i32,
    /// Tileset this layer draws from, if it has one.
    pub tileset: Option<String>,
    /// Placed tiles, sorted by row then column.
    pub tiles: Vec<Tile>,
}

/// One placed tile.
#[derive(Clone, Copy, PartialEq, Eq, PartialOrd, Ord, Debug, Structural)]
pub struct Tile {
    /// Cell row.
    pub y: i32,
    /// Cell column.
    pub x: i32,
    /// Tile index within the tileset, plus one: chunk data reserves zero for
    /// "empty", so every LDtk index is shifted up by one on the way in.
    pub tile: u32,
    /// Horizontal flip.
    pub flip_x: bool,
    /// Vertical flip.
    pub flip_y: bool,
}

/// Why an LDtk file could not be read.
#[derive(Debug, Clone, PartialEq, Eq)]
pub enum LdtkError {
    /// The file could not be opened.
    Io {
        /// Path that failed.
        path: String,
        /// What the operating system said.
        detail: String,
    },
    /// The JSON was not an LDtk project this build understands.
    Malformed {
        /// Path that failed.
        path: String,
        /// What went wrong.
        detail: String,
    },
    /// External levels are stored in separate files.
    ExternalLevels {
        /// Path that failed.
        path: String,
    },
}

/// The message of an LDtk error.
pub open spec fn ldtk_error_text(e: LdtkError) -> Seq<char> {
    match e {
        LdtkError::Io { path, detail } => "cannot read "@ + path@ + ": "@ + detail@,
        LdtkError::Malformed { path, detail } => "cannot read "@ + path@ + " as an LDtk project: "@ + detail@,
        LdtkError::ExternalLevels { path } => path@
            + " stores its levels in separate files; turn off \"Save levels to separate files\" in the LDtk project settings and save again"@,
    }
}

impl LdtkError {
    /// The human-readable message.
    pub fn message(&self) -> (out: String)
        ensures
            out@ == ldtk_error_text(*self),
    {
        let mut out = String::new();
        match self {
            LdtkError::Io { path, detail } => {
                crate::text::push_str(&mut out, "cannot read ");
                crate::text::push_str(&mut out, path.as_str());
                crate::text::push_str(&mut out, ": ");
                crate::text::push_str(&mut out, detail.as_str());
            },
            LdtkError::Malformed { path, detail } => {
                crate::text::push_str(&mut out, "cannot read ");
                crate::text::push_str(&mut out, path.as_str());
                crate::text::push_str(&mut out, " as an LDtk project: ");
                crate::text::push_str(&mut out, detail.as_str());
            },
            LdtkError::ExternalLevels { path } => {
                crate::text::push_str(&mut out, path.as_str());
                crate::text::push_str(
                    &mut out,
                    " stores its levels in separate files; turn off \"Save levels to separate files\" in the LDtk project settings and save again",
                );
            },
        }
        out
    }
}

// ---------------------------------------------------------------------------
// The shape of the file: only the fields that matter for baking.
// ---------------------------------------------------------------------------

/// An LDtk project as read from its JSON.
pub struct LdtkProject {
    /// Tileset definitions.
    pub tilesets: Vec<TilesetDef>,
    /// The levels.
    pub levels: Vec<LevelJson>,
    /// Whether levels are kept in separate files.
    pub external_levels: bool,
}

/// A tileset definition.
pub struct TilesetDef {
    /// Its number within the project.
    pub uid: i64,
    /// Its name.
    pub identifier: String,
}

/// A level as the project stores it.
pub struct LevelJson {
    /// Its name.
    pub identifier: String,
    /// Its layers, front to back.
    pub layer_instances: Vec<LayerInstance>,
}

/// A layer as the project stores it.
pub struct LayerInstance {
    /// Its name.
    pub identifier: String,
    /// `Tiles`, `IntGrid`, `AutoLayer` or `Entities`.
    pub layer_type: String,
    /// Edge of one cell, in pixels.
    pub grid_size: i64,
    /// Width in cells.
    pub c_wid: i64,
    /// Height in cells.
    pub c_hei: i64,
    /// The tileset it draws from.
    pub tileset_def_uid: Option<i64>,
    /// Tiles the artist painted.
    pub grid_tiles: Vec<TileJson>,
    /// Tiles a rule placed.
    pub auto_layer_tiles: Vec<TileJson>,
}

/// A tile as the project stores it.
pub struct TileJson {
    /// Pixel position, `[x, y]`.
    pub px: Vec<i64>,
    /// Tile index within the tileset.
    pub t: i64,
    /// Flip bits: 1 horizontal, 2 vertical.
    pub f: i64,
}

/// A layer's cell edge, at least one.
pub open spec fn grid_of(layer: LayerInstance) -> i64 {
    if layer.grid_size > 1 { layer.grid_size } else { 1 }
}

/// `a / b` rounded toward zero, as `i64` division does.
pub open spec fn div_i64(a: i64, b: i64) -> int {
    crate::fx::trunc_div(a as int, b as int)
}

/// The tile a stored tile places, on a grid of `grid` pixels.
pub open spec fn tile_of(t: TileJson, grid: i64) -> Tile {
    let px = if t.px@.len() > 0 { t.px@[0] } else { 0 };
    let py = if t.px@.len() > 1 { t.px@[1] } else { 0 };
    Tile {
        x: div_i64(px, grid) as i32,
        y: div_i64(py, grid) as i32,
        tile: (t.t + 1) as u32,
        flip_x: t.f & 1 != 0,
        flip_y: t.f & 2 != 0,
    }
}

/// Every tile a layer places, in painting order: the painted ones, then the
/// ones rules placed.
pub open spec fn painted(layer: LayerInstance) -> Seq<Tile> {
    let all = layer.grid_tiles@ + layer.auto_layer_tiles@;
    Seq::new(all.len(), |k: int| tile_of(all[k], grid_of(layer)))
}

/// Row-major order of cells.
pub open spec fn cell_less(a: Tile, b: Tile) -> bool {
    a.y < b.y || (a.y == b.y && a.x < b.x)
}

/// The last of the first `n` tiles placed in the same cell as `t`.
pub open spec fn last_in_cell(ts: Seq<Tile>, y: i32, x: i32, n: int) -> Option<int>
    decreases n,
{
    if n <= 0 {
        None
    } else if ts[n - 1].y == y && ts[n - 1].x == x {
        Some(n - 1)
    } else {
        last_in_cell(ts, y, x, n - 1)
    }
}

/// `tiles` is the first `n` of `ts` flattened: one tile a cell, in row-major
/// order, each the last one painted there.
pub open spec fn flattened(tiles: Seq<Tile>, ts: Seq<Tile>, n: int) -> bool {
    &&& forall|i: int, j: int| 0 <= i < j < tiles.len() ==> cell_less(#[trigger] tiles[i], #[trigger] tiles[j])
    &&& forall|i: int|
        0 <= i < tiles.len() ==> (last_in_cell(ts, (#[trigger] tiles[i]).y, tiles[i].x, n) matches Some(k)
            && tiles[i] == ts[k])
    &&& forall|k: int| 0 <= k < n ==> exists|i: int| 0 <= i < tiles.len() && tiles[i].y == (#[trigger] ts[k]).y && tiles[i].x == ts[k].x
}

/// `a / b` rounded toward zero, for a positive `b`.
fn div_i64_exec(a: i64, b: i64) -> (q: i128)
    requires
        b >= 1,
    ensures
        q == div_i64(a, b),
{
    let wide = a as i128;
    let ua: u128 = if wide < 0 { (-wide) as u128 } else { wide as u128 };
    let uq = ua / (b as u128);
    if wide < 0 {
        -(uq as i128)
    } else {
        uq as i128
    }
}

/// Convert one stored tile.
fn convert_tile(t: &TileJson, grid: i64) -> (r: Tile)
    requires
        grid >= 1,
        t.t < i64::MAX,
    ensures
        r == tile_of(*t, grid),
{
    let px = if t.px.len() > 0 { t.px[0] } else { 0 };
    let py = if t.px.len() > 1 { t.px[1] } else { 0 };
    let x = div_i64_exec(px, grid);
    let y = div_i64_exec(py, grid);
    let shifted = t.t + 1;
    Tile {
        x: #[verifier::truncate] (x as i32),
        y: #[verifier::truncate] (y as i32),
        tile: #[verifier::truncate] (shifted as u32),
        flip_x: t.f & 1 != 0,
        flip_y: t.f & 2 != 0,
    }
}

/// No stored tile index is the largest `i64`, which has no successor.
pub open spec fn indices_fit(layer: LayerInstance) -> bool {
    &&& forall|k: int| 0 <= k < layer.grid_tiles@.len() ==> (#[trigger] layer.grid_tiles@[k]).t < i64::MAX
    &&& forall|k: int| 0 <= k < layer.auto_layer_tiles@.len() ==> (#[trigger] layer.auto_layer_tiles@[k]).t < i64::MAX
}

/// Every tile a layer places, in painting order.
fn painted_tiles(layer: &LayerInstance) -> (out: Vec<Tile>)
    requires
        indices_fit(*layer),
    ensures
        out@ == painted(*layer),
{
    let grid = if layer.grid_size > 1 { layer.grid_size } else { 1 };
    let ghost all = layer.grid_tiles@ + layer.auto_layer_tiles@;
    let mut out: Vec<Tile> = Vec::new();
    let mut k: usize = 0;
    while k < layer.grid_tiles.len()
        invariant
            k <= layer.grid_tiles@.len(),
            grid == grid_of(*layer),
            indices_fit(*layer),
            all == layer.grid_tiles@ + layer.auto_layer_tiles@,
            out@ == painted(*layer).take(k as int),
        decreases layer.grid_tiles@.len() - k,
    {
        let t = convert_tile(&layer.grid_tiles[k], grid);
        proof {
            assert(all[k as int] == layer.grid_tiles@[k as int]);
            assert(painted(*layer).take(k + 1) =~= painted(*layer).take(k as int).push(t));
        }
        out.push(t);
        k = k + 1;
    }
    let n = layer.grid_tiles.len();
    let mut j: usize = 0;
    while j < layer.auto_layer_tiles.len()
        invariant
            j <= layer.auto_layer_tiles@.len(),
            n == layer.grid_tiles@.len(),
            grid == grid_of(*layer),
            indices_fit(*layer),
            all == layer.grid_tiles@ + layer.auto_layer_tiles@,
            out@ == painted(*layer).take(n + j),
        decreases layer.auto_layer_tiles@.len() - j,
    {
        let t = convert_tile(&layer.auto_layer_tiles[j], grid);
        proof {
            assert(all[n + j] == layer.auto_layer_tiles@[j as int]);
            assert(painted(*layer).take(n + j + 1) =~= painted(*layer).take(n + j).push(t));
        }
        out.push(t);
        j = j + 1;
    }
    proof {
        assert(painted(*layer).take(n + j) =~= painted(*layer));
    }
    out
}

/// One tile a cell, row-major, the last painted winning: what a chunk holds,
/// and what LDtk itself draws, since it paints the list in order.
fn flatten(ts: &Vec<Tile>) -> (out: Vec<Tile>)
    ensures
        flattened(out@, ts@, ts@.len() as int),
{
    let mut out: Vec<Tile> = Vec::new();
    let mut k: usize = 0;
    while k < ts.len()
        invariant
            k <= ts@.len(),
            flattened(out@, ts@, k as int),
        decreases ts@.len() - k,
    {
        let t = ts[k];
        let ghost before = out@;
        let mut i: usize = 0;
        while i < out.len() && (out[i].y < t.y || (out[i].y == t.y && out[i].x < t.x))
            invariant
                i <= out@.len(),
                out@ == before,
                forall|j: int| 0 <= j < i ==> cell_less(#[trigger] before[j], t),
            decreases out@.len() - i,
        {
            i = i + 1;
        }
        if i < out.len() && out[i].y == t.y && out[i].x == t.x {
            out.set(i, t);
            proof {
                lemma_flatten_replace(before, ts@, k as int, i as int);
            }
        } else {
            out.insert(i, t);
            proof {
                lemma_flatten_insert(before, ts@, k as int, i as int);
            }
        }
        k = k + 1;
    }
    out
}

/// A tile in a cell already taken replaces the one there.
proof fn lemma_flatten_replace(before: Seq<Tile>, ts: Seq<Tile>, k: int, i: int)
    requires
        0 <= k < ts.len(),
        flattened(before, ts, k),
        0 <= i < before.len(),
        before[i].y == ts[k].y && before[i].x == ts[k].x,
    ensures
        flattened(before.update(i, ts[k]), ts, k + 1),
{
    let now = before.update(i, ts[k]);
    let t = ts[k];
    assert forall|a: int, b: int| 0 <= a < b < now.len() implies cell_less(#[trigger] now[a], #[trigger] now[b]) by {
        assert(cell_less(before[a], before[b]));
    }
    assert forall|j: int| 0 <= j < now.len() implies (last_in_cell(ts, (#[trigger] now[j]).y, now[j].x, k + 1) matches Some(m)
        && now[j] == ts[m]) by {
        if j != i {
            assert(now[j] == before[j]);
            assert(!(before[j].y == t.y && before[j].x == t.x)) by {
                if j < i {
                    assert(cell_less(before[j], before[i]));
                } else {
                    assert(cell_less(before[i], before[j]));
                }
            }
        }
    }
    assert forall|m: int| 0 <= m < k + 1 implies exists|j: int|
        0 <= j < now.len() && now[j].y == (#[trigger] ts[m]).y && now[j].x == ts[m].x by {
        if m == k {
            assert(now[i].y == ts[m].y && now[i].x == ts[m].x);
        } else {
            let j = choose|j: int| 0 <= j < before.len() && before[j].y == ts[m].y && before[j].x == ts[m].x;
            assert(now[j].y == ts[m].y && now[j].x == ts[m].x);
        }
    }
}

/// A tile in a new cell goes in where its cell sorts.
proof fn lemma_flatten_insert(before: Seq<Tile>, ts: Seq<Tile>, k: int, i: int)
    requires
        0 <= k < ts.len(),
        flattened(before, ts, k),
        0 <= i <= before.len(),
        forall|j: int| 0 <= j < i ==> cell_less(#[trigger] before[j], ts[k]),
        i < before.len() ==> !cell_less(before[i], ts[k]) && !(before[i].y == ts[k].y && before[i].x == ts[k].x),
    ensures
        flattened(before.insert(i, ts[k]), ts, k + 1),
{
    let t = ts[k];
    let now = before.insert(i, t);
    assert forall|j: int| i <= j < before.len() implies cell_less(t, #[trigger] before[j]) by {
        if j > i {
            assert(cell_less(before[i], before[j]));
        }
    }
    assert forall|a: int, b: int| 0 <= a < b < now.len() implies cell_less(#[trigger] now[a], #[trigger] now[b]) by {
        if b < i {
        } else if b == i {
        } else if a < i {
            assert(now[b] == before[b - 1]);
        } else if a == i {
            assert(now[b] == before[b - 1]);
        } else {
            assert(now[a] == before[a - 1]);
            assert(now[b] == before[b - 1]);
        }
    }
    assert forall|j: int| 0 <= j < now.len() implies (last_in_cell(ts, (#[trigger] now[j]).y, now[j].x, k + 1) matches Some(m)
        && now[j] == ts[m]) by {
        if j < i {
            assert(now[j] == before[j]);
        } else if j > i {
            assert(now[j] == before[j - 1]);
        }
    }
    assert forall|m: int| 0 <= m < k + 1 implies exists|j: int|
        0 <= j < now.len() && now[j].y == (#[trigger] ts[m]).y && now[j].x == ts[m].x by {
        if m == k {
            assert(now[i].y == ts[m].y && now[i].x == ts[m].x);
        } else {
            let j = choose|j: int| 0 <= j < before.len() && before[j].y == ts[m].y && before[j].x == ts[m].x;
            if j < i {
                assert(now[j] == before[j]);
            } else {
                assert(now[j + 1] == before[j]);
            }
        }
    }
}

/// The name of the last tileset defined with number `uid` among the first
/// `n` definitions.
pub open spec fn tileset_named(defs: Seq<TilesetDef>, uid: i64, n: int) -> Option<Seq<char>>
    decreases n,
{
    if n <= 0 {
        None
    } else if defs[n - 1].uid == uid {
        Some(defs[n - 1].identifier@)
    } else {
        tileset_named(defs, uid, n - 1)
    }
}

/// `l` is what a stored layer bakes to.
pub open spec fn layer_ok(l: TileLayer, layer: LayerInstance, defs: Seq<TilesetDef>) -> bool {
    &&& l.name@ == layer.identifier@
    &&& l.grid_size == grid_of(layer) as u32
    &&& l.width == layer.c_wid as i32
    &&& l.height == layer.c_hei as i32
    &&& match layer.tileset_def_uid {
        Some(u) => match tileset_named(defs, u, defs.len() as int) {
            Some(n) => l.tileset matches Some(s) && s@ == n,
            None => l.tileset is None,
        },
        None => l.tileset is None,
    }
    &&& flattened(l.tiles@, painted(layer), painted(layer).len() as int)
}

/// The layers that bake among the last `m`, back to front: LDtk lists
/// them front to back, and entity layers are the scene's own.
pub open spec fn baked_from_back(ls: Seq<LayerInstance>, m: int) -> Seq<LayerInstance>
    decreases m,
{
    if m <= 0 {
        Seq::empty()
    } else {
        let rest = baked_from_back(ls, m - 1);
        let l = ls[ls.len() - m];
        if l.layer_type@ != "Entities"@ {
            rest.push(l)
        } else {
            rest
        }
    }
}

/// The layers that bake, back to front.
pub open spec fn baked_layers(ls: Seq<LayerInstance>) -> Seq<LayerInstance> {
    baked_from_back(ls, ls.len() as int)
}

/// `lv` is what a stored level bakes to.
pub open spec fn level_ok(lv: Level, lj: LevelJson, defs: Seq<TilesetDef>) -> bool {
    let kept = baked_layers(lj.layer_instances@);
    &&& lv.name@ == lj.identifier@
    &&& lv.layers@.len() == kept.len()
    &&& forall|i: int| 0 <= i < kept.len() ==> layer_ok(#[trigger] lv.layers@[i], kept[i], defs)
}

/// Every stored tile index has a successor.
pub open spec fn project_indices_fit(p: LdtkProject) -> bool {
    forall|i: int, j: int|
        0 <= i < p.levels@.len() && 0 <= j < p.levels@[i].layer_instances@.len() ==> indices_fit(
            #[trigger] p.levels@[i].layer_instances@[j],
        )
}

/// Whether no stored tile index in `tiles` is the largest `i64`.
fn tiles_fit(tiles: &Vec<TileJson>) -> (r: bool)
    ensures
        r == forall|k: int| 0 <= k < tiles@.len() ==> (#[trigger] tiles@[k]).t < i64::MAX,
{
    let mut k: usize = 0;
    while k < tiles.len()
        invariant
            k <= tiles@.len(),
            forall|m: int| 0 <= m < k ==> (#[trigger] tiles@[m]).t < i64::MAX,
        decreases tiles@.len() - k,
    {
        if tiles[k].t == i64::MAX {
            return false;
        }
        k = k + 1;
    }
    true
}

/// Whether every stored tile index of a project has a successor, as
/// [`levels_of`] needs.
pub fn indices_all_fit(project: &LdtkProject) -> (r: bool)
    ensures
        r == project_indices_fit(*project),
{
    let mut i: usize = 0;
    while i < project.levels.len()
        invariant
            i <= project.levels@.len(),
            forall|a: int, b: int|
                0 <= a < i && 0 <= b < project.levels@[a].layer_instances@.len() ==> indices_fit(
                    #[trigger] project.levels@[a].layer_instances@[b],
                ),
        decreases project.levels@.len() - i,
    {
        let layers = &project.levels[i].layer_instances;
        let mut j: usize = 0;
        while j < layers.len()
            invariant
                i < project.levels@.len(),
                layers == project.levels@[i as int].layer_instances,
                j <= layers@.len(),
                forall|a: int, b: int|
                    0 <= a < i && 0 <= b < project.levels@[a].layer_instances@.len() ==> indices_fit(
                        #[trigger] project.levels@[a].layer_instances@[b],
                    ),
                forall|b: int| 0 <= b < j ==> indices_fit(#[trigger] layers@[b]),
            decreases layers@.len() - j,
        {
            if !tiles_fit(&layers[j].grid_tiles) || !tiles_fit(&layers[j].auto_layer_tiles) {
                assert(!indices_fit(project.levels@[i as int].layer_instances@[j as int]));
                return false;
            }
            j = j + 1;
        }
        proof {
            assert forall|a: int, b: int|
                0 <= a < i + 1 && 0 <= b < project.levels@[a].layer_instances@.len() implies indices_fit(
                    #[trigger] project.levels@[a].layer_instances@[b],
                ) by {
                if a == i {
                    assert(indices_fit(layers@[b]));
                }
            }
        }
        i = i + 1;
    }
    true
}

/// The tileset a layer draws from.
fn tileset_of(defs: &Vec<TilesetDef>, uid: Option<i64>) -> (r: Option<String>)
    ensures
        match uid {
            Some(u) => match tileset_named(defs@, u, defs@.len() as int) {
                Some(n) => r matches Some(s) && s@ == n,
                None => r is None,
            },
            None => r is None,
        },
{
    let u = match uid {
        Some(u) => u,
        None => return None,
    };
    let mut k = defs.len();
    while k > 0
        invariant
            k <= defs@.len(),
            uid == Some(u),
            tileset_named(defs@, u, defs@.len() as int) == tileset_named(defs@, u, k as int),
        decreases k,
    {
        if defs[k - 1].uid == u {
            let name = defs[k - 1].identifier.clone();
            proof {
                assert(name@ == defs@[k - 1].identifier@);
                assert(tileset_named(defs@, u, k as int) == Some(defs@[k - 1].identifier@));
            }
            return Some(name);
        }
        k = k - 1;
    }
    None
}

/// Bake one stored layer.
fn layer_of(layer: &LayerInstance, defs: &Vec<TilesetDef>) -> (l: TileLayer)
    requires
        indices_fit(*layer),
    ensures
        layer_ok(l, *layer, defs@),
{
    let grid = if layer.grid_size > 1 { layer.grid_size } else { 1 };
    let painted = painted_tiles(layer);
    let tiles = flatten(&painted);
    TileLayer {
        name: layer.identifier.clone(),
        grid_size: #[verifier::truncate] (grid as u32),
        width: #[verifier::truncate] (layer.c_wid as i32),
        height: #[verifier::truncate] (layer.c_hei as i32),
        tileset: tileset_of(defs, layer.tileset_def_uid),
        tiles,
    }
}

/// Every level of a project, baked: each layer but the entity layers, back
/// to front, with its tiles flattened to one a cell.
///
/// `path` names the file in the error. A project that keeps its levels in
/// separate files is refused with a message saying how to change that.
pub fn levels_of(project: &LdtkProject, path: &str) -> (r: Result<Vec<Level>, LdtkError>)
    requires
        project_indices_fit(*project),
    ensures
        project.external_levels ==> (r matches Err(LdtkError::ExternalLevels { path: p }) && p@ == path@),
        !project.external_levels ==> (r matches Ok(v) && v@.len() == project.levels@.len() && forall|i: int|
            0 <= i < v@.len() ==> level_ok(#[trigger] v@[i], project.levels@[i], project.tilesets@)),
{
    if project.external_levels {
        return Err(LdtkError::ExternalLevels { path: crate::text::string_from(path) });
    }
    let mut out: Vec<Level> = Vec::new();
    let mut i: usize = 0;
    while i < project.levels.len()
        invariant
            i <= project.levels@.len(),
            project_indices_fit(*project),
            out@.len() == i,
            forall|j: int| 0 <= j < i ==> level_ok(#[trigger] out@[j], project.levels@[j], project.tilesets@),
        decreases project.levels@.len() - i,
    {
        let lj = &project.levels[i];
        let ghost ls = lj.layer_instances@;
        let mut layers: Vec<TileLayer> = Vec::new();
        let mut k = lj.layer_instances.len();
        let ghost done: Seq<LayerInstance> = Seq::empty();
        while k > 0
            invariant
                k <= ls.len(),
                ls == lj.layer_instances@,
                lj == project.levels@[i as int],
                i < project.levels@.len(),
                project_indices_fit(*project),
                done == baked_from_back(ls, ls.len() - k),
                layers@.len() == done.len(),
                forall|j: int| 0 <= j < done.len() ==> layer_ok(#[trigger] layers@[j], done[j], project.tilesets@),
            decreases k,
        {
            let layer = &lj.layer_instances[k - 1];
            let is_entities = crate::text::str_eq(layer.layer_type.as_str(), "Entities");
            proof {
                reveal_strlit("Entities");
            }
            if !is_entities {
                proof {
                    assert(indices_fit(project.levels@[i as int].layer_instances@[k - 1]));
                }
                let baked = layer_of(layer, &project.tilesets);
                let ghost prev = layers@;
                layers.push(baked);
                proof {
                    done = baked_from_back(ls, ls.len() - k + 1);
                    assert forall|j: int| 0 <= j < done.len() implies layer_ok(#[trigger] layers@[j], done[j], project.tilesets@) by {
                        if j < prev.len() {
                            assert(layers@[j] == prev[j]);
                        }
                    }
                }
            } else {
                proof {
                    done = baked_from_back(ls, ls.len() - k + 1);
                }
            }
            k = k - 1;
        }
        let level = Level { name: lj.identifier.clone(), layers };
        let ghost prev_out = out@;
        out.push(level);
        proof {
            assert forall|j: int| 0 <= j < i + 1 implies level_ok(#[trigger] out@[j], project.levels@[j], project.tilesets@) by {
                if j < i {
                    assert(out@[j] == prev_out[j]);
                }
            }
        }
        i = i + 1;
    }
    Ok(out)
}

} // verus!
