//! The checks that tell a caller whether the library's functions can take
//! an input, on concrete values.

use dimetric::assets::builtin_font::{builtin, GLYPH_ART};
use dimetric::assets::cache::{packables_fit, strips_convert, Loaded, LoadError, SourceFile};
use dimetric::assets::font::{fits_for_baking, LineMetrics, Raster};
use dimetric::assets::image::Image;
use dimetric::assets::ldtk::{indices_all_fit, LayerInstance, LdtkProject, LevelJson, TileJson};
use dimetric::assets::Catalog;

fn layer(t: i64) -> LayerInstance {
    LayerInstance {
        identifier: "ground".into(),
        layer_type: "Tiles".into(),
        grid_size: 16,
        c_wid: 1,
        c_hei: 1,
        tileset_def_uid: None,
        grid_tiles: vec![TileJson { px: vec![0, 0], t, f: 0 }],
        auto_layer_tiles: vec![],
    }
}

fn project(t: i64) -> LdtkProject {
    LdtkProject {
        tilesets: vec![],
        levels: vec![LevelJson { identifier: "one".into(), layer_instances: vec![layer(3), layer(t)] }],
        external_levels: false,
    }
}

#[test]
fn a_tile_index_with_no_successor_is_caught_before_levels_are_read() {
    assert!(indices_all_fit(&project(7)));
    assert!(!indices_all_fit(&project(i64::MAX)));
}

fn raster(c: char, width: u32, height: u32, coverage: usize) -> Raster {
    Raster { c, width, height, xmin: 0, ymin: 0, advance: 1, coverage: vec![9; coverage] }
}

#[test]
fn glyphs_fit_a_page_unless_a_bitmap_or_the_page_is_out_of_reach() {
    assert!(fits_for_baking(&vec![raster('a', 2, 3, 6), raster('b', 1, 1, 1)], &None));
    assert!(!fits_for_baking(&vec![raster('a', 2, 3, 5)], &None));
    let line = Some(LineMetrics { ascent: i32::MAX, descent: -2, gap: 0 });
    assert!(!fits_for_baking(&vec![raster('a', 1, 1, 1)], &line));
    assert!(!fits_for_baking(&vec![raster('a', 70_000, 0, 0), raster('b', 0, 70_000, 0)], &None));
}

fn file(path: &str, meta: Option<&str>) -> SourceFile {
    SourceFile { path: path.into(), bytes: b"x".to_vec(), meta: meta.map(str::to_string) }
}

#[test]
fn strip_durations_that_overflow_the_tick_conversion_are_caught() {
    let meta = "id = \"a_00000001\"\nframes = 2\nframe_ms = 4000000000\n";
    let catalog = Catalog::from_files("game".into(), vec![file("assets/walk.png", Some(meta))]);
    let strip = Image { name: String::new(), width: 2, height: 1, pixels: vec![0; 8] };
    let loaded: Vec<Result<Loaded, LoadError>> = vec![Ok(Loaded::Png(strip))];
    assert!(strips_convert(&catalog, &loaded, 60));
    assert!(!strips_convert(&catalog, &loaded, 4_000_000_000));
}

#[test]
fn images_that_fit_the_packer_are_told_apart_from_those_that_do_not() {
    let catalog = Catalog::from_files("game".into(), vec![file("assets/a.png", None), file("assets/b.png", None)]);
    let small = |w: u32| Ok(Loaded::Png(Image { name: String::new(), width: w, height: 1, pixels: vec![0; (w * 4) as usize] }));
    let fine: Vec<Result<Loaded, LoadError>> = vec![small(4), small(2)];
    assert!(packables_fit(&catalog, &fine));
    let wide = Ok(Loaded::Png(Image { name: String::new(), width: 3_000_000_000, height: 0, pixels: vec![] }));
    let too_wide: Vec<Result<Loaded, LoadError>> = vec![wide, small(2)];
    assert!(!packables_fit(&catalog, &too_wide));
}

#[test]
fn the_builtin_page_holds_exactly_the_art_of_each_glyph() {
    let (_, page) = builtin();
    for (i, art) in GLYPH_ART.iter().enumerate() {
        for (row, text) in art.iter().enumerate() {
            for (col, b) in text.bytes().enumerate() {
                let alpha = page.pixels[4 * (row * 475 + i * 5 + col) + 3];
                assert_eq!(alpha != 0, b == b'#', "glyph {i} at ({col}, {row})");
            }
        }
    }
}
