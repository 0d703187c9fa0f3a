//! The asset pipeline on files already in memory: cataloguing, importing,
//! the atlas, and the sidecars an import records.

use dimetric::assets::cache::{asset_name, derive_id, meta_path, sheet_path, sidecars, Loaded, LoadError, SourceFile};
use dimetric::assets::image::{Image, ImageError};
use dimetric::assets::{content_hash, import, Artifact, Catalog, SourceKind};

fn file(path: &str, bytes: &[u8], meta: Option<&str>) -> SourceFile {
    SourceFile { path: path.into(), bytes: bytes.to_vec(), meta: meta.map(str::to_string) }
}

fn square(side: u32, shade: u8) -> Image {
    Image { name: String::new(), width: side, height: side, pixels: vec![shade; (side * side * 4) as usize] }
}

#[test]
fn a_scan_names_assets_the_way_a_scene_refers_to_them() {
    assert_eq!(asset_name("assets/sprites/hero.png"), "sprites/hero");
    assert_eq!(asset_name("assets/levels/arena.ldtk"), "levels/arena");
    assert_eq!(meta_path("assets/sprites/hero.png"), "assets/sprites/hero.png.meta");
    assert_eq!(sheet_path("game"), "game/.import/atlas.png");
}

#[test]
fn files_of_no_known_kind_are_not_catalogued_and_names_come_sorted() {
    let catalog = Catalog::from_files(
        "game".into(),
        vec![
            file("assets/zed.png", b"z", None),
            file("assets/notes.txt", b"hello", None),
            file("assets/alpha.ogg", b"a", None),
        ],
    );
    let names: Vec<&str> = catalog.entries().iter().map(|e| e.name.as_str()).collect();
    assert_eq!(names, ["alpha", "zed"]);
    assert_eq!(catalog.root(), "game");
    assert_eq!(catalog.get("zed").unwrap().kind, SourceKind::Png);
    assert!(catalog.get("notes").is_none());
}

#[test]
fn a_fresh_asset_gets_the_id_its_name_derives_and_is_stale() {
    let catalog = Catalog::from_files("game".into(), vec![file("assets/coin.png", b"coin", None)]);
    let entry = catalog.get("coin").unwrap();
    assert_eq!(entry.settings.id, derive_id("coin"));
    assert_eq!(entry.hash, content_hash(b"coin"));
    assert!(entry.is_stale());
}

#[test]
fn hot_reload_sees_only_what_changed() {
    let before = Catalog::from_files(
        "game".into(),
        vec![file("assets/a.png", b"one", None), file("assets/b.png", b"two", None)],
    );
    let after = Catalog::from_files(
        "game".into(),
        vec![file("assets/a.png", b"one", None), file("assets/b.png", b"2", None), file("assets/c.png", b"3", None)],
    );
    assert_eq!(after.changed_since(&before), ["b", "c"]);
    assert_eq!(before.changed_since(&after), ["b", "c"], "the same set either way round");
    assert!(after.changed_since(&after).is_empty());
}

#[test]
fn importing_packs_every_image_into_one_sheet() {
    let catalog = Catalog::from_files(
        "game".into(),
        vec![file("assets/big.png", b"big", None), file("assets/small.png", b"small", None)],
    );
    let loaded = vec![Ok(Loaded::Png(square(8, 1))), Ok(Loaded::Png(square(4, 2)))];
    let imported = import(&catalog, loaded, 60);
    assert!(imported.failures.is_empty());
    assert_eq!(imported.sheet.placements.len(), 2);
    let big = imported.sheet.placements.get("big").unwrap();
    let small = imported.sheet.placements.get("small").unwrap();
    assert_eq!((big.width, big.height, small.width, small.height), (8, 8, 4, 4));
    let apart = big.x + big.width <= small.x
        || small.x + small.width <= big.x
        || big.y + big.height <= small.y
        || small.y + small.height <= big.y;
    assert!(apart, "packed images do not overlap");
    assert!(matches!(imported.artifacts.get("big"), Some(Artifact::Image(i)) if i.name == "big"));
}

#[test]
fn a_broken_source_is_reported_and_does_not_stop_the_rest() {
    let catalog = Catalog::from_files(
        "game".into(),
        vec![file("assets/bad.png", b"x", None), file("assets/good.png", b"y", None)],
    );
    let loaded = vec![
        Err(LoadError::Image(ImageError::decode("game/assets/bad.png", "not a png"))),
        Ok(Loaded::Png(square(2, 9))),
    ];
    let imported = import(&catalog, loaded, 60);
    assert_eq!(imported.failures.len(), 1);
    assert_eq!(imported.failures[0].0, "bad");
    assert!(imported.artifacts.get("good").is_some());
    assert!(imported.artifacts.get("bad").is_none());
}

#[test]
fn a_good_meta_is_updated_with_its_source_hash_and_a_failed_one_is_left_alone() {
    let catalog = Catalog::from_files(
        "game".into(),
        vec![file("assets/bad.ldtk", b"x", None), file("assets/good.ldtk", b"y", Some("id = \"a_00000001\"\n"))],
    );
    let loaded = vec![Err(LoadError::Image(ImageError::io("game/assets/bad.ldtk", "gone"))), Ok(Loaded::Level)];
    let imported = import(&catalog, loaded, 60);
    let written = sidecars(&catalog, &imported);
    assert_eq!(written.len(), 1);
    assert_eq!(written[0].0, "assets/good.ldtk.meta");
    let hash = content_hash(b"y");
    assert!(written[0].1.contains(&format!("source_hash = \"{hash}\"")), "{}", written[0].1);
    assert!(written[0].1.contains("id = \"a_00000001\""), "the id must be kept: {}", written[0].1);
}

#[test]
fn a_strip_declared_in_its_meta_becomes_an_animation() {
    let meta = format!("id = \"{}\"\nframes = 2\nframe_ms = 100\n", derive_id("walk").to_text());
    let catalog = Catalog::from_files("game".into(), vec![file("assets/walk.png", b"w", Some(&meta))]);
    let strip = Image { name: String::new(), width: 8, height: 4, pixels: vec![0; 8 * 4 * 4] };
    let imported = import(&catalog, vec![Ok(Loaded::Png(strip))], 60);
    let clips = imported.clips("walk");
    assert_eq!(clips.len(), 1);
    assert_eq!(clips[0].name, "default");
    let ticks: Vec<u32> = clips[0].frames.iter().map(|f| f.ticks).collect();
    assert_eq!(ticks, [6, 6]);
}
