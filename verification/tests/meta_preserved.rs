//! A `.meta` that does not parse is refused, not replaced: the import fails
//! and says why, the scan remembers, and no sidecar is written over it.

use dimetric::assets::cache::{sidecars, Loaded, SourceFile};
use dimetric::assets::image::Image;
use dimetric::assets::{import, Catalog, Imported};

/// What a generator wrote: hand-authored clips, and an id that is not one.
const AUTHORED: &str = r#"id = "sprites_ashfen_bogling"
nearest = true
atlas = true
frames = 4
frame_ms = 120

[[clip]]
name = "idle_ne"
from = 0
to = 1

[[clip]]
name = "attack_ne"
from = 2
to = 3
looping = false
"#;

fn strip() -> Image {
    Image { name: String::new(), width: 32, height: 8, pixels: vec![200; 32 * 8 * 4] }
}

fn catalog(meta: Option<&str>) -> Catalog {
    Catalog::from_files(
        "game".into(),
        vec![SourceFile {
            path: "assets/sprites/bogling.png".into(),
            bytes: b"the strip".to_vec(),
            meta: meta.map(str::to_string),
        }],
    )
}

fn import_strip(catalog: &Catalog) -> Imported {
    import(catalog, vec![Ok(Loaded::Png(strip()))], 60)
}

#[test]
fn a_malformed_meta_fails_the_import_and_says_why() {
    let catalog = catalog(Some(AUTHORED));
    let imported = import_strip(&catalog);
    assert_eq!(imported.failures.len(), 1, "{:?}", imported.failures);
    let (name, why) = &imported.failures[0];
    assert_eq!(name, "sprites/bogling");
    assert!(why.contains("bogling.png.meta"), "names the file: {why}");
    assert!(why.contains("sprites_ashfen_bogling"), "names the offending value: {why}");
    assert!(why.contains("left as it is"), "says what it did about it: {why}");
    assert!(imported.artifacts.get("sprites/bogling").is_none());
}

#[test]
fn a_malformed_meta_is_not_overwritten() {
    let catalog = catalog(Some(AUTHORED));
    let imported = import_strip(&catalog);
    assert!(sidecars(&catalog, &imported).is_empty(), "the author's sidecar is left as it is");
}

#[test]
fn the_scan_remembers_that_the_sidecar_did_not_parse() {
    let catalog = catalog(Some(AUTHORED));
    let entry = catalog.get("sprites/bogling").expect("entry");
    assert!(entry.meta_error.is_some(), "the error has to survive the scan");
}

#[test]
fn an_absent_meta_is_still_invented_and_written() {
    let catalog = catalog(None);
    let entry = catalog.get("sprites/bogling").expect("entry");
    assert!(entry.meta_error.is_none(), "absent is not an error");
    let imported = import_strip(&catalog);
    assert!(imported.failures.is_empty(), "{:?}", imported.failures);
    let written = sidecars(&catalog, &imported);
    assert_eq!(written.len(), 1);
    assert!(written[0].1.starts_with("id = \"a_"), "{}", written[0].1);
}

#[test]
fn a_good_meta_is_still_updated_with_its_source_hash() {
    let catalog = catalog(Some("id = \"a_00000001\"\nnearest = true\natlas = true\nframes = 4\nframe_ms = 120\n"));
    let imported = import_strip(&catalog);
    assert!(imported.failures.is_empty(), "{:?}", imported.failures);
    let written = sidecars(&catalog, &imported);
    assert_eq!(written.len(), 1);
    let text = &written[0].1;
    assert!(text.contains("source_hash"), "{text}");
    assert!(text.contains("a_00000001"), "the id must be kept: {text}");
}

#[test]
fn a_meta_with_a_broken_clip_range_is_also_preserved() {
    let authored = "id = \"a_00000001\"\nframes = 4\n\n[[clip]]\nname = \"walk\"\nfrom = 0\nto = 99\n";
    let catalog = catalog(Some(authored));
    let imported = import_strip(&catalog);
    assert_eq!(imported.failures.len(), 1);
    assert!(sidecars(&catalog, &imported).is_empty());
}

#[test]
fn a_meta_that_is_not_toml_at_all_is_preserved() {
    let catalog = catalog(Some("this is not toml, it is a note somebody left\n"));
    let imported = import_strip(&catalog);
    assert_eq!(imported.failures.len(), 1);
    assert!(sidecars(&catalog, &imported).is_empty());
}

#[test]
fn an_empty_meta_is_preserved_rather_than_filled_in() {
    let catalog = catalog(Some(""));
    let imported = import_strip(&catalog);
    assert_eq!(imported.failures.len(), 1, "{:?}", imported.failures);
    assert!(sidecars(&catalog, &imported).is_empty());
}

#[test]
fn fixing_the_sidecar_lets_the_import_proceed() {
    let imported = import_strip(&catalog(Some(AUTHORED)));
    assert_eq!(imported.failures.len(), 1);
    let fixed = AUTHORED.replace("sprites_ashfen_bogling", "a_26ej92lt");
    let imported = import_strip(&catalog(Some(&fixed)));
    assert!(imported.failures.is_empty(), "{:?}", imported.failures);
    assert_eq!(imported.clips("sprites/bogling").len(), 2, "the clips the author wrote are the ones that import");
}
