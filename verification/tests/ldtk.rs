//! Reading LDtk projects: the JSON is read into the library's model of a
//! project here, the way the command layer reads it, and the library bakes it.

use dimetric::assets::ldtk::{
    levels_of, LayerInstance, LdtkError, LdtkProject, Level, LevelJson, TileJson, TilesetDef,
};
use serde_json::Value;

fn int_at(v: &Value, key: &str) -> Result<i64, String> {
    match v.get(key) {
        None | Some(Value::Null) => Ok(0),
        Some(x) => x.as_i64().ok_or_else(|| format!("{key} is not an integer")),
    }
}

fn text(v: &Value, key: &str) -> Result<String, String> {
    match v.get(key) {
        None | Some(Value::Null) => Ok(String::new()),
        Some(x) => x.as_str().map(str::to_string).ok_or_else(|| format!("{key} is not a string")),
    }
}

fn list<'a>(v: &'a Value, key: &str) -> Result<Vec<&'a Value>, String> {
    match v.get(key) {
        None | Some(Value::Null) => Ok(Vec::new()),
        Some(Value::Array(items)) => Ok(items.iter().collect()),
        Some(_) => Err(format!("invalid type: {key} is not a sequence")),
    }
}

fn tiles(v: &Value, key: &str) -> Result<Vec<TileJson>, String> {
    let mut out = Vec::new();
    for t in list(v, key)? {
        let px = list(t, "px")?
            .iter()
            .map(|p| p.as_i64().ok_or_else(|| "px is not an integer".to_string()))
            .collect::<Result<Vec<i64>, String>>()?;
        out.push(TileJson { px, t: int_at(t, "t")?, f: int_at(t, "f")? });
    }
    Ok(out)
}

fn project_of(v: &Value) -> Result<LdtkProject, String> {
    if !v.is_object() {
        return Err("expected an object".to_string());
    }
    let mut tilesets = Vec::new();
    if let Some(defs) = v.get("defs") {
        for t in list(defs, "tilesets")? {
            tilesets.push(TilesetDef { uid: int_at(t, "uid")?, identifier: text(t, "identifier")? });
        }
    }
    let mut levels = Vec::new();
    for l in list(v, "levels")? {
        let mut layer_instances = Vec::new();
        for layer in list(l, "layerInstances")? {
            let uid = match layer.get("__tilesetDefUid") {
                None | Some(Value::Null) => None,
                Some(x) => Some(x.as_i64().ok_or_else(|| "uid is not an integer".to_string())?),
            };
            layer_instances.push(LayerInstance {
                identifier: text(layer, "__identifier")?,
                layer_type: text(layer, "__type")?,
                grid_size: int_at(layer, "__gridSize")?,
                c_wid: int_at(layer, "__cWid")?,
                c_hei: int_at(layer, "__cHei")?,
                tileset_def_uid: uid,
                grid_tiles: tiles(layer, "gridTiles")?,
                auto_layer_tiles: tiles(layer, "autoLayerTiles")?,
            });
        }
        levels.push(LevelJson { identifier: text(l, "identifier")?, layer_instances });
    }
    let external_levels = v.get("externalLevels").and_then(Value::as_bool).unwrap_or(false);
    Ok(LdtkProject { tilesets, levels, external_levels })
}

fn parse(text: &str, path: &str) -> Result<Vec<Level>, LdtkError> {
    let malformed = |detail: String| LdtkError::Malformed { path: path.to_string(), detail };
    let value: Value = serde_json::from_str(text).map_err(|e| malformed(e.to_string()))?;
    let project = project_of(&value).map_err(malformed)?;
    levels_of(&project, path)
}

/// A project with one level, two tile layers and a tileset.
fn project() -> String {
    r#"{
        "externalLevels": false,
        "defs": { "tilesets": [
            { "uid": 7, "identifier": "Dungeon" },
            { "uid": 9, "identifier": "Props" }
        ]},
        "levels": [{
            "identifier": "Arena01",
            "layerInstances": [
                {
                    "__identifier": "Entities",
                    "__type": "Entities",
                    "__gridSize": 16,
                    "__cWid": 4, "__cHei": 4
                },
                {
                    "__identifier": "Props",
                    "__type": "Tiles",
                    "__gridSize": 16,
                    "__cWid": 4, "__cHei": 4,
                    "__tilesetDefUid": 9,
                    "gridTiles": [
                        { "px": [32, 16], "t": 4, "f": 0 }
                    ]
                },
                {
                    "__identifier": "Floor",
                    "__type": "AutoLayer",
                    "__gridSize": 16,
                    "__cWid": 4, "__cHei": 4,
                    "__tilesetDefUid": 7,
                    "autoLayerTiles": [
                        { "px": [16, 0], "t": 1, "f": 0 },
                        { "px": [0, 0], "t": 0, "f": 3 }
                    ]
                }
            ]
        }]
    }"#
    .to_string()
}

fn read(text: &str) -> Vec<Level> {
    parse(text, "test.ldtk").expect("the fixture should parse")
}

#[test]
fn layers_come_back_back_to_front() {
    // LDtk draws its list front to back and chunks draw in scene order, so the
    // reader reverses. Getting this backwards puts the floor over the props.
    let levels = read(&project());
    assert_eq!(levels.len(), 1);
    assert_eq!(levels[0].name, "Arena01");
    let names: Vec<&str> = levels[0].layers.iter().map(|l| l.name.as_str()).collect();
    assert_eq!(names, ["Floor", "Props"]);
}

#[test]
fn entity_layers_are_left_alone() {
    let levels = read(&project());
    assert!(levels[0].layers.iter().all(|l| l.name != "Entities"));
}

#[test]
fn painted_and_rule_placed_tiles_are_the_same_thing_here() {
    let levels = read(&project());
    let floor = &levels[0].layers[0];
    assert_eq!(floor.tiles.len(), 2, "autoLayerTiles counted");
    let props = &levels[0].layers[1];
    assert_eq!(props.tiles.len(), 1, "gridTiles counted");
}

#[test]
fn pixel_positions_become_cell_coordinates() {
    let levels = read(&project());
    let props = &levels[0].layers[1];
    assert_eq!((props.tiles[0].x, props.tiles[0].y), (2, 1));
}

#[test]
fn tile_indices_are_shifted_up_so_zero_can_mean_empty() {
    let levels = read(&project());
    let floor = &levels[0].layers[0];
    let at_origin = floor.tiles.iter().find(|t| (t.x, t.y) == (0, 0)).unwrap();
    assert_eq!(at_origin.tile, 1);
}

#[test]
fn flips_survive_the_read() {
    let levels = read(&project());
    let floor = &levels[0].layers[0];
    let flipped = floor.tiles.iter().find(|t| (t.x, t.y) == (0, 0)).unwrap();
    assert!(flipped.flip_x && flipped.flip_y, "f: 3 is both axes");
}

#[test]
fn tiles_come_back_in_row_major_order() {
    let levels = read(&project());
    let floor = &levels[0].layers[0];
    let coords: Vec<(i32, i32)> = floor.tiles.iter().map(|t| (t.x, t.y)).collect();
    assert_eq!(coords, [(0, 0), (1, 0)]);
}

#[test]
fn the_tileset_a_layer_draws_from_is_named() {
    let levels = read(&project());
    assert_eq!(levels[0].layers[0].tileset.as_deref(), Some("Dungeon"));
    assert_eq!(levels[0].layers[1].tileset.as_deref(), Some("Props"));
}

#[test]
fn a_stack_of_tiles_in_one_cell_resolves_to_the_last_one() {
    let text = r#"{
        "defs": { "tilesets": [] },
        "levels": [{ "identifier": "L", "layerInstances": [{
            "__identifier": "Floor", "__type": "Tiles",
            "__gridSize": 8, "__cWid": 2, "__cHei": 2,
            "gridTiles": [
                { "px": [0, 0], "t": 3, "f": 0 },
                { "px": [0, 0], "t": 9, "f": 0 }
            ]
        }]}]
    }"#;
    let levels = read(text);
    assert_eq!(levels[0].layers[0].tiles.len(), 1);
    assert_eq!(levels[0].layers[0].tiles[0].tile, 10);
}

#[test]
fn separate_level_files_are_refused_with_the_setting_to_change() {
    let text = r#"{ "externalLevels": true, "levels": [] }"#;
    let err = parse(text, "world.ldtk").unwrap_err();
    let message = err.message();
    assert!(message.contains("Save levels to separate files"), "{message}");
}

#[test]
fn something_that_is_not_an_ldtk_project_says_so() {
    let err = parse("{\"levels\": 4}", "world.ldtk").unwrap_err();
    assert!(err.message().contains("cannot read"));
}

#[test]
fn fields_this_build_does_not_know_about_are_ignored() {
    let text = r##"{
        "iid": "whatever", "jsonVersion": "1.5.3", "worldLayout": "Free",
        "defs": { "tilesets": [], "entities": [{ "identifier": "Player" }] },
        "levels": [{
            "identifier": "L", "bgColor": "#000000", "worldX": 0,
            "layerInstances": [{
                "__identifier": "Floor", "__type": "Tiles", "__gridSize": 8,
                "__cWid": 1, "__cHei": 1, "seed": 12345, "overrideTilesetUid": null,
                "gridTiles": [{ "px": [0, 0], "src": [16, 0], "t": 2, "f": 0, "d": [0], "a": 1 }]
            }]
        }]
    }"##;
    let levels = read(text);
    assert_eq!(levels[0].layers[0].tiles[0].tile, 3);
}

#[test]
fn a_layer_without_a_tileset_names_none_and_keeps_its_size() {
    let text = r#"{ "levels": [{ "identifier": "L", "layerInstances": [{
        "__identifier": "Floor", "__type": "IntGrid", "__gridSize": 0,
        "__cWid": 3, "__cHei": 2 }]}]}"#;
    let levels = read(text);
    let layer = &levels[0].layers[0];
    assert_eq!(layer.tileset, None);
    assert_eq!((layer.grid_size, layer.width, layer.height), (1, 3, 2));
}

#[test]
fn each_error_names_its_file() {
    let io = LdtkError::Io { path: "a.ldtk".into(), detail: "gone".into() };
    assert_eq!(io.message(), "cannot read a.ldtk: gone");
    let bad = LdtkError::Malformed { path: "a.ldtk".into(), detail: "eof".into() };
    assert_eq!(bad.message(), "cannot read a.ldtk as an LDtk project: eof");
}
