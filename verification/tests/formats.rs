//! Pixels, glyphs, identifiers and diagnostics: the formats the library
//! reads and writes, on small concrete inputs.

use dimetric::assets::aseprite::{assemble, Playback, Tag};
use dimetric::assets::font::{check_size, lay_out, wanted_chars, FontError, LineMetrics, Raster};
use dimetric::assets::image::{decode_png, to_rgba, Image, ImageError};
use dimetric::diag::{Code, Diagnostic, Diagnostics, Span};
use dimetric::id::{AssetId, NodeUid};
use dimetric::rng::{Rng, RngStreams};

fn png_bytes(width: u32, height: u32, color: png::ColorType, data: &[u8], palette: Option<&[u8]>, trns: Option<&[u8]>) -> Vec<u8> {
    let mut out = Vec::new();
    {
        let mut encoder = png::Encoder::new(&mut out, width, height);
        encoder.set_color(color);
        encoder.set_depth(png::BitDepth::Eight);
        if let Some(p) = palette {
            encoder.set_palette(p.to_vec());
        }
        if let Some(t) = trns {
            encoder.set_trns(t.to_vec());
        }
        let mut writer = encoder.write_header().unwrap();
        writer.write_image_data(data).unwrap();
    }
    out
}

#[test]
fn an_rgba_png_decodes_to_its_pixels() {
    let pixels = [1, 2, 3, 4, 5, 6, 7, 8];
    let bytes = png_bytes(2, 1, png::ColorType::Rgba, &pixels, None, None);
    let image = decode_png("two.png", &bytes).unwrap();
    assert_eq!((image.width, image.height), (2, 1));
    assert_eq!(image.pixels, pixels);
    assert_eq!(image.name, "");
}

#[test]
fn indexed_pngs_decode_through_their_palette() {
    let palette = [255, 0, 0, 0, 255, 0];
    let bytes = png_bytes(2, 1, png::ColorType::Indexed, &[1, 0], Some(&palette), Some(&[128]));
    let image = decode_png("indexed.png", &bytes).unwrap();
    assert_eq!(image.pixels, [0, 255, 0, 255, 255, 0, 0, 128]);
}

#[test]
fn bytes_that_are_not_a_png_say_so_and_name_the_file() {
    let err = decode_png("broken.png", b"not a png at all").unwrap_err();
    assert!(matches!(&err, ImageError::Decode { path, .. } if path == "broken.png"));
    assert!(err.message().starts_with("cannot decode broken.png"), "{}", err.message());
}

#[test]
fn every_colour_type_worth_supporting_widens_to_rgba() {
    assert_eq!(to_rgba(&[9, 8, 7], 2, 8, None, None).unwrap(), [9, 8, 7, 255]);
    assert_eq!(to_rgba(&[50, 60], 4, 8, None, None).unwrap(), [50, 50, 50, 60]);
    assert_eq!(to_rgba(&[70], 0, 8, None, None).unwrap(), [70, 70, 70, 255]);
    assert_eq!(to_rgba(&[1, 2, 3, 4], 6, 8, None, None).unwrap(), [1, 2, 3, 4]);
    assert_eq!(to_rgba(&[0], 3, 8, Some(&[5, 6, 7]), None).unwrap(), [5, 6, 7, 255]);
    assert_eq!(to_rgba(&[1], 3, 8, Some(&[5, 6, 7]), None), None, "index past the palette");
    assert_eq!(to_rgba(&[0, 0], 6, 16, None, None), None, "sixteen bits is refused");
}

#[test]
fn blitting_and_cropping_move_whole_pixels() {
    let mut page = Image::blank("page", 3, 2);
    let dot = Image { name: "dot".into(), width: 1, height: 1, pixels: vec![9, 9, 9, 9] };
    page.blit(&dot, 2, 1);
    assert_eq!(&page.pixels[(1 * 3 + 2) * 4..(1 * 3 + 2) * 4 + 4], &[9, 9, 9, 9]);
    let cut = page.crop("cut", 2, 1, 1, 1);
    assert_eq!(cut.pixels, [9, 9, 9, 9]);
    assert_eq!(cut.name, "cut");
}

#[test]
fn glyphs_go_on_a_shelf_in_character_order() {
    let raster = |c: char, width: u32, height: u32| Raster {
        c,
        width,
        height,
        xmin: 0,
        ymin: 0,
        advance: width as i32 + 1,
        coverage: vec![200; (width * height) as usize],
    };
    let rasters = vec![raster('a', 2, 3), raster('b', 1, 2), raster(' ', 0, 0)];
    let (font, page) = lay_out(12, rasters, Some(LineMetrics { ascent: 9, descent: -3, gap: 1 }));
    assert_eq!(font.size, 12);
    assert_eq!(font.line_height, 13);
    let a = font.glyph('a').unwrap();
    let b = font.glyph('b').unwrap();
    assert_eq!((a.x, a.y, a.width, a.height), (0, 0, 2, 3));
    assert_eq!((b.x, b.y), (3, 0), "one cell along: the widest glyph and a pixel");
    assert_eq!(font.glyph(' ').unwrap().width, 0);
    assert_eq!(page.width, 6);
    assert_eq!(&page.pixels[0..4], &[255, 255, 255, 200]);
    assert_eq!(font.measure("ab"), 5);
}

#[test]
fn a_charset_bakes_each_character_once_in_order() {
    assert_eq!(wanted_chars("cab\nba"), ['a', 'b', 'c']);
    assert_eq!(check_size(16), Ok(()));
    assert_eq!(check_size(2), Err(FontError::Size(2)));
    assert_eq!(
        FontError::Size(2).message(),
        "font size 2 is not usable; pick something between 4 and 512"
    );
    assert_eq!(FontError::Unreadable("bad table".into()).message(), "not a readable font: bad table");
}

#[test]
fn frames_are_laid_side_by_side_and_tags_become_clips() {
    let frame = |shade: u8| Image { name: String::new(), width: 2, height: 1, pixels: vec![shade; 8] };
    let tags = vec![Tag { name: "blink".into(), from: 1, to: 0, playback: Playback::Forward }];
    let doc = assemble(2, 1, vec![frame(1), frame(2)], vec![100, 50], tags, 60);
    assert_eq!((doc.sheet.width, doc.sheet.height, doc.frame_count), (4, 1, 2));
    assert_eq!(&doc.sheet.pixels[8..16], &[2; 8]);
    let clip = doc.clip("blink").unwrap();
    let indices: Vec<u32> = clip.frames.iter().map(|f| f.index).collect();
    assert_eq!(indices, [0, 1]);
    let untagged = assemble(2, 1, vec![frame(1)], vec![100], vec![], 60);
    assert_eq!(untagged.clips[0].name, "default");
    assert_eq!(untagged.clips[0].frames[0].ticks, 6);
}

#[test]
fn identifiers_read_back_from_their_text() {
    let mut rng = Rng::new(7, 3);
    let node = NodeUid::generate(&mut rng);
    assert_eq!(NodeUid::parse(&node.to_text()), Ok(node));
    let asset = AssetId::generate(&mut rng);
    let text = asset.to_text();
    assert!(text.starts_with("a_"));
    assert_eq!(AssetId::parse(&text), Ok(asset));
    assert!(AssetId::parse("a_short").is_err());
    assert!(NodeUid::parse(&text).is_err(), "an asset id is not a node id");
}

#[test]
fn named_streams_depend_on_the_seed_and_the_name_only() {
    let mut a = RngStreams::new(99);
    let mut b = RngStreams::new(99);
    let x = a.stream("loot").next_u32();
    let _ = b.stream("ai").next_u32();
    assert_eq!(b.stream("loot").next_u32(), x);
    assert_eq!(Rng::named(99, "loot").next_u32(), x);
}

#[test]
fn a_diagnostic_writes_out_its_code_place_and_node() {
    let d = Diagnostic::new(Code::NO_SUCH_NODE(), "no node there".to_string())
        .with_span(Span::at("arena.dim", 12))
        .with_node("/Arena/Door".to_string());
    assert_eq!(d.to_text(), "error[DIM0401] arena.dim:12: no node there (at /Arena/Door)");
    let mut batch = Diagnostics::new();
    assert!(!batch.has_errors());
    batch.push(d);
    assert!(batch.has_errors());
    assert_eq!(Code::resolve("DIM0401"), Ok(Code::NO_SUCH_NODE()));
    assert_eq!(Code::resolve("DIM9999").unwrap_err(), "unknown diagnostic code \"DIM9999\"");
}
