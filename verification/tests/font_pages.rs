//! Font pages for large charsets.

use dimetric::assets::font::{lay_out, Raster};

#[test]
fn more_than_sixty_five_thousand_one_pixel_glyphs_still_bake() {
    let rasters: Vec<Raster> = (0x100u32..)
        .filter_map(char::from_u32)
        .take(65_537)
        .map(|c| Raster { c, width: 1, height: 1, xmin: 0, ymin: 0, advance: 1, coverage: vec![255] })
        .collect();
    let (font, page) = lay_out(8, rasters, None);
    assert_eq!((page.width, page.height), (514, 512));
    assert_eq!(font.glyphs.len(), 65_537);
    let last = font.glyphs.values().map(|g| (g.y, g.x)).max().unwrap();
    assert_eq!(last, (510, 2));
    assert_eq!(&page.pixels[0..4], &[255, 255, 255, 255]);
}
