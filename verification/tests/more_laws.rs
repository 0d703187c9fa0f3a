//! The laws beside the code, on concrete values.

use dimetric::angle::Angle;
use dimetric::assets::image::Image;
use dimetric::assets::meta::ImportSettings;
use dimetric::rng::{Rng, RngStreams};

#[test]
fn rotating_toward_a_far_target_moves_exactly_the_step_the_short_way() {
    let from = Angle::from_bam(0);
    let to = Angle::from_bam(65000);
    let r = from.rotate_toward(to, 100);
    assert_eq!(r.to_bam(), 65436);
    assert_eq!(from.delta_to(r), -100);
    let near = from.rotate_toward(Angle::from_bam(40), 100);
    assert_eq!(near.to_bam(), 40);
}

#[test]
fn streams_hold_each_requested_name_once_in_name_order() {
    let mut streams = RngStreams::new(7);
    streams.stream("weather").next_u32();
    streams.stream("loot");
    streams.stream("weather").next_u32();
    let names: Vec<String> = streams.iter().into_iter().map(|(n, _)| n).collect();
    assert_eq!(names, vec!["loot".to_string(), "weather".to_string()]);
    let copy = streams.clone();
    let copied: Vec<String> = copy.iter().into_iter().map(|(n, _)| n).collect();
    assert_eq!(copied, names);
}

#[test]
fn cropping_where_an_image_was_blitted_gives_it_back() {
    let mut page = Image::blank("page", 5, 4);
    let sprite = Image { name: "s".to_string(), width: 2, height: 2, pixels: (1..=16).collect() };
    page.blit(&sprite, 2, 1);
    let back = page.crop("back", 2, 1, 2, 2);
    assert_eq!(back.pixels, sprite.pixels);
}

#[test]
fn an_index_into_a_collection_longer_than_32_bits_draws_below_its_length_cut_to_32_bits() {
    if usize::BITS < 64 {
        return;
    }
    let mut a = Rng::new(3, 9);
    let mut b = Rng::new(3, 9);
    let long = (1usize << 32) + 3;
    let i = a.index(long);
    assert!(i < 3);
    assert_eq!(i, b.index(3));
}

#[test]
fn a_clip_key_that_is_not_an_array_of_tables_gives_no_clips() {
    let s = ImportSettings::parse("id = \"a_00000001\"\nclip = [1, 2]\n").expect("parses");
    assert!(s.clips.is_empty());
    let t = ImportSettings::parse("id = \"a_00000001\"\nframes = 4\n[[other]]\nname = \"x\"\n").expect("parses");
    assert!(t.clips.is_empty());
    assert_eq!(t.frames, 4);
}
