//! The library's promises about all inputs, checked here on concrete ones.

use dimetric::angle::Angle;
use dimetric::agent::{parse_ints, parse_size, parse_vec2, split_assignment};
use dimetric::audio::Bus;
use dimetric::fx::Fx;
use dimetric::hash::{StateHash, StateHasher};
use dimetric::projection::Projection;
use dimetric::rect::Rect;
use dimetric::vec::Vec2Fx;

#[test]
fn a_whole_cell_projects_and_comes_back() {
    let iso = Projection::Isometric;
    for (x, y) in [(0, 0), (3, 5), (-7, 2), (12, -12)] {
        let world = Vec2Fx::from_ints(x, y);
        assert_eq!(iso.unproject(iso.project(world)), world);
    }
    let top = Projection::TopDown;
    assert_eq!(top.project(Vec2Fx::from_ints(4, 9)), Vec2Fx::from_ints(4, 9));
}

#[test]
fn the_isometric_view_is_a_two_to_one_shear() {
    let screen = Projection::Isometric.project(Vec2Fx::from_ints(2, 0));
    assert_eq!(screen, Vec2Fx::from_ints(2, 1));
    assert_eq!(Projection::Isometric.depth_of(Vec2Fx::from_ints(2, 3)), Fx::from_int(5));
}

#[test]
fn rectangles_side_by_side_share_no_point() {
    let a = Rect::new(Vec2Fx::from_ints(0, 0), Vec2Fx::from_ints(4, 4));
    let b = Rect::new(Vec2Fx::from_ints(4, 0), Vec2Fx::from_ints(4, 4));
    for x in 0..8 {
        for y in 0..4 {
            let p = Vec2Fx::from_ints(x, y);
            assert!(!(a.contains(p) && b.contains(p)), "({x}, {y}) is in both");
            assert!(a.contains(p) || b.contains(p), "({x}, {y}) is in neither");
        }
    }
}

#[test]
fn a_state_hash_reads_back_from_its_hex() {
    let mut hasher = StateHasher::new();
    hasher.tag("probe").u64(42).str("hello");
    let hash = hasher.finish();
    let text = hash.to_hex();
    assert_eq!(text.len(), 64);
    assert_eq!(StateHash::from_hex(&text), Some(hash));
    assert_eq!(StateHash::from_hex("not hex"), None);
}

#[test]
fn every_bus_reads_back_from_its_name() {
    for bus in Bus::ALL() {
        assert_eq!(Bus::parse(bus.name()), Some(bus));
    }
    assert_eq!(Bus::parse("Master"), None);
}

#[test]
fn an_assignment_splits_at_its_first_equals_sign() {
    let (key, value) = split_assignment(" speed = 1.5=x ").unwrap();
    assert_eq!((key.as_str(), value.as_str()), ("speed", "1.5=x"));
    assert!(split_assignment("no sign here").is_err());
}

#[test]
fn a_vector_is_two_exact_decimals() {
    assert_eq!(parse_vec2("1.5, -2").unwrap(), Vec2Fx::new(Fx::from_raw(98304), Fx::from_int(-2)));
    assert!(parse_vec2("1.5").is_err());
    assert!(parse_vec2("0.1, 0").is_err(), "0.1 is not representable");
}

#[test]
fn integers_come_in_the_number_asked_for() {
    assert_eq!(parse_ints("1, 2,3", 3).unwrap(), [1, 2, 3]);
    assert!(parse_ints("1, 2", 3).is_err());
    assert!(parse_ints("1, x, 3", 3).is_err());
}

#[test]
fn a_size_is_width_by_height() {
    assert_eq!(parse_size("320x180").unwrap(), (320, 180));
    assert!(parse_size("320").is_err());
    assert_eq!(parse_size("0x180").unwrap(), (1, 180), "a side is at least one pixel");
    assert_eq!(parse_size(" 64 X 32 ").unwrap(), (64, 32));
}

#[test]
fn every_angle_reads_back_from_its_degree_text() {
    for bam in (0u16..=65535).step_by(97).chain([1, 8192, 16384, 32768, 65535]) {
        let angle = Angle::from_bam(bam);
        let text = angle.to_degrees_string();
        assert_eq!(Angle::from_degrees_str(&text), Ok(angle), "{text}");
    }
}

#[test]
fn a_vector_writes_out_as_two_exact_decimals() {
    assert_eq!(Vec2Fx::new(Fx::from_raw(98304), Fx::from_int(-2)).to_text(), "(1.5, -2.0)");
}
