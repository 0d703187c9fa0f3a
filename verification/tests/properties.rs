use dimetric::angle::Angle;
use dimetric::fx::{Fx, FxWide};
use dimetric::rng::Rng;

#[test]
fn pcg32_matches_the_reference_implementation() {
    // Output vector from the canonical pcg32-demo with initstate=42,
    // initseq=54. If this ever changes, every recorded replay is invalid.
    let mut rng = Rng::new(42, 54);
    let expected = [
        0xa15c02b7u32,
        0x7b47f409,
        0xba1d3330,
        0x83d2f293,
        0xbfa4784b,
        0xcbed606e,
    ];
    for (i, want) in expected.iter().enumerate() {
        assert_eq!(rng.next_u32(), *want, "draw {i}");
    }
}

#[test]
fn known_trig_values() {
    assert_eq!(Angle::ZERO().sin(), Fx::ZERO());
    assert_eq!(Angle::ZERO().cos(), Fx::ONE());
    assert_eq!(Angle::QUARTER_TURN().sin(), Fx::ONE());
    assert_eq!(Angle::QUARTER_TURN().cos(), Fx::ZERO());
    assert_eq!(Angle::HALF_TURN().sin(), Fx::ZERO());
    assert_eq!(Angle::HALF_TURN().cos(), Fx::NEG_ONE());
    assert_eq!(Angle::from_bam(49152).sin(), Fx::NEG_ONE());
}

#[test]
fn degrees_round_trip_where_the_angle_is_representable() {
    for deg in ["0.0", "45.0", "90.0", "180.0", "270.0", "315.0"] {
        let a = Angle::from_degrees_str(deg).unwrap();
        assert_eq!(a.to_degrees_string(), deg, "{deg}");
    }
}

#[test]
fn degrees_that_are_not_representable_round_and_say_so_in_canonical_form() {
    // 30 degrees falls between two binary units. The value rounds to the
    // nearest, and canonical form writes back what is actually stored.
    let a = Angle::from_degrees_str("30.0").unwrap();
    assert_eq!(a.to_bam(), 5461);
    assert_eq!(a.to_degrees_string(), "29.9981689453125");
    assert_eq!(Angle::from_degrees_str("29.9981689453125").unwrap(), a);
}

#[test]
fn angles_wrap_without_special_cases() {
    let a = Angle::from_bam(60000);
    assert_eq!(a.add(Angle::from_bam(10000)).to_bam(), 4464);
    assert_eq!(Angle::ZERO().delta_to(Angle::from_bam(65000)), -536);
    assert_eq!(
        Angle::ZERO().rotate_toward(Angle::from_bam(65000), 100).to_bam(),
        65436
    );
}

#[test]
fn shuffle_is_a_permutation_and_depends_only_on_the_seed() {
    let mut a: Vec<u32> = (0..64).collect();
    let mut b = a.clone();
    Rng::new(9, 1).shuffle(&mut a[..]);
    Rng::new(9, 1).shuffle(&mut b[..]);
    assert_eq!(a, b);
    let mut sorted = a.clone();
    sorted.sort_unstable();
    assert_eq!(sorted, (0..64).collect::<Vec<_>>());
    assert_ne!(a, sorted, "a seeded shuffle of 64 items should reorder them");
}

#[test]
fn sqrt_of_a_value_whose_next_root_squares_to_itself_after_truncation() {
    // A case a property test found: `(r + 1)^2` really is greater than the
    // input, by about six tenths of a raw unit, which a fixed-point square
    // truncates away.
    let v = FxWide::from_raw(13_114_317_989_164);
    let root = v.sqrt().to_raw() as i128;
    let scaled = 13_114_317_989_164i128 << 16;

    assert!(root * root <= scaled);
    assert!((root + 1) * (root + 1) > scaled);
    let up = Fx::from_raw(root as i32 + 1);
    assert_eq!(up.wide().mul(up.wide()), v);
}
