use topdown_core::geometry::{Point2, Vector2, COORD_MAX};
use topdown_core::single::{coord_from_single, coord_to_single};

#[test]
fn whole_numbers_have_their_single_precision_pattern() {
    assert_eq!(coord_to_single(0), 0);
    assert_eq!(coord_to_single(1), 0x3f80_0000);
    assert_eq!(coord_to_single(-1), 0xbf80_0000);
    assert_eq!(coord_to_single(32), 0x4200_0000);
    assert_eq!(coord_to_single(3), 0x4040_0000);
    assert_eq!(coord_to_single(COORD_MAX), 0x4b80_0000);
    assert_eq!(coord_to_single(-COORD_MAX), 0xcb80_0000);
    assert_eq!(coord_to_single(COORD_MAX - 1), 0x4b7f_ffff);
}

#[test]
fn patterns_agree_with_the_hardware() {
    let mut v: i32 = -COORD_MAX;
    while v <= COORD_MAX {
        assert_eq!(coord_to_single(v), (v as f32).to_bits(), "writing {}", v);
        assert_eq!(coord_from_single((v as f32).to_bits()), v, "reading {}", v);
        v += 4099;
    }
    for v in [-3, -2, -1, 0, 1, 2, 3, 255, 256, 257, 65535, 65536, COORD_MAX] {
        assert_eq!(coord_to_single(v), (v as f32).to_bits());
        assert_eq!(coord_from_single((v as f32).to_bits()), v);
    }
}

#[test]
fn fractions_are_rounded_down() {
    for x in [
        0.5f32, 0.999, 1.5, -1.5, 31.99, 32.0, 96.75, -0.25, -0.5, 1e-30, -1e-30, 8388607.5,
        -8388607.5, 12345.678, -12345.678, -1.0, -2.0, -16_777_215.0,
    ] {
        assert_eq!(coord_from_single(x.to_bits()), x.floor() as i32, "reading {}", x);
    }
    assert_eq!(coord_from_single((-0.5f32).to_bits()), -1);
    assert_eq!(coord_from_single((-31.9f32).to_bits()), -32);
    assert_eq!(coord_from_single(31.9f32.to_bits()), 31);
    // The smallest pattern below zero.
    assert_eq!(coord_from_single(0x8000_0001), -1);
    assert_eq!(coord_from_single(0x0000_0001), 0);
}

#[test]
fn what_is_no_coordinate_is_held_to_the_world() {
    assert_eq!(coord_from_single(f32::INFINITY.to_bits()), COORD_MAX);
    assert_eq!(coord_from_single(f32::NEG_INFINITY.to_bits()), -COORD_MAX);
    assert_eq!(coord_from_single(1e20f32.to_bits()), COORD_MAX);
    assert_eq!(coord_from_single((-1e20f32).to_bits()), -COORD_MAX);
    assert_eq!(coord_from_single(f32::NAN.to_bits()), 0);
    assert_eq!(coord_from_single(0x8000_0000), 0);
    assert_eq!(coord_from_single(33_554_432f32.to_bits()), COORD_MAX);
}

#[test]
fn reach_includes_the_rim() {
    let at = Point2::new(0, 0);
    assert!(at.within(Point2::new(16, 0), 16));
    assert!(at.within(Point2::new(0, -16), 16));
    assert!(at.within(Point2::new(10, 10), 16));
    assert!(!at.within(Point2::new(12, 11), 16));
    assert!(!at.within(Point2::new(17, 0), 16));
    assert!(at.within(Point2::new(0, 0), 0));
    assert!(!at.within(Point2::new(i32::MAX, i32::MIN), 65535));
    assert!(Point2::new(i32::MIN, 0).within(Point2::new(i32::MIN + 3, 4), 5));
}

#[test]
fn points_and_vectors_keep_their_parts() {
    let p = Point2::new(3, -4);
    assert_eq!((p.x, p.y), (3, -4));
    let v = Vector2::new(-7, 9);
    assert_eq!((v.x, v.y), (-7, 9));
}

#[test]
fn the_world_has_its_bounds() {
    assert!(Point2::new(COORD_MAX, -COORD_MAX).is_in_world());
    assert!(Point2::new(0, 0).is_in_world());
    assert!(!Point2::new(COORD_MAX + 1, 0).is_in_world());
    assert!(!Point2::new(0, -COORD_MAX - 1).is_in_world());
}
