use racers::geom::{cos_mrad, div_trunc, emod, isqrt, lerp, line_intersection, sin_mrad, to_rad,
    Vec2i};

#[test]
fn truncating_division_matches_rust() {
    assert_eq!(div_trunc(7, 2), 3);
    assert_eq!(div_trunc(-7, 2), -3);
    assert_eq!(div_trunc(0, 5), 0);
}

#[test]
fn integer_square_roots() {
    assert_eq!(isqrt(0), 0);
    assert_eq!(isqrt(1), 1);
    assert_eq!(isqrt(10), 3);
    assert_eq!(isqrt(144), 12);
    assert_eq!(isqrt(145), 12);
    assert_eq!(isqrt(u64::MAX), 4294967295);
}

#[test]
fn euclidean_remainder_wraps_negatives() {
    assert_eq!(emod(5, 6284), 5);
    assert_eq!(emod(-1, 6284), 6283);
    assert_eq!(emod(6284, 6284), 0);
    assert_eq!(emod(-6284, 6284), 0);
}

#[test]
fn sine_and_cosine_key_values() {
    assert_eq!(sin_mrad(0), 0);
    assert_eq!(cos_mrad(0), 1000);
    assert_eq!(sin_mrad(1571), 1000);
    // half a turn later the sine flips sign
    assert_eq!(sin_mrad(1571 + 3142), -1000);
    for a in -7000..7000 {
        let s = sin_mrad(a);
        assert!((-1000..=1000).contains(&s));
    }
}

#[test]
fn degree_conversion() {
    // 180 degrees is pi milliradians
    assert_eq!(to_rad(180_000), 3142);
    assert_eq!(to_rad(90_000), 1571);
    assert_eq!(to_rad(0), 0);
}

#[test]
fn lerp_blends_and_clamps() {
    assert_eq!(lerp(0, 1000, 500), 500);
    assert_eq!(lerp(0, 1000, 0), 0);
    assert_eq!(lerp(0, 1000, 1000), 1000);
    // weights outside [0, 1000] are clamped
    assert_eq!(lerp(0, 1000, 5000), 1000);
    assert_eq!(lerp(100, 100, 700), 100);
}

#[test]
fn segment_intersection_hit_and_miss() {
    let p1 = Vec2i { x: 0, y: 0 };
    let p2 = Vec2i { x: 10_000, y: 0 };
    let q1 = Vec2i { x: 5_000, y: -5_000 };
    let q2 = Vec2i { x: 5_000, y: 5_000 };
    let hit = line_intersection(p1, p2, q1, q2).expect("segments cross");
    assert_eq!(hit.x, 5_000);
    assert_eq!(hit.y, 0);
    // parallel segments never intersect
    let r1 = Vec2i { x: 0, y: 1_000 };
    let r2 = Vec2i { x: 10_000, y: 1_000 };
    assert!(line_intersection(p1, p2, r1, r2).is_none());
    // segments on crossing lines but out of range
    let s1 = Vec2i { x: 20_000, y: -5_000 };
    let s2 = Vec2i { x: 20_000, y: 5_000 };
    assert!(line_intersection(p1, p2, s1, s2).is_none());
}
