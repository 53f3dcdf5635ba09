use racers::geom::Vec2i;
use racers::track::Track;

fn square_track(width: i64) -> Track {
    let pts = vec![
        Vec2i { x: 200_000, y: 200_000 },
        Vec2i { x: 800_000, y: 200_000 },
        Vec2i { x: 800_000, y: 800_000 },
        Vec2i { x: 200_000, y: 800_000 },
    ];
    Track::new(pts, width).expect("valid track")
}

#[test]
fn construction_rejects_bad_input() {
    let two = vec![Vec2i { x: 0, y: 0 }, Vec2i { x: 1000, y: 0 }];
    assert!(Track::new(two, 100_000).is_none());
    let tri = vec![Vec2i { x: 0, y: 0 }, Vec2i { x: 1000, y: 0 }, Vec2i { x: 0, y: 1000 }];
    assert!(Track::new(tri.clone(), 0).is_none());
    assert!(Track::new(tri.clone(), -5).is_none());
    assert!(Track::new(tri, 100_000).is_some());
    let far = vec![
        Vec2i { x: 0, y: 0 },
        Vec2i { x: 100_000_000, y: 0 },
        Vec2i { x: 0, y: 1000 },
    ];
    assert!(Track::new(far, 100_000).is_none());
}

#[test]
fn start_position_is_first_midpoint() {
    let t = square_track(40_000);
    let s = t.get_start_pos();
    assert_eq!(s.x, 500_000);
    assert_eq!(s.y, 200_000);
}

#[test]
fn sector_is_nearest_midpoint() {
    let t = square_track(40_000);
    // near the midpoint of the top edge
    assert_eq!(t.sector_of(Vec2i { x: 510_000, y: 210_000 }), 0);
    // near the midpoint of the right edge
    assert_eq!(t.sector_of(Vec2i { x: 790_000, y: 510_000 }), 1);
    // near the midpoint of the bottom edge
    assert_eq!(t.sector_of(Vec2i { x: 500_000, y: 790_000 }), 2);
    // near the midpoint of the left edge
    assert_eq!(t.sector_of(Vec2i { x: 210_000, y: 500_000 }), 3);
}

#[test]
fn perpendicular_distance_decides_on_track() {
    let t = square_track(40_000);
    // exactly on the top edge's line
    assert!(t.check_on_track(0, Vec2i { x: 500_000, y: 200_000 }));
    // 20 pixels off the line: the half-width boundary, still on
    assert!(t.check_on_track(0, Vec2i { x: 500_000, y: 220_000 }));
    // 21 pixels off the line: beyond half the width
    assert!(!t.check_on_track(0, Vec2i { x: 500_000, y: 221_000 }));
    assert!(!t.check_on_track(0, Vec2i { x: 500_000, y: 179_000 }));
}

#[test]
fn accessors_expose_the_model() {
    let t = square_track(40_000);
    assert_eq!(t.get_width(), 40_000);
    assert_eq!(t.get_points().len(), 4);
    assert_eq!(t.get_points()[2], Vec2i { x: 800_000, y: 800_000 });
}
