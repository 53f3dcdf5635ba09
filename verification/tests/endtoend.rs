use racers::car::Car;
use racers::geom::Vec2i;
use racers::network::{Activation, Layer, Network};
use racers::track::Track;

/// A closed quadrilateral track of width 40 pixels with an agent
/// centred exactly on the midline, heading parallel to its segment,
/// constant non-zero throttle and centred (zero) steering: over 500
/// ticks the agent is never off the track.
#[test]
fn straight_driver_stays_on_the_quadrilateral() {
    macroquad::rand::srand(30);
    let pts = vec![
        Vec2i { x: 200_000, y: 200_000 },
        Vec2i { x: 800_000, y: 200_000 },
        Vec2i { x: 800_000, y: 800_000 },
        Vec2i { x: 200_000, y: 800_000 },
    ];
    let track = Track::new(pts, 40_000).expect("valid track");
    let start = track.get_start_pos();
    assert_eq!(start, Vec2i { x: 500_000, y: 200_000 });

    let mut car = Car::new(start, 1);
    // constant throttle 0.7, steering output 0.5 (zero after remapping),
    // no brake, whatever the sensors read
    let weights = vec![vec![0i64; 21], vec![0i64; 21], vec![0i64; 21]];
    let bias = vec![700, 500, 0];
    car.brain = Network::new_empty().add_layer(Layer::new(weights, bias, Activation::Identity));

    // heading 0 is parallel to the first segment
    assert_eq!(car.direction, Vec2i { x: 1000, y: 0 });

    for _ in 0..500 {
        car.update(&track, 1);
        assert!(car.is_on_track(&track), "car left the track");
        assert!(!car.crashed);
        // with zero steering on a horizontal segment the car's centre
        // holds the midline exactly
        assert_eq!(car.position.y + 30_000, 200_000);
    }
    // the car did move forward
    assert!(car.position.x > 500_000 - 15_000);
}
