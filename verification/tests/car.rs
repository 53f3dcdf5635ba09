use racers::car::{speed_bonus, Car, Input};
use racers::geom::Vec2i;
use racers::network::{Activation, Layer, Network};
use racers::track::Track;

/// A controller that always answers with fixed outputs, whatever it
/// senses: one layer of zero weights with the outputs as biases.
fn constant_brain(throttle: i64, steer_raw: i64, brake: i64) -> Network {
    let weights = vec![vec![0i64; 21], vec![0i64; 21], vec![0i64; 21]];
    let bias = vec![throttle, steer_raw, brake];
    Network::new_empty().add_layer(Layer::new(weights, bias, Activation::Identity))
}

fn square_track(width: i64) -> Track {
    let pts = vec![
        Vec2i { x: 200_000, y: 200_000 },
        Vec2i { x: 800_000, y: 200_000 },
        Vec2i { x: 800_000, y: 800_000 },
        Vec2i { x: 200_000, y: 800_000 },
    ];
    Track::new(pts, width).expect("valid track")
}

#[test]
fn speed_bonus_clamps_instant_transitions() {
    // zero-duration sector completion must not divide by zero
    assert_eq!(speed_bonus(0), 50_000);
    assert_eq!(speed_bonus(1), 50_000);
    assert_eq!(speed_bonus(5), 2_000);
    assert_eq!(speed_bonus(100), 5);
    assert_eq!(speed_bonus(224), 0);
    assert_eq!(speed_bonus(1_000_000), 0);
}

#[test]
fn default_input_channel() {
    let i = Input::new_default();
    assert_eq!(i.min, 0);
    assert_eq!(i.max, 1000);
    assert_eq!(i.weight, 0);
    assert_eq!(i.default, 0);
}

#[test]
fn new_car_starts_clean() {
    macroquad::rand::srand(1);
    let c = Car::new(Vec2i { x: 500_000, y: 200_000 }, 3);
    assert_eq!(c.number, 3);
    assert!(!c.crashed);
    assert_eq!(c.fitness, 0);
    assert_eq!(c.laps, 0);
    assert_eq!(c.prev_checkpoint, 0);
    // the hitbox is centred on the requested point
    assert_eq!(c.position.x, 500_000 - 15_000);
    assert_eq!(c.position.y, 200_000 - 30_000);
    assert_eq!(c.direction, Vec2i { x: 1000, y: 0 });
    assert_eq!(c.brain.layers.len(), 4);
}

#[test]
fn forward_sector_awards_bonus() {
    macroquad::rand::srand(2);
    let t = square_track(40_000);
    // centred near the right edge's midpoint: sector 1, one ahead of 0
    let mut c = Car::new(Vec2i { x: 790_000, y: 500_000 }, 1);
    c.toll_fitness(&t);
    // survival point + sector bonus + maximal speed bonus (timer 0)
    assert_eq!(c.fitness, 1 + 1000 + 50_000);
    assert_eq!(c.prev_checkpoint, 1);
    assert_eq!(c.timer, 0);
    assert!(!c.crashed);
}

#[test]
fn lap_completion_awards_lap_bonus() {
    macroquad::rand::srand(3);
    let t = square_track(40_000);
    // back at the start sector having reached the last one
    let mut c = Car::new(Vec2i { x: 500_000, y: 210_000 }, 1);
    c.prev_checkpoint = 3;
    c.timer = 5;
    c.lap_timer = 77;
    c.toll_fitness(&t);
    assert_eq!(c.fitness, 1 + 2_000 + 5_000);
    assert_eq!(c.laps, 1);
    assert!(c.just_lapped);
    assert_eq!(c.lap_time, 77);
    assert_eq!(c.lap_timer, 0);
    assert_eq!(c.prev_checkpoint, 0);
}

#[test]
fn backward_across_start_crashes() {
    macroquad::rand::srand(4);
    let t = square_track(40_000);
    // at the last sector while the start line was never left
    let mut c = Car::new(Vec2i { x: 210_000, y: 500_000 }, 1);
    c.toll_fitness(&t);
    assert!(c.crashed);
    assert_eq!(c.fitness, 1 - 5_000);
    assert_eq!(c.prev_checkpoint, 3);
}

#[test]
fn backward_sector_is_punished_without_crash() {
    macroquad::rand::srand(5);
    let t = square_track(40_000);
    // at sector 1 after having reached sector 2
    let mut c = Car::new(Vec2i { x: 790_000, y: 500_000 }, 1);
    c.prev_checkpoint = 2;
    c.toll_fitness(&t);
    assert!(!c.crashed);
    assert_eq!(c.fitness, 1 - 1_000);
    assert_eq!(c.prev_checkpoint, 1);
}

#[test]
fn crashed_car_fitness_is_frozen() {
    macroquad::rand::srand(6);
    let t = square_track(40_000);
    let mut c = Car::new(Vec2i { x: 500_000, y: 210_000 }, 1);
    c.fitness = 1234;
    c.crashed = true;
    c.toll_fitness(&t);
    assert_eq!(c.fitness, 1234);
    for _ in 0..50 {
        c.update(&t, 16);
        assert_eq!(c.fitness, 1234);
        assert!(c.crashed);
    }
}

#[test]
fn fitness_does_not_decrease_without_backward_movement() {
    macroquad::rand::srand(7);
    let t = square_track(40_000);
    let mut c = Car::new(Vec2i { x: 500_000, y: 210_000 }, 1);
    // constant throttle, centred steering: the car drives forward along
    // the top edge and never moves backward through the sectors
    c.brain = constant_brain(700, 500, 0);
    let mut prev = c.fitness;
    for _ in 0..200 {
        c.update(&t, 16);
        if c.crashed {
            break;
        }
        assert!(c.fitness >= prev);
        prev = c.fitness;
    }
}

#[test]
fn final_fitness_combines_terms() {
    macroquad::rand::srand(8);
    let mut c = Car::new(Vec2i { x: 500_000, y: 200_000 }, 1);
    c.fitness = 100;
    // one thousand pixels per second accumulated, in milli-units
    c.cumulative_speed = 1_000_000;
    assert_eq!(c.get_final_fitness(10), 100 + (1_000 / 10) * 5);
    c.crashed = true;
    assert_eq!(c.get_final_fitness(10), 100 - 10_000 + (1_000 / 10) * 5);
    // both divisions truncate
    c.crashed = false;
    c.cumulative_speed = 7_900;
    assert_eq!(c.get_final_fitness(3), 100 + 2 * 5);
}

#[test]
fn off_track_detection_through_the_car() {
    macroquad::rand::srand(9);
    let t = square_track(40_000);
    let on = Car::new(Vec2i { x: 500_000, y: 205_000 }, 1);
    assert!(on.is_on_track(&t));
    let off = Car::new(Vec2i { x: 500_000, y: 260_000 }, 2);
    assert!(!off.is_on_track(&t));
}

#[test]
fn rays_report_normalized_distances() {
    macroquad::rand::srand(10);
    let t = square_track(200_000);
    let c = Car::new(Vec2i { x: 500_000, y: 500_000 }, 1);
    let rays = c.cast_rays(15, 200_000, &t);
    assert_eq!(rays.len(), 15);
    for r in &rays {
        assert!((0..=1000).contains(r));
    }
}

#[test]
fn reset_returns_the_car_to_rest() {
    macroquad::rand::srand(11);
    let mut c = Car::new(Vec2i { x: 500_000, y: 200_000 }, 1);
    c.crashed = true;
    c.angle = 99;
    c.velocity = Vec2i { x: 5, y: 5 };
    c.reset(Vec2i { x: 300_000, y: 300_000 });
    assert!(!c.crashed);
    assert_eq!(c.angle, 0);
    assert_eq!(c.velocity, Vec2i { x: 0, y: 0 });
    assert_eq!(c.position, Vec2i { x: 300_000, y: 300_000 });
}
