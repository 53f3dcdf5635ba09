use racers::population::{test_track1, Population};
use racers::timer::Timer;

#[test]
fn default_track_has_twenty_waypoints() {
    let pts = test_track1();
    assert_eq!(pts.len(), 20);
    assert_eq!(pts[0].x, 507_000);
    assert_eq!(pts[0].y, 142_000);
}

#[test]
fn fresh_population_is_numbered_from_one() {
    macroquad::rand::srand(20);
    let p = Population::new(5, 100);
    assert_eq!(p.cars.len(), 5);
    assert_eq!(p.generation, 0);
    assert_eq!(p.ticks, 0);
    for (i, c) in p.cars.iter().enumerate() {
        assert_eq!(c.number, i + 1);
        assert!(!c.crashed);
        assert_eq!(c.fitness, 0);
    }
}

#[test]
fn generation_advance_preserves_size_and_counts() {
    macroquad::rand::srand(21);
    let mut p = Population::new(6, 100);
    p.ticks = 42;
    let summary = p.new_population();
    // the advance keeps the population size, resets the ticks and
    // moves to the next generation
    assert_eq!(p.cars.len(), 6);
    assert_eq!(p.ticks, 0);
    assert_eq!(p.generation, 1);
    assert_eq!(summary.generation, 0);
    for (i, c) in p.cars.iter().enumerate() {
        assert_eq!(c.number, i + 1);
        assert!(!c.crashed);
        assert_eq!(c.fitness, 0);
        assert_eq!(c.brain.layers.len(), 4);
    }
}

#[test]
fn best_fitness_reported_is_the_maximum() {
    macroquad::rand::srand(22);
    let mut p = Population::new(4, 100);
    p.cars[0].fitness = 10;
    p.cars[1].fitness = 500;
    p.cars[2].fitness = 300;
    p.cars[3].fitness = -20;
    p.ticks = 9;
    let summary = p.new_population();
    assert_eq!(summary.best_fitness, 500);
}

#[test]
fn tick_budget_triggers_the_advance() {
    macroquad::rand::srand(23);
    let mut p = Population::new(3, 2);
    let r1 = p.update(16);
    assert!(r1.generation_ended.is_none());
    assert_eq!(p.ticks, 1);
    let r2 = p.update(16);
    assert!(r2.generation_ended.is_none());
    assert_eq!(p.ticks, 2);
    let r3 = p.update(16);
    let g = r3.generation_ended.expect("budget exhausted");
    assert_eq!(g.generation, 0);
    assert_eq!(p.generation, 1);
    assert_eq!(p.ticks, 1);
}

#[test]
fn all_crashed_triggers_the_advance() {
    macroquad::rand::srand(24);
    let mut p = Population::new(3, 1000);
    for c in p.cars.iter_mut() {
        c.crashed = true;
    }
    assert!(p.all_cars_crashed());
    let r = p.update(16);
    assert!(r.generation_ended.is_some());
    assert_eq!(p.generation, 1);
}

#[test]
fn reproduce_builds_a_fresh_child() {
    macroquad::rand::srand(25);
    let p = Population::new(2, 100);
    let child = p.reproduce(&p.cars[0], &p.cars[1], 7);
    assert_eq!(child.number, 8);
    assert!(!child.crashed);
    assert_eq!(child.fitness, 0);
    assert_eq!(child.laps, 0);
    assert_eq!(child.brain.layers.len(), 4);
    assert_eq!(child.brain.layers[0].weights.len(), 12);
    assert_eq!(child.brain.layers[0].weights[0].len(), 21);
    assert_eq!(child.brain.layers[3].weights.len(), 3);
}

#[test]
fn leaderboard_keeps_ten_smallest_in_order() {
    // eleven strictly increasing lap times: the ten smallest stay, in
    // ascending order, and the eleventh is rejected
    let mut timer = Timer::new();
    for i in 0..10u64 {
        let slot = timer.enter_time((1, 0, 100 + i));
        assert!(slot >= 0);
    }
    let reject = timer.enter_time((1, 0, 110));
    assert_eq!(reject, -1);
    let times = timer.get_times();
    assert_eq!(times.len(), 10);
    for (i, t) in times.iter().enumerate() {
        assert_eq!(t.2, 100 + i as u64);
    }
    assert_eq!(timer.get_fastest_time().2, 100);
    assert_eq!(timer.get_slowest_time().2, 109);
}

#[test]
fn leaderboard_inserts_in_the_middle() {
    let mut timer = Timer::new();
    timer.enter_time((1, 0, 50));
    timer.enter_time((2, 0, 70));
    let slot = timer.enter_time((3, 1, 60));
    assert_eq!(slot, 1);
    let times = timer.get_times();
    assert_eq!(times[0], (1, 0, 50));
    assert_eq!(times[1], (3, 1, 60));
    assert_eq!(times[2], (2, 0, 70));
}
