//! The evolution engine: a cohort of cars on one track, stepped per
//! tick, with generation end detected by tick budget or total crash,
//! top-two selection by final fitness, and reproduction by single-point
//! crossover plus two-stage mutation.

use crate::car::{final_fitness_spec, std_brain, Car, DT_MAX};
use crate::geom::{clamp_spec, in_box, Vec2i};
use crate::network::{bred_brain, bred_from, bred_layer, crossover_layer, mutate_layer,
    mutation_outcome, Layer, Network};
use crate::rng::random_in;
use crate::timer::{LapTime, Timer};
use crate::track::Track;
use vstd::prelude::*;

verus! {

/// Probability (per 1000) of replacing a weight with a fresh draw.
pub const WEIGHT_MUT_T: i64 = 40;

/// Probability (per 1000) of perturbing a weight.
pub const WEIGHT_MUT_P: i64 = 70;

/// Probability (per 1000) of replacing a bias with a fresh draw.
pub const BIAS_MUT_T: i64 = 30;

/// Probability (per 1000) of perturbing a bias.
pub const BIAS_MUT_P: i64 = 50;

/// Largest accepted population size.
pub const MAX_POP: usize = 100_000;

/// The default closed test circuit of twenty waypoints, in milli-pixel
/// coordinates.
pub fn test_track1() -> (r: Vec<Vec2i>)
    ensures
        r@.len() == 20,
        forall|i: int| 0 <= i < 20 ==> in_box(#[trigger] r@[i], 1_000_000),
        r@[0] == (Vec2i { x: 507_000i64, y: 142_000i64 }),
        r@[1] == (Vec2i { x: 654_000i64, y: 140_000i64 }),
{
    let mut v: Vec<Vec2i> = Vec::new();
    v.push(Vec2i { x: 507_000, y: 142_000 });
    v.push(Vec2i { x: 654_000, y: 140_000 });
    v.push(Vec2i { x: 782_000, y: 139_000 });
    v.push(Vec2i { x: 851_000, y: 165_000 });
    v.push(Vec2i { x: 923_000, y: 209_000 });
    v.push(Vec2i { x: 958_000, y: 292_000 });
    v.push(Vec2i { x: 965_000, y: 394_000 });
    v.push(Vec2i { x: 948_000, y: 493_000 });
    v.push(Vec2i { x: 879_000, y: 566_000 });
    v.push(Vec2i { x: 774_000, y: 585_000 });
    v.push(Vec2i { x: 682_000, y: 597_000 });
    v.push(Vec2i { x: 565_000, y: 621_000 });
    v.push(Vec2i { x: 479_000, y: 530_000 });
    v.push(Vec2i { x: 405_000, y: 438_000 });
    v.push(Vec2i { x: 314_000, y: 427_000 });
    v.push(Vec2i { x: 205_000, y: 425_000 });
    v.push(Vec2i { x: 139_000, y: 338_000 });
    v.push(Vec2i { x: 170_000, y: 212_000 });
    v.push(Vec2i { x: 272_000, y: 165_000 });
    v.push(Vec2i { x: 391_000, y: 145_000 });
    v
}

/// The tick count a generation is scored with when it ends: one more
/// than the ticks elapsed, saturating.
pub open spec fn scored_ticks(ticks: u32) -> int {
    if ticks < u32::MAX {
        ticks + 1
    } else {
        ticks as int
    }
}

/// `b` and `s` are the two positions a stable descending sort of the
/// cohort by final fitness (scored over `t` ticks) would rank first
/// and second: `b` is the first index attaining the maximum, `s` the
/// first other index attaining the maximum of the rest.
pub open spec fn top_two(cars: Seq<Car>, t: int, b: int, s: int) -> bool {
    &&& 0 <= b < cars.len()
    &&& 0 <= s < cars.len()
    &&& s != b
    &&& forall|i: int|
        0 <= i < cars.len() ==> #[trigger] final_fitness_spec(cars[i], t) <= final_fitness_spec(
            cars[b],
            t,
        )
    &&& forall|i: int|
        0 <= i < b ==> #[trigger] final_fitness_spec(cars[i], t) < final_fitness_spec(cars[b], t)
    &&& forall|i: int|
        0 <= i < cars.len() && i != b ==> #[trigger] final_fitness_spec(cars[i], t)
            <= final_fitness_spec(cars[s], t)
    &&& forall|i: int|
        0 <= i < s && i != b ==> #[trigger] final_fitness_spec(cars[i], t) < final_fitness_spec(
            cars[s],
            t,
        )
}

/// The lap events a cohort reports after a tick: one
/// `(number, generation, lap time)` entry for each car whose tick
/// completed a lap, in ascending index order.
pub open spec fn lap_events_of(cars: Seq<Car>, generation: usize) -> Seq<LapTime>
    decreases cars.len(),
{
    if cars.len() == 0 {
        Seq::empty()
    } else {
        let rest = lap_events_of(cars.drop_first(), generation);
        if cars[0].just_lapped {
            seq![(cars[0].number, generation, cars[0].lap_time)] + rest
        } else {
            rest
        }
    }
}

/// Splitting off the last car splits off its event, if any.
pub proof fn lemma_lap_events_snoc(cars: Seq<Car>, c: Car, generation: usize)
    ensures
        lap_events_of(cars.push(c), generation) == lap_events_of(cars, generation) + (
        if c.just_lapped {
            seq![(c.number, generation, c.lap_time)]
        } else {
            Seq::<LapTime>::empty()
        }),
    decreases cars.len(),
{
    reveal_with_fuel(lap_events_of, 3);
    assert(cars.push(c)[0] == if cars.len() == 0 {
        c
    } else {
        cars[0]
    });
    if cars.len() == 0 {
        assert(cars.push(c).drop_first() =~= Seq::<Car>::empty());
        assert(lap_events_of(cars, generation) + (if c.just_lapped {
            seq![(c.number, generation, c.lap_time)]
        } else {
            Seq::<LapTime>::empty()
        }) =~= lap_events_of(cars.push(c), generation));
    } else {
        assert(cars.push(c).drop_first() =~= cars.drop_first().push(c));
        lemma_lap_events_snoc(cars.drop_first(), c, generation);
        assert(lap_events_of(cars, generation) + (if c.just_lapped {
            seq![(c.number, generation, c.lap_time)]
        } else {
            Seq::<LapTime>::empty()
        }) =~= lap_events_of(cars.push(c), generation));
    }
}

/// The leaderboard after entering a sequence of lap events in order.
pub open spec fn board_after(s: Seq<LapTime>, evs: Seq<LapTime>) -> Seq<LapTime>
    decreases evs.len(),
{
    if evs.len() == 0 {
        s
    } else {
        board_after(crate::timer::board_insert(s, evs[0]), evs.drop_first())
    }
}

/// Entering one more event folds onto the board of the earlier ones.
pub proof fn lemma_board_after_snoc(s: Seq<LapTime>, evs: Seq<LapTime>, e: LapTime)
    ensures
        board_after(s, evs.push(e)) == crate::timer::board_insert(board_after(s, evs), e),
    decreases evs.len(),
{
    reveal_with_fuel(board_after, 3);
    assert(evs.push(e)[0] == if evs.len() == 0 {
        e
    } else {
        evs[0]
    });
    if evs.len() == 0 {
        assert(evs.push(e).drop_first() =~= Seq::<LapTime>::empty());
    } else {
        assert(evs.push(e).drop_first() =~= evs.drop_first().push(e));
        lemma_board_after_snoc(crate::timer::board_insert(s, evs[0]), evs.drop_first(), e);
    }
}

/// Every car of `fin` is the matching car of `mid` stepped by one tick
/// (`tick_spec`) and then crash-marked if found off the track
/// (`mark_off_track`).
pub open spec fn stepped_cohort(mid: Seq<Car>, fin: Seq<Car>, t: Track, dt: int) -> bool {
    &&& mid.len() == fin.len()
    &&& forall|i: int|
        0 <= i < mid.len() ==> (#[trigger] fin[i]) == crate::car::mark_off_track(
            crate::car::tick_spec(mid[i], t, dt),
            t,
        )
}

/// A cohort as a generation advance leaves it: numbered from 1, scores
/// and laps cleared, not crashed, with the standard topology.
pub open spec fn fresh_cohort(mid: Seq<Car>) -> bool {
    forall|i: int|
        0 <= i < mid.len() ==> {
            &&& (#[trigger] mid[i]).number == i + 1
            &&& mid[i].fitness == 0
            &&& !mid[i].crashed
            &&& mid[i].laps == 0
            &&& std_brain(mid[i].brain)
        }
}

/// The record emitted when a generation ends: which generation it was
/// and the best final fitness in it.
#[derive(Clone, Copy, PartialEq, Eq, Structural, Debug)]
pub struct GenSummary {
    pub generation: usize,
    pub best_fitness: i64,
}

/// What one tick reports to the caller: the lap events to show, and the
/// generation summary when this tick ended a generation.
pub struct TickReport {
    pub lap_events: Vec<LapTime>,
    pub generation_ended: Option<GenSummary>,
}

/// The population: the cars of the current generation, the shared
/// track, the leaderboard, and the generation bookkeeping.
pub struct Population {
    pub generation: usize,
    pub cars: Vec<Car>,
    pub track: Track,
    pub ticks: u32,
    pub timer: Timer,
    pub time_limit: u32,
}

impl Population {
    /// A consistent population: a valid track and leaderboard, at least
    /// two cars, each physically in range, numbered from 1, with the
    /// standard controller topology and a sector index on the track.
    pub open spec fn wf(self) -> bool {
        &&& self.track.wf()
        &&& self.timer.wf()
        &&& 2 <= self.cars@.len() <= MAX_POP
        &&& self.time_limit >= 1
        &&& forall|i: int|
            0 <= i < self.cars@.len() ==> {
                &&& (#[trigger] self.cars@[i]).wf()
                &&& self.cars@[i].brain_ok()
                &&& std_brain(self.cars@[i].brain)
                &&& self.cars@[i].prev_checkpoint < self.track.points@.len()
                &&& self.cars@[i].number >= 1
            }
    }

    /// A fresh population of `size` random cars, numbered from 1, on
    /// the default track, with the given per-generation tick budget.
    pub fn new(size: usize, time_limit: u32) -> (r: Population)
        requires
            2 <= size <= MAX_POP,
            time_limit >= 1,
        ensures
            r.wf(),
            r.cars@.len() == size,
            r.generation == 0,
            r.ticks == 0,
            r.time_limit == time_limit,
            forall|i: int| 0 <= i < size ==> (#[trigger] r.cars@[i]).number == i + 1,
            forall|i: int| 0 <= i < size ==> !(#[trigger] r.cars@[i]).crashed,
            forall|i: int| 0 <= i < size ==> (#[trigger] r.cars@[i]).fitness == 0,
            forall|i: int|
                0 <= i < size ==> (#[trigger] r.cars@[i]).position.x == clamp_spec(
                    r.track.start_x() - Car::HITBOX_WIDTH / 2,
                    0,
                    (crate::car::WINDOW_WIDTH - Car::HITBOX_WIDTH) as int,
                ) && r.cars@[i].position.y == clamp_spec(
                    r.track.start_y() - Car::HITBOX_HEIGHT / 2,
                    0,
                    (crate::car::WINDOW_HEIGHT - Car::HITBOX_HEIGHT) as int,
                ),
    {
        let track: Track = match Track::new(test_track1(), 100_000) {
            Option::Some(t) => t,
            Option::None => {
                proof {
                    assert(false);
                }
                unreached()
            },
        };
        let start: Vec2i = track.get_start_pos();
        let mut cars: Vec<Car> = Vec::new();
        let mut i: usize = 0;
        while i < size
            invariant
                i <= size,
                size <= MAX_POP,
                track.wf(),
                in_box(start, crate::track::POINT_LIMIT as int),
                start.x == track.start_x(),
                start.y == track.start_y(),
                cars@.len() == i,
                forall|k: int|
                    0 <= k < i ==> {
                        &&& (#[trigger] cars@[k]).wf()
                        &&& cars@[k].brain_ok()
                        &&& std_brain(cars@[k].brain)
                        &&& cars@[k].prev_checkpoint == 0
                        &&& cars@[k].number == k + 1
                        &&& !cars@[k].crashed
                        &&& cars@[k].fitness == 0
                        &&& cars@[k].position.x == clamp_spec(
                            track.start_x() - Car::HITBOX_WIDTH / 2,
                            0,
                            (crate::car::WINDOW_WIDTH - Car::HITBOX_WIDTH) as int,
                        )
                        &&& cars@[k].position.y == clamp_spec(
                            track.start_y() - Car::HITBOX_HEIGHT / 2,
                            0,
                            (crate::car::WINDOW_HEIGHT - Car::HITBOX_HEIGHT) as int,
                        )
                    },
            decreases size - i,
        {
            cars.push(Car::new(start, i + 1));
            i += 1;
        }
        Population { generation: 0, cars, track, ticks: 0, timer: Timer::new(), time_limit }
    }

    /// Every car of the generation has crashed.
    pub fn all_cars_crashed(&self) -> (r: bool)
        ensures
            r == forall|i: int| 0 <= i < self.cars@.len() ==> (#[trigger] self.cars@[i]).crashed,
    {
        let n: usize = self.cars.len();
        let mut i: usize = 0;
        while i < n
            invariant
                i <= n,
                n == self.cars@.len(),
                forall|k: int| 0 <= k < i ==> (#[trigger] self.cars@[k]).crashed,
            decreases n - i,
        {
            if !self.cars[i].crashed {
                return false;
            }
            i += 1;
        }
        true
    }

    /// One child: born at the track start, numbered `i + 1` so that
    /// every car keeps a nonzero number (zero is the leaderboard's
    /// unused-slot sentinel); its controller is a single-point
    /// crossover of the two parents' layers (a cut drawn per layer for
    /// the weights and for the biases) with the two-stage mutation
    /// applied to every gene.
    pub fn reproduce(&self, car1: &Car, car2: &Car, i: usize) -> (r: Car)
        requires
            self.wf(),
            std_brain(car1.brain),
            std_brain(car2.brain),
            i < MAX_POP,
        ensures
            r.wf(),
            r.brain_ok(),
            std_brain(r.brain),
            r.number == i + 1,
            !r.crashed,
            r.fitness == 0,
            r.prev_checkpoint == 0,
            r.laps == 0,
            r.timer == 0,
            r.lap_timer == 0,
            r.cumulative_speed == 0,
            r.position.x == clamp_spec(
                self.track.start_x() - Car::HITBOX_WIDTH / 2,
                0,
                (crate::car::WINDOW_WIDTH - Car::HITBOX_WIDTH) as int,
            ),
            r.position.y == clamp_spec(
                self.track.start_y() - Car::HITBOX_HEIGHT / 2,
                0,
                (crate::car::WINDOW_HEIGHT - Car::HITBOX_HEIGHT) as int,
            ),
            bred_brain(car1.brain, car2.brain, r.brain),
    {
        let mut child_car: Car = Car::new(self.track.get_start_pos(), i + 1);
        let mut layers: Vec<Layer> = Vec::new();
        let mut li: usize = 0;
        while li < 4
            invariant
                li <= 4,
                std_brain(car1.brain),
                std_brain(car2.brain),
                layers@.len() == li,
                forall|k: int|
                    0 <= k < li ==> {
                        &&& (#[trigger] layers@[k]).wf()
                        &&& layers@[k].in_dim() == car1.brain.layers@[k].in_dim()
                        &&& layers@[k].out_dim() == car1.brain.layers@[k].out_dim()
                        &&& layers@[k].activation == car1.brain.layers@[k].activation
                    },
                forall|k: int|
                    0 <= k < li ==> bred_from(
                        car1.brain.layers@[k],
                        car2.brain.layers@[k],
                        #[trigger] layers@[k],
                    ),
            decreases 4 - li,
        {
            let l1: &Layer = &car1.brain.layers[li];
            let l2: &Layer = &car2.brain.layers[li];
            let rows: usize = l1.weights.len();
            let cols: usize = l1.weights[0].len();
            proof {
                crate::geom::lemma_abs_mul_le(rows as int, cols as int, 12, 21);
                assert(rows as int * cols as int >= 1) by (nonlinear_arith)
                    requires
                        rows >= 1,
                        cols >= 1,
                ;
            }
            let ws: usize = rows * cols;
            let cw: usize = if ws >= 2 {
                random_in(0, (ws - 1) as i64) as usize
            } else {
                0
            };
            let bs: usize = l1.bias.len();
            let cb: usize = if bs >= 2 {
                random_in(0, (bs - 1) as i64) as usize
            } else {
                0
            };
            let crossed: Layer = crossover_layer(l1, l2, cw, cb);
            let mutated: Layer = mutate_layer(
                &crossed,
                WEIGHT_MUT_T,
                WEIGHT_MUT_P,
                BIAS_MUT_T,
                BIAS_MUT_P,
            );
            proof {
                let a = car1.brain.layers@[li as int];
                let b = car2.brain.layers@[li as int];
                assert forall|o: int, j: int|
                    0 <= o < a.out_dim() && 0 <= j < a.in_dim() implies mutation_outcome(
                    (if o * a.in_dim() + j <= cw as int {
                        b.weights@[o]@[j]
                    } else {
                        a.weights@[o]@[j]
                    }) as int,
                    (#[trigger] mutated.weights@[o]@[j]) as int,
                    1000,
                    500,
                ) by {
                    assert(crossed.weights@[o]@[j] == (if o * a.in_dim() + j <= cw as int {
                        b.weights@[o]@[j]
                    } else {
                        a.weights@[o]@[j]
                    }));
                    assert(mutation_outcome(
                        crossed.weights@[o]@[j] as int,
                        mutated.weights@[o]@[j] as int,
                        1000,
                        500,
                    ));
                }
                assert forall|k: int| 0 <= k < a.bias@.len() implies mutation_outcome(
                    (if k <= cb as int {
                        b.bias@[k]
                    } else {
                        a.bias@[k]
                    }) as int,
                    (#[trigger] mutated.bias@[k]) as int,
                    500,
                    500,
                ) by {
                    assert(crossed.bias@[k] == (if k <= cb as int {
                        b.bias@[k]
                    } else {
                        a.bias@[k]
                    }));
                    assert(mutation_outcome(crossed.bias@[k] as int, mutated.bias@[k] as int, 500, 500));
                }
                assert(bred_layer(a, b, mutated, cw as int, cb as int));
            }
            layers.push(mutated);
            li += 1;
        }
        child_car.brain = Network { layers };
        proof {
            crate::car::lemma_std_brain_ok(child_car.brain);
        }
        child_car
    }

    /// Ends the generation: ranks the cars by final fitness (as a
    /// stable descending sort would), takes the two highest-ranked as
    /// sole parents, replaces every car with a fresh child bred from
    /// them, resets the tick counter and advances the generation
    /// counter by one. Returns the record of the generation that ended
    /// and its best final fitness.
    pub fn new_population(&mut self) -> (r: GenSummary)
        requires
            old(self).wf(),
        ensures
            final(self).wf(),
            final(self).cars@.len() == old(self).cars@.len(),
            final(self).ticks == 0,
            final(self).generation == (if old(self).generation < usize::MAX {
                old(self).generation + 1
            } else {
                old(self).generation as int
            }),
            final(self).track == old(self).track,
            final(self).time_limit == old(self).time_limit,
            final(self).timer == old(self).timer,
            r.generation == old(self).generation,
            forall|i: int|
                0 <= i < final(self).cars@.len() ==> {
                    &&& (#[trigger] final(self).cars@[i]).number == i + 1
                    &&& final(self).cars@[i].fitness == 0
                    &&& !final(self).cars@[i].crashed
                    &&& final(self).cars@[i].laps == 0
                },
            exists|b: int|
                0 <= b < old(self).cars@.len() && r.best_fitness == #[trigger] final_fitness_spec(
                    old(self).cars@[b],
                    scored_ticks(old(self).ticks),
                ),
            forall|i: int|
                0 <= i < old(self).cars@.len() ==> #[trigger] final_fitness_spec(
                    old(self).cars@[i],
                    scored_ticks(old(self).ticks),
                ) <= r.best_fitness,
            exists|b: int, s: int|
                #[trigger] top_two(old(self).cars@, scored_ticks(old(self).ticks), b, s) && (
                forall|i: int|
                    0 <= i < final(self).cars@.len() ==> bred_brain(
                        old(self).cars@[b].brain,
                        old(self).cars@[s].brain,
                        (#[trigger] final(self).cars@[i]).brain,
                    )),
    {
        let size: usize = self.cars.len();
        let t: u32 = if self.ticks < u32::MAX {
            self.ticks + 1
        } else {
            u32::MAX
        };
        let mut keys: Vec<i64> = Vec::new();
        let mut i: usize = 0;
        while i < size
            invariant
                i <= size,
                self.wf(),
                *self == *old(self),
                size == self.cars@.len(),
                t as int == (if old(self).ticks < u32::MAX {
                    old(self).ticks + 1
                } else {
                    old(self).ticks as int
                }),
                t >= 1,
                keys@.len() == i,
                forall|k: int|
                    0 <= k < i ==> (#[trigger] keys@[k]) == final_fitness_spec(
                        self.cars@[k],
                        t as int,
                    ),
            decreases size - i,
        {
            keys.push(self.cars[i].get_final_fitness(t));
            i += 1;
        }
        let (best, second): (usize, usize) = select_top_two(&keys);
        let best_fitness: i64 = keys[best];
        let gen_now: usize = self.generation;
        let mut new_cars: Vec<Car> = Vec::new();
        let mut j: usize = 0;
        while j < size
            invariant
                j <= size,
                self.wf(),
                *self == *old(self),
                size == self.cars@.len(),
                best < size,
                second < size,
                new_cars@.len() == j,
                forall|k: int|
                    0 <= k < j ==> {
                        &&& (#[trigger] new_cars@[k]).wf()
                        &&& new_cars@[k].brain_ok()
                        &&& std_brain(new_cars@[k].brain)
                        &&& new_cars@[k].prev_checkpoint == 0
                        &&& new_cars@[k].number == k + 1
                        &&& !new_cars@[k].crashed
                        &&& new_cars@[k].fitness == 0
                        &&& new_cars@[k].laps == 0
                    },
                forall|k: int|
                    0 <= k < j ==> bred_brain(
                        self.cars@[best as int].brain,
                        self.cars@[second as int].brain,
                        (#[trigger] new_cars@[k]).brain,
                    ),
            decreases size - j,
        {
            let child: Car = self.reproduce(&self.cars[best], &self.cars[second], j);
            new_cars.push(child);
            j += 1;
        }
        self.cars = new_cars;
        self.ticks = 0;
        if self.generation < usize::MAX {
            self.generation = self.generation + 1;
        }
        proof {
            let t2 = scored_ticks(old(self).ticks);
            assert(best_fitness == final_fitness_spec(old(self).cars@[best as int], t2));
            assert forall|i: int| 0 <= i < old(self).cars@.len() implies #[trigger] final_fitness_spec(
                old(self).cars@[i],
                t2,
            ) <= best_fitness by {
                assert(keys@[i] == final_fitness_spec(old(self).cars@[i], t2));
                assert(keys@[i] <= keys@[best as int]);
            }
            assert forall|i: int| 0 <= i < old(self).cars@.len() && i != best as int implies
                #[trigger] final_fitness_spec(old(self).cars@[i], t2) <= final_fitness_spec(
                old(self).cars@[second as int],
                t2,
            ) by {
                assert(keys@[i] == final_fitness_spec(old(self).cars@[i], t2));
                assert(keys@[i] <= keys@[second as int]);
            }
            assert forall|i: int| 0 <= i < best as int implies #[trigger] final_fitness_spec(
                old(self).cars@[i],
                t2,
            ) < final_fitness_spec(old(self).cars@[best as int], t2) by {
                assert(keys@[i] == final_fitness_spec(old(self).cars@[i], t2));
                assert(keys@[i] < keys@[best as int]);
            }
            assert forall|i: int| 0 <= i < second as int && i != best as int implies
                #[trigger] final_fitness_spec(old(self).cars@[i], t2) < final_fitness_spec(
                old(self).cars@[second as int],
                t2,
            ) by {
                assert(keys@[i] == final_fitness_spec(old(self).cars@[i], t2));
                assert(keys@[i] < keys@[second as int]);
            }
            assert(top_two(old(self).cars@, t2, best as int, second as int));
        }
        GenSummary { generation: gen_now, best_fitness }
    }

    /// One tick of the whole population. When the tick budget is
    /// exhausted or every car has crashed, the generation advances
    /// first. Then every car senses, thinks and moves by the per-car
    /// tick relation, and is marked crashed if found off the track; the
    /// laps completed this tick are entered on the leaderboard and
    /// reported in ascending car index order. The tick counter
    /// advances.
    #[verifier::rlimit(100)]
    pub fn update(&mut self, dt: i64) -> (r: TickReport)
        requires
            old(self).wf(),
            0 < dt <= DT_MAX,
        ensures
            final(self).wf(),
            final(self).cars@.len() == old(self).cars@.len(),
            final(self).track == old(self).track,
            final(self).time_limit == old(self).time_limit,
            (r.generation_ended is Some) <==> (old(self).ticks >= old(self).time_limit || (
            forall|i: int| 0 <= i < old(self).cars@.len() ==> (#[trigger] old(self).cars@[i]).crashed)),
            r.generation_ended is Some ==> final(self).generation == (
            if old(self).generation < usize::MAX {
                old(self).generation + 1
            } else {
                old(self).generation as int
            }) && final(self).ticks == 1,
            r.generation_ended matches Some(g) ==> {
                &&& g.generation == old(self).generation
                &&& (exists|b: int|
                    0 <= b < old(self).cars@.len() && g.best_fitness
                        == #[trigger] final_fitness_spec(
                        old(self).cars@[b],
                        scored_ticks(old(self).ticks),
                    ))
                &&& forall|i: int|
                    0 <= i < old(self).cars@.len() ==> #[trigger] final_fitness_spec(
                        old(self).cars@[i],
                        scored_ticks(old(self).ticks),
                    ) <= g.best_fitness
            },
            r.generation_ended is None ==> final(self).generation == old(self).generation
                && final(self).ticks == (if old(self).ticks < u32::MAX {
                old(self).ticks + 1
            } else {
                old(self).ticks as int
            }),
            r.generation_ended is None ==> stepped_cohort(
                old(self).cars@,
                final(self).cars@,
                old(self).track,
                dt as int,
            ),
            r.generation_ended is Some ==> exists|mid: Seq<Car>|
                fresh_cohort(mid) && #[trigger] stepped_cohort(
                    mid,
                    final(self).cars@,
                    old(self).track,
                    dt as int,
                ),
            r.lap_events@ == lap_events_of(final(self).cars@, final(self).generation),
            final(self).timer.times@ == board_after(old(self).timer.times@, r.lap_events@),
            forall|i: int|
                0 <= i < final(self).cars@.len() ==> ((#[trigger] final(self).cars@[i]).crashed
                    || final(self).track.on_track_at(
                    final(self).track.sector_spec(final(self).cars@[i].center_spec()),
                    final(self).cars@[i].center_spec(),
                )),
    {
        let mut summary: Option<GenSummary> = Option::None;
        if self.ticks >= self.time_limit || self.all_cars_crashed() {
            summary = Option::Some(self.new_population());
        }
        let ghost snap: Seq<Car> = self.cars@;
        let ghost timer0: Seq<LapTime> = self.timer.times@;
        let mut events: Vec<LapTime> = Vec::new();
        let n: usize = self.cars.len();
        let ghost gen0 = self.generation;
        let ghost ticks0 = self.ticks;
        proof {
            assert(self.cars@.subrange(0, 0) =~= Seq::<Car>::empty());
        }
        let mut idx: usize = 0;
        while idx < n
            invariant
                idx <= n,
                n == self.cars@.len(),
                n == snap.len(),
                self.wf(),
                self.generation == gen0,
                self.ticks == ticks0,
                self.track == old(self).track,
                self.time_limit == old(self).time_limit,
                0 < dt <= DT_MAX,
                timer0 == old(self).timer.times@,
                summary is None ==> snap == old(self).cars@,
                summary is Some ==> fresh_cohort(snap),
                forall|k: int| idx <= k < n ==> (#[trigger] self.cars@[k]) == snap[k],
                forall|k: int|
                    0 <= k < idx ==> (#[trigger] self.cars@[k]) == crate::car::mark_off_track(
                        crate::car::tick_spec(snap[k], old(self).track, dt as int),
                        old(self).track,
                    ),
                forall|k: int|
                    0 <= k < idx ==> ((#[trigger] self.cars@[k]).crashed || self.track.on_track_at(
                        self.track.sector_spec(self.cars@[k].center_spec()),
                        self.cars@[k].center_spec(),
                    )),
                events@ == lap_events_of(self.cars@.subrange(0, idx as int), gen0),
                self.timer.times@ == board_after(timer0, events@),
            decreases n - idx,
        {
            let ghost prefix = self.cars@.subrange(0, idx as int);
            let mut car: Car = self.cars.remove(idx);
            proof {
                assert(car == snap[idx as int]);
            }
            car.update(&self.track, dt);
            let ghost ticked = car;
            let on_track: bool = car.is_on_track(&self.track);
            if !on_track {
                car.crashed();
            }
            proof {
                reveal(crate::car::mark_off_track);
                assert(car == crate::car::mark_off_track(ticked, old(self).track));
            }
            let ghost evs0 = events@;
            let ghost board_pre = self.timer.times@;
            if car.just_lapped {
                let ev: LapTime = (car.number, self.generation, car.lap_time);
                self.timer.enter_time(ev);
                events.push(ev);
                proof {
                    lemma_board_after_snoc(timer0, evs0, ev);
                }
            }
            self.cars.insert(idx, car);
            proof {
                assert(self.cars@.subrange(0, idx as int) =~= prefix);
                assert(self.cars@.subrange(0, idx as int + 1) =~= prefix.push(car));
                lemma_lap_events_snoc(prefix, car, gen0);
                if car.just_lapped {
                    assert(events@ =~= lap_events_of(prefix, gen0) + seq![
                        (car.number, gen0, car.lap_time),
                    ]);
                } else {
                    assert(events@ =~= lap_events_of(prefix, gen0) + Seq::<LapTime>::empty());
                }
            }
            idx += 1;
        }
        proof {
            assert(self.cars@.subrange(0, n as int) =~= self.cars@);
            assert(stepped_cohort(snap, self.cars@, old(self).track, dt as int));
        }
        if self.ticks < u32::MAX {
            self.ticks = self.ticks + 1;
        }
        proof {
            assert(summary is Some ==> fresh_cohort(snap) && stepped_cohort(
                snap,
                self.cars@,
                old(self).track,
                dt as int,
            ));
        }
        TickReport { lap_events: events, generation_ended: summary }
    }
}

/// The positions the two best keys would take at the head of a stable
/// descending sort: the first index attaining the maximum, then the
/// first other index attaining the maximum of the rest.
pub fn select_top_two(keys: &Vec<i64>) -> (r: (usize, usize))
    requires
        keys@.len() >= 2,
    ensures
        r.0 < keys@.len(),
        r.1 < keys@.len(),
        r.0 != r.1,
        forall|i: int| 0 <= i < keys@.len() ==> #[trigger] keys@[i] <= keys@[r.0 as int],
        forall|i: int| 0 <= i < r.0 ==> #[trigger] keys@[i] < keys@[r.0 as int],
        forall|i: int|
            0 <= i < keys@.len() && i != r.0 ==> #[trigger] keys@[i] <= keys@[r.1 as int],
        forall|i: int| 0 <= i < r.1 && i != r.0 ==> #[trigger] keys@[i] < keys@[r.1 as int],
{
    let n: usize = keys.len();
    let mut best: usize = 0;
    let mut i: usize = 1;
    while i < n
        invariant
            1 <= i <= n,
            n == keys@.len(),
            best < i,
            forall|k: int| 0 <= k < i ==> #[trigger] keys@[k] <= keys@[best as int],
            forall|k: int| 0 <= k < best ==> #[trigger] keys@[k] < keys@[best as int],
        decreases n - i,
    {
        if keys[i] > keys[best] {
            best = i;
        }
        i += 1;
    }
    let mut second: usize = if best == 0 {
        1
    } else {
        0
    };
    let mut j: usize = second + 1;
    while j < n
        invariant
            second < j <= n,
            n == keys@.len(),
            best < n,
            second != best,
            forall|k: int| 0 <= k < j && k != best ==> #[trigger] keys@[k] <= keys@[second as int],
            forall|k: int| 0 <= k < second && k != best ==> #[trigger] keys@[k] < keys@[second as int],
        decreases n - j,
    {
        if j != best && keys[j] > keys[second] {
            second = j;
        }
        j += 1;
    }
    (best, second)
}

} // verus!
