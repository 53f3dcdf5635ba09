//! The vehicle agent: physical state in fixed-point milli-units, ray
//! sensing against the track rails, neural control, numeric integration
//! under friction and steering, and fitness accounting with sector, lap
//! and backward-movement cases.

use crate::geom::{abs_i, add_clamped, clamp_spec, clamp_i64, cos_spec, dir_of_angle, div_trunc,
    emod, in_box, is_sqrt, lemma_abs_mul_le, lemma_scale_milli_bound, lemma_tdiv_abs_le, lerp,
    lerp_spec, line_intersection, scale_milli, scale_milli_exec, segments_hit, sin_mrad, sin_spec,
    sqrt_val, tdiv, inter_x, inter_y, to_rad, Vec2i, TWO_PI_MRAD};
use crate::network::{net_eval, Activation, Layer, Network, VALUE_LIMIT};
use crate::track::{next_idx, Track, POINT_LIMIT};
use vstd::prelude::*;

verus! {

/// Width of the drawn window, in milli-pixels; positions are kept inside.
pub const WINDOW_WIDTH: i64 = 1_200_000;

/// Height of the drawn window, in milli-pixels.
pub const WINDOW_HEIGHT: i64 = 800_000;

/// Friction applied against the velocity each tick, in milli-units.
pub const FRIC_COEF: i64 = 880;

/// Fraction of the lateral velocity removed each tick, in milli-units.
pub const LAT_FRIC_COEF: i64 = 50;

/// Fitness awarded on a forward sector transition.
pub const SECTOR_BONUS: i64 = 1000;

/// Fitness awarded on completing a lap.
pub const LAP_BONUS: i64 = 5000;

/// Multiplier of the average-speed term of the final fitness.
pub const AVERAGE_SPEED_FACTOR: i64 = 5;

/// Numerator of the inverse-square sector speed bonus.
pub const SECTOR_SPEED_MULTIPLIER: i64 = 50000;

/// Penalty for slipping back one or more sectors.
pub const BACK_SECTOR_PUNISHMENT: i64 = -1000;

/// Penalty for crossing the start line backwards (also crashes the car).
pub const BACK_LAP_PUNISHMENT: i64 = -5000;

/// Penalty applied to the final fitness of a crashed car.
pub const CRASH_PUNISHMENT: i64 = -10000;

/// Number of sensor rays.
pub const NUM_RAYS: usize = 15;

/// The sensor field of view, in milli-degrees.
pub const AI_FOV_MDEG: i64 = 200_000;

/// Saturation bound of the fitness and cumulative-speed accumulators;
/// far beyond any value a run can reach.
pub const FIT_CAP: i64 = 1_000_000_000_000_000_000;

/// Magnitude bound kept on each velocity component, far above the
/// physical regime; integration saturates here so that all arithmetic
/// stays in range.
pub const VEL_LIMIT: i64 = 10_000_000;

/// Longest accepted tick duration, in milliseconds.
pub const DT_MAX: i64 = 1000;

/// A controller input channel: its admissible range, current weight and
/// neutral value, all in milli-units.
#[derive(Clone, Copy, PartialEq, Eq, Structural, Debug)]
pub struct Input {
    pub min: i64,
    pub weight: i64,
    pub max: i64,
    pub default: i64,
}

impl Input {
    /// The unit channel `[0, 1]` resting at 0.
    pub fn new_default() -> (r: Input)
        ensures
            r == (Input { min: 0i64, weight: 0i64, max: 1000i64, default: 0i64 }),
    {
        Input { min: 0, weight: 0, max: 1000, default: 0 }
    }
}

/// A value saturated at the fitness accumulator range.
pub open spec fn sat_fit(v: int) -> int {
    clamp_spec(v, -(FIT_CAP as int), FIT_CAP as int)
}

/// The inverse-square speed bonus for finishing a sector in `t` ticks,
/// clamped to its maximum for `t <= 1` so that an instant transition
/// does not divide by zero.
pub open spec fn speed_bonus_spec(t: int) -> int {
    if t <= 1 {
        SECTOR_SPEED_MULTIPLIER as int
    } else {
        (SECTOR_SPEED_MULTIPLIER as int) / (t * t)
    }
}

/// Computes the sector speed bonus.
pub fn speed_bonus(t: i64) -> (r: i64)
    requires
        0 <= t,
    ensures
        r == speed_bonus_spec(t as int),
        0 <= r <= SECTOR_SPEED_MULTIPLIER,
{
    if t <= 1 {
        SECTOR_SPEED_MULTIPLIER
    } else if t > 224 {
        proof {
            assert((t as int) * (t as int) > 50000) by (nonlinear_arith)
                requires
                    t > 224,
            ;
            vstd::arithmetic::div_mod::lemma_basic_div(50000, (t as int) * (t as int));
        }
        0
    } else {
        proof {
            lemma_abs_mul_le(t as int, t as int, 224, 224);
            assert((t as int) * (t as int) >= 4) by (nonlinear_arith)
                requires
                    2 <= t,
            ;
        }
        let sq: i64 = t * t;
        proof {
            vstd::arithmetic::div_mod::lemma_div_pos_is_pos(50000, sq as int);
            vstd::arithmetic::div_mod::lemma_div_is_ordered_by_denominator(50000, 1, sq as int);
        }
        SECTOR_SPEED_MULTIPLIER / sq
    }
}

/// The controller topology every car is born with and keeps: four
/// layers taking the sensor vector through widths 12, 8 and 5 to the 3
/// outputs, the hidden layers without activation and the output layer
/// sigmoid.
pub open spec fn std_brain(n: Network) -> bool {
    &&& n.layers@.len() == 4
    &&& n.layers@[0].wf() && n.layers@[0].in_dim() == 21 && n.layers@[0].out_dim() == 12
        && n.layers@[0].activation == Activation::Identity
    &&& n.layers@[1].wf() && n.layers@[1].in_dim() == 12 && n.layers@[1].out_dim() == 8
        && n.layers@[1].activation == Activation::Identity
    &&& n.layers@[2].wf() && n.layers@[2].in_dim() == 8 && n.layers@[2].out_dim() == 5
        && n.layers@[2].activation == Activation::Identity
    &&& n.layers@[3].wf() && n.layers@[3].in_dim() == 5 && n.layers@[3].out_dim() == 3
        && n.layers@[3].activation == Activation::Sigmoid
}

/// The standard topology feeds the sensor vector and yields the three
/// outputs.
pub proof fn lemma_std_brain_ok(n: Network)
    requires
        std_brain(n),
    ensures
        crate::network::wf_chain(n.layers@, NUM_RAYS + 6),
        n.layers@.last().out_dim() == 3,
{
    let s = n.layers@;
    assert(s.drop_first() =~= seq![s[1], s[2], s[3]]);
    assert(seq![s[1], s[2], s[3]].drop_first() =~= seq![s[2], s[3]]);
    assert(seq![s[2], s[3]].drop_first() =~= seq![s[3]]);
    assert(seq![s[3]].drop_first() =~= Seq::<Layer>::empty());
    assert(crate::network::wf_chain(Seq::<Layer>::empty(), 3));
    assert(crate::network::wf_chain(seq![s[3]], 5));
    assert(crate::network::wf_chain(seq![s[2], s[3]], 8));
    assert(crate::network::wf_chain(seq![s[1], s[2], s[3]], 12));
}

/// The final score of a generation over `ticks` elapsed ticks: the
/// accumulated fitness, the crash penalty if crashed, and the truncated
/// average speed weighted by its factor. The speed sum is carried in
/// milli-pixels per second, so it is scaled back to whole pixels per
/// second first: the average-speed term keeps the same point scale as
/// the bonuses and penalties.
pub open spec fn final_fitness_spec(c: Car, ticks: int) -> int {
    c.fitness + (if c.crashed {
        CRASH_PUNISHMENT as int
    } else {
        0
    }) + ((c.cumulative_speed as int) / 1000) / ticks * (AVERAGE_SPEED_FACTOR as int)
}

/// The scoring step of one tick, before any movement: a crashed car is
/// untouched; otherwise the car earns one survival point and its speed,
/// then exactly one of the sector cases applies, given the observed
/// sector `s` of a track of `n` sectors: forward advance (sector bonus
/// plus speed bonus), lap completion (speed bonus plus lap bonus, lap
/// bookkeeping), backward across the start line (crash and penalty),
/// backward by one or more sectors (penalty), or no transition.
/// The wrap from the last sector to sector 0 awards the speed bonus
/// and the lap bonus but no sector bonus: that is the lap case's own
/// award list, which this spec follows.
/// Accumulators saturate at `FIT_CAP`.
pub open spec fn toll_spec(c: Car, s: int, n: int) -> Car {
    if c.crashed {
        c
    } else {
        let last = n - 1;
        let speed = sqrt_val(
            (c.velocity.x as int) * (c.velocity.x as int) + (c.velocity.y as int) * (c.velocity.y
                as int),
        );
        let f1 = sat_fit(c.fitness + 1);
        let cum = sat_fit(c.cumulative_speed + speed);
        let c1 = Car { fitness: f1 as i64, cumulative_speed: cum as i64, ..c };
        if s == c.prev_checkpoint + 1 {
            Car {
                prev_checkpoint: (c.prev_checkpoint + 1) as usize,
                fitness: sat_fit(
                    f1 + SECTOR_BONUS + speed_bonus_spec(c.timer as int),
                ) as i64,
                timer: 0,
                ..c1
            }
        } else if s == 0 && c.prev_checkpoint == last {
            Car {
                fitness: sat_fit(f1 + speed_bonus_spec(c.timer as int) + LAP_BONUS) as i64,
                prev_checkpoint: 0,
                timer: 0,
                lap_time: c.lap_timer,
                lap_timer: 0,
                just_lapped: true,
                laps: (if c.laps < usize::MAX {
                    c.laps + 1
                } else {
                    c.laps as int
                }) as usize,
                ..c1
            }
        } else if c.prev_checkpoint == 0 && s == last {
            Car {
                crashed: true,
                timer: 0,
                prev_checkpoint: last as usize,
                fitness: sat_fit(f1 + BACK_LAP_PUNISHMENT) as i64,
                ..c1
            }
        } else if s < c.prev_checkpoint {
            Car {
                timer: 0,
                prev_checkpoint: s as usize,
                fitness: sat_fit(f1 + BACK_SECTOR_PUNISHMENT) as i64,
                ..c1
            }
        } else {
            c1
        }
    }
}

/// Distance reported when a ray meets no rail within range.
pub const RAY_MISS: i64 = 10_000_000_000;

/// Squared-length distance from `s1` to the point `(ix, iy)`, rounded
/// down.
pub open spec fn dist_to(s1: Vec2i, ix: int, iy: int) -> int {
    sqrt_val((ix - s1.x) * (ix - s1.x) + (iy - s1.y) * (iy - s1.y))
}

/// Distance from `s1` along the ray segment `s1..s2` to sector `i`'s
/// rails: the nearer of the two rail hits when the ray meets both, one
/// of them when it meets one, else the miss sentinel.
pub open spec fn sector_hit_dist(t: Track, s1: Vec2i, s2: Vec2i, i: int) -> int {
    let n = t.points@.len() as int;
    let j2 = next_idx(n, i);
    let p = t.points@[i];
    let q = t.points@[j2];
    let a = Vec2i { x: (p.x + t.joint_off_x(i)) as i64, y: (p.y + t.joint_off_y(i)) as i64 };
    let b = Vec2i { x: (q.x + t.joint_off_x(j2)) as i64, y: (q.y + t.joint_off_y(j2)) as i64 };
    let c = Vec2i { x: (p.x - t.joint_off_x(i)) as i64, y: (p.y - t.joint_off_y(i)) as i64 };
    let d = Vec2i { x: (q.x - t.joint_off_x(j2)) as i64, y: (q.y - t.joint_off_y(j2)) as i64 };
    let left = if segments_hit(s1, s2, a, b) {
        dist_to(s1, inter_x(s1, s2, a, b), inter_y(s1, s2, a, b))
    } else {
        RAY_MISS as int
    };
    let right = if segments_hit(s1, s2, c, d) {
        dist_to(s1, inter_x(s1, s2, c, d), inter_y(s1, s2, c, d))
    } else {
        RAY_MISS as int
    };
    if left < right {
        left
    } else {
        right
    }
}

/// The least rail distance over the first `k` sectors, starting from
/// the window-width cap (the value reported when nothing nearer is
/// met).
pub open spec fn ray_min_dist(t: Track, s1: Vec2i, s2: Vec2i, k: int) -> int
    decreases k,
{
    if k <= 0 {
        WINDOW_WIDTH as int
    } else {
        let d = sector_hit_dist(t, s1, s2, k - 1);
        let m = ray_min_dist(t, s1, s2, k - 1);
        if d < m {
            d
        } else {
            m
        }
    }
}

/// The far end of a cast ray: five window widths out along `dir`.
pub open spec fn ray_end(c: Vec2i, dir: Vec2i) -> Vec2i {
    Vec2i { x: (c.x + dir.x * 6000) as i64, y: (c.y + dir.y * 6000) as i64 }
}

/// One tick of movement, after scoring, for a car that is not crashed:
/// the three controller outputs (throttle, raw steering, brake, each
/// forced into its channel range — with the sigmoid output layer the
/// raw values already lie inside those ranges, so the clamp is the
/// tolerance for any non-saturating activation, never a change of
/// value) drive, in order, the steering angle,
/// the heading (blended toward `heading + steer` and reduced modulo one
/// turn), the heading vector, the acceleration, the velocity with
/// braking and longitudinal friction scaled by `dt` and the lateral
/// friction applied once unscaled, a saturation of the velocity at its
/// modeled range, and the position, clamped to the window. Inputs are
/// reset to neutral and the sector and lap timers advance.
pub open spec fn physics_spec(c: Car, o0: int, o1: int, o2: int, dt: int) -> Car {
    let throttle = clamp_spec(o0, 0, 1000);
    let steer_cmd = clamp_spec((o1 - 500) * 2, -1000, 1000);
    let brake = clamp_spec(o2, 0, 1000);
    let steer = scale_milli(steer_cmd, Car::STEER_WEIGHT as int);
    let angle = lerp_spec(c.angle as int, c.angle + steer, 6 * dt) % (TWO_PI_MRAD as int);
    let dirx = cos_spec(angle);
    let diry = sin_spec(angle);
    let t_acc = scale_milli(throttle, Car::MAX_ACC as int);
    let ax = scale_milli(dirx, t_acc);
    let ay = scale_milli(diry, t_acc);
    let v1x = c.velocity.x + scale_milli(ax, dt);
    let v1y = c.velocity.y + scale_milli(ay, dt);
    let v2x = v1x + scale_milli(scale_milli(scale_milli(-v1x, brake), Car::BRAKING_FACTOR as int), dt);
    let v2y = v1y + scale_milli(scale_milli(scale_milli(-v1y, brake), Car::BRAKING_FACTOR as int), dt);
    let v3x = v2x + scale_milli(scale_milli(-v2x, FRIC_COEF as int), dt);
    let v3y = v2y + scale_milli(scale_milli(-v2y, FRIC_COEF as int), dt);
    let px = -diry;
    let py = dirx;
    let pl = sqrt_val(px * px + py * py);
    let pnx = if pl == 0 {
        0
    } else {
        tdiv(px * 1000, pl)
    };
    let pny = if pl == 0 {
        0
    } else {
        tdiv(py * 1000, pl)
    };
    let lat = tdiv(v3x * pnx + v3y * pny, 1000);
    let v4x = v3x - scale_milli(scale_milli(lat, pnx), LAT_FRIC_COEF as int);
    let v4y = v3y - scale_milli(scale_milli(lat, pny), LAT_FRIC_COEF as int);
    let v5x = clamp_spec(v4x, -(VEL_LIMIT as int), VEL_LIMIT as int);
    let v5y = clamp_spec(v4y, -(VEL_LIMIT as int), VEL_LIMIT as int);
    let posx = clamp_spec(
        c.position.x + scale_milli(v5x, dt),
        0,
        (WINDOW_WIDTH - Car::HITBOX_WIDTH) as int,
    );
    let posy = clamp_spec(
        c.position.y + scale_milli(v5y, dt),
        0,
        (WINDOW_HEIGHT - Car::HITBOX_HEIGHT) as int,
    );
    Car {
        steer: steer as i64,
        angle: angle as i64,
        direction: Vec2i { x: dirx as i64, y: diry as i64 },
        acceleration: Vec2i { x: ax as i64, y: ay as i64 },
        velocity: Vec2i { x: v5x as i64, y: v5y as i64 },
        position: Vec2i { x: posx as i64, y: posy as i64 },
        accelerator_input: Input { weight: 0i64, ..c.accelerator_input },
        brakes_input: Input { weight: 0i64, ..c.brakes_input },
        steering_input: Input { weight: 0i64, ..c.steering_input },
        timer: sat_fit(c.timer + 1) as i64,
        lap_timer: (if c.lap_timer < u64::MAX {
            c.lap_timer + 1
        } else {
            c.lap_timer as int
        }) as u64,
        ..c
    }
}

/// The speed bonus is never negative and never exceeds its maximum.
pub proof fn lemma_speed_bonus_range(t: int)
    requires
        0 <= t,
    ensures
        0 <= speed_bonus_spec(t) <= SECTOR_SPEED_MULTIPLIER,
{
    if t > 1 {
        assert(t * t >= 1) by (nonlinear_arith)
            requires
                t > 1,
        ;
        vstd::arithmetic::div_mod::lemma_div_pos_is_pos(SECTOR_SPEED_MULTIPLIER as int, t * t);
        vstd::arithmetic::div_mod::lemma_div_is_ordered_by_denominator(
            SECTOR_SPEED_MULTIPLIER as int,
            1,
            t * t,
        );
    }
}

/// While a car is not crashed at the start of a tick and does not move
/// backward — the observed sector neither lies behind the reached one
/// nor crosses the start line in reverse — the scoring step never
/// decreases its fitness. (A backward transition is excluded: its
/// penalty outweighs the survival point.)
pub proof fn lemma_fitness_nondecreasing(c: Car, s: int, n: int)
    requires
        !c.crashed,
        3 <= n,
        0 <= s < n,
        0 <= c.timer,
        abs_i(c.fitness as int) <= FIT_CAP as int,
        c.prev_checkpoint <= s,
        !(c.prev_checkpoint == 0 && s == n - 1),
    ensures
        toll_spec(c, s, n).fitness >= c.fitness,
{
    lemma_speed_bonus_range(c.timer as int);
}

/// A forward transition from sector `k` to `k + 1` awards exactly the
/// sector bonus plus the speed bonus for the sector time; the wrap
/// transition from the last sector to sector 0 awards the speed bonus
/// plus the lap bonus, increments the lap count by one, records the
/// lap time and resets the lap timer. Stated away from the fitness
/// saturation bound, where the accumulation is exact.
pub proof fn lemma_sector_and_lap_awards(c: Car, s: int, n: int)
    requires
        !c.crashed,
        3 <= n,
        0 <= s < n,
        0 <= c.timer,
        c.laps < usize::MAX,
        abs_i(c.fitness as int) <= FIT_CAP - 100_000,
    ensures
        s == c.prev_checkpoint + 1 ==> toll_spec(c, s, n).fitness == c.fitness + 1 + SECTOR_BONUS
            + speed_bonus_spec(c.timer as int),
        (s == 0 && c.prev_checkpoint == n - 1) ==> {
            &&& toll_spec(c, s, n).fitness == c.fitness + 1 + speed_bonus_spec(c.timer as int)
                + LAP_BONUS
            &&& toll_spec(c, s, n).laps == c.laps + 1
            &&& toll_spec(c, s, n).lap_timer == 0
            &&& toll_spec(c, s, n).lap_time == c.lap_timer
            &&& toll_spec(c, s, n).just_lapped
        },
{
    lemma_speed_bonus_range(c.timer as int);
}

/// A crashed car is frozen for the rest of the generation: the scoring
/// step leaves every field, the fitness included, exactly as it was.
pub proof fn lemma_crash_freezes(c: Car, s: int, n: int)
    requires
        c.crashed,
    ensures
        toll_spec(c, s, n) == c,
{
}

/// One driving agent.
pub struct Car {
    pub velocity: Vec2i,
    pub direction: Vec2i,
    pub position: Vec2i,
    pub acceleration: Vec2i,
    pub angle: i64,
    pub steer: i64,
    pub brain: Network,
    pub accelerator_input: Input,
    pub steering_input: Input,
    pub brakes_input: Input,
    pub crashed: bool,
    pub fitness: i64,
    pub number: usize,
    pub just_lapped: bool,
    pub cumulative_speed: i64,
    pub timer: i64,
    pub prev_checkpoint: usize,
    pub laps: usize,
    pub lap_time: u64,
    pub lap_timer: u64,
}

impl Car {
    pub const HITBOX_WIDTH: i64 = 30_000;

    pub const HITBOX_HEIGHT: i64 = 60_000;

    pub const MAX_SPEED: i64 = 350_000;

    pub const MAX_TURNING_ANGLE: i64 = 698;

    pub const MAX_ACC: i64 = 400_000;

    pub const STEER_WEIGHT: i64 = 524;

    pub const MASS: i64 = 40_000;

    pub const BRAKING_FACTOR: i64 = 900;

    /// Physical state in range: position inside the window, velocity,
    /// acceleration, heading and steering bounded, accumulators within
    /// the saturation range.
    pub open spec fn wf(self) -> bool {
        &&& 0 <= self.position.x <= WINDOW_WIDTH
        &&& 0 <= self.position.y <= WINDOW_HEIGHT
        &&& in_box(self.velocity, VEL_LIMIT as int)
        &&& in_box(self.acceleration, Car::MAX_ACC as int)
        &&& in_box(self.direction, 1000)
        &&& 0 <= self.angle < TWO_PI_MRAD
        &&& abs_i(self.steer as int) <= Car::STEER_WEIGHT as int
        &&& abs_i(self.fitness as int) <= FIT_CAP as int
        &&& 0 <= self.cumulative_speed <= FIT_CAP
        &&& 0 <= self.timer <= FIT_CAP
    }

    /// The controller has the shape the sensors and actuators expect:
    /// it consumes the sensor vector and produces the three outputs.
    pub open spec fn brain_ok(self) -> bool {
        &&& self.brain.wf_for(NUM_RAYS + 6)
        &&& self.brain.layers@.len() > 0
        &&& self.brain.layers@.last().out_dim() == 3
    }

    /// Centre of the hitbox.
    pub open spec fn center_spec(self) -> Vec2i {
        Vec2i {
            x: (self.position.x + Car::HITBOX_WIDTH / 2) as i64,
            y: (self.position.y + Car::HITBOX_HEIGHT / 2) as i64,
        }
    }

    /// Centre of the hitbox.
    pub fn center(&self) -> (r: Vec2i)
        requires
            self.wf(),
        ensures
            r == self.center_spec(),
            in_box(r, POINT_LIMIT as int),
    {
        Vec2i { x: self.position.x + Car::HITBOX_WIDTH / 2, y: self.position.y + Car::HITBOX_HEIGHT / 2 }
    }

    /// The index of the track sector whose midpoint is nearest to the
    /// car's centre.
    pub fn get_sector(&self, track: &Track) -> (r: usize)
        requires
            self.wf(),
            track.wf(),
        ensures
            r < track.points@.len(),
            r == track.sector_spec(self.center_spec()),
    {
        track.sector_of(self.center())
    }

    /// The car's centre is within half the track width of its current
    /// sector's line.
    pub fn is_on_track(&self, track: &Track) -> (r: bool)
        requires
            self.wf(),
            track.wf(),
        ensures
            r == track.on_track_at(track.sector_spec(self.center_spec()), self.center_spec()),
    {
        let sector: usize = self.get_sector(track);
        track.check_on_track(sector, self.center())
    }

    /// Scores one tick: survival point, speed accumulation, and the
    /// sector/lap/backward case given by the current sector, exactly as
    /// `toll_spec` states.
    pub fn toll_fitness(&mut self, track: &Track)
        requires
            old(self).wf(),
            track.wf(),
            old(self).prev_checkpoint < track.points@.len(),
        ensures
            *final(self) == toll_spec(
                *old(self),
                track.sector_spec(old(self).center_spec()),
                track.points@.len() as int,
            ),
            final(self).prev_checkpoint < track.points@.len(),
            final(self).wf(),
    {
        if self.crashed {
            return;
        }
        let sector: usize = self.get_sector(track);
        let last: usize = track.get_points().len() - 1;
        let bonus: i64 = speed_bonus(self.timer);
        self.fitness = add_clamped(self.fitness, 1, -FIT_CAP, FIT_CAP);
        let speed: i64 = self.velocity.length();
        self.cumulative_speed = add_clamped(self.cumulative_speed, speed, -FIT_CAP, FIT_CAP);
        if sector == self.prev_checkpoint + 1 {
            self.prev_checkpoint = self.prev_checkpoint + 1;
            self.fitness = add_clamped(self.fitness, SECTOR_BONUS + bonus, -FIT_CAP, FIT_CAP);
            self.timer = 0;
        } else if sector == 0 && self.prev_checkpoint == last {
            self.fitness = add_clamped(self.fitness, bonus + LAP_BONUS, -FIT_CAP, FIT_CAP);
            self.prev_checkpoint = 0;
            self.timer = 0;
            self.lap_time = self.lap_timer;
            self.lap_timer = 0;
            self.just_lapped = true;
            if self.laps < usize::MAX {
                self.laps = self.laps + 1;
            }
        } else if self.prev_checkpoint == 0 && sector == last {
            self.crashed = true;
            self.timer = 0;
            self.prev_checkpoint = last;
            self.fitness = add_clamped(self.fitness, BACK_LAP_PUNISHMENT, -FIT_CAP, FIT_CAP);
        } else if sector < self.prev_checkpoint {
            self.timer = 0;
            self.prev_checkpoint = sector;
            self.fitness = add_clamped(self.fitness, BACK_SECTOR_PUNISHMENT, -FIT_CAP, FIT_CAP);
        }
    }

    /// Marks the car crashed.
    pub fn crashed(&mut self)
        ensures
            *final(self) == (Car { crashed: true, ..*old(self) }),
    {
        self.crashed = true;
    }

    /// The final score of a generation: the accumulated fitness, the
    /// crash penalty if crashed, and the average speed term with
    /// truncating division.
    pub fn get_final_fitness(&self, ticks: u32) -> (r: i64)
        requires
            ticks > 0,
            abs_i(self.fitness as int) <= FIT_CAP as int,
            0 <= self.cumulative_speed <= FIT_CAP,
        ensures
            r == final_fitness_spec(*self, ticks as int),
    {
        let mut fitness: i64 = self.fitness;
        if self.crashed {
            fitness = fitness + CRASH_PUNISHMENT;
        }
        let speed_sum: i64 = self.cumulative_speed / 1000;
        proof {
            vstd::arithmetic::div_mod::lemma_div_pos_is_pos(self.cumulative_speed as int, 1000);
            vstd::arithmetic::div_mod::lemma_div_is_ordered_by_denominator(
                self.cumulative_speed as int,
                1,
                1000,
            );
        }
        let avg_speed: i64 = speed_sum / (ticks as i64);
        proof {
            vstd::arithmetic::div_mod::lemma_div_pos_is_pos(speed_sum as int, ticks as int);
            vstd::arithmetic::div_mod::lemma_div_is_ordered_by_denominator(
                speed_sum as int,
                1,
                ticks as int,
            );
        }
        fitness + avg_speed * AVERAGE_SPEED_FACTOR
    }

    /// Casts one ray from the car's centre along `ray_direction`
    /// (a milli-unit direction vector) and returns the distance to the
    /// nearest rail it meets, capped at the window width.
    pub fn cast_ray(&self, track: &Track, ray_direction: Vec2i) -> (r: i64)
        requires
            self.wf(),
            track.wf(),
            in_box(ray_direction, 1000),
        ensures
            r == ray_min_dist(
                *track,
                self.center_spec(),
                ray_end(self.center_spec(), ray_direction),
                track.points@.len() as int,
            ),
            0 <= r <= WINDOW_WIDTH,
    {
        let s1: Vec2i = self.center();
        let s2: Vec2i = Vec2i {
            x: s1.x + ray_direction.x * 6000,
            y: s1.y + ray_direction.y * 6000,
        };
        let n: usize = track.get_points().len();
        let mut short: i64 = WINDOW_WIDTH;
        let mut i: usize = 0;
        while i < n
            invariant
                i <= n,
                n == track.points@.len(),
                self.wf(),
                track.wf(),
                s1 == self.center_spec(),
                s2 == ray_end(self.center_spec(), ray_direction),
                in_box(s1, POINT_LIMIT as int),
                in_box(s2, 40_000_000),
                short == ray_min_dist(*track, s1, s2, i as int),
                0 <= short <= WINDOW_WIDTH,
            decreases n - i,
        {
            let rails = track.rail_points(i);
            let (a, b, c, d) = rails;
            let left: i64 = match line_intersection(s1, s2, a, b) {
                Option::Some(pt) => pt.minus(s1).length(),
                Option::None => RAY_MISS,
            };
            let right: i64 = match line_intersection(s1, s2, c, d) {
                Option::Some(pt) => pt.minus(s1).length(),
                Option::None => RAY_MISS,
            };
            let dist: i64 = if left < right {
                left
            } else {
                right
            };
            proof {
                assert(dist == sector_hit_dist(*track, s1, s2, i as int));
            }
            if dist < short {
                short = dist;
            }
            i += 1;
        }
        short
    }

    /// The normalized sensor reading of ray `k` of `rays` spread over a
    /// field of view of `fov` milli-degrees centred on the heading: the
    /// rail distance divided by the window width, in milli-units.
    pub open spec fn ray_sample(self, t: Track, fov: int, rays: int, k: int) -> int {
        let fov_mrad = crate::geom::to_rad_spec(fov);
        let a = self.angle - tdiv(fov_mrad, 2) + tdiv(fov_mrad, rays) * k;
        let dir = Vec2i { x: cos_spec(a) as i64, y: sin_spec(a) as i64 };
        tdiv(
            ray_min_dist(
                t,
                self.center_spec(),
                ray_end(self.center_spec(), dir),
                t.points@.len() as int,
            ),
            1200,
        )
    }

    /// Casts `rays` rays evenly spaced across a field of view of `fov`
    /// milli-degrees centred on the heading, each distance normalized
    /// by the window width.
    pub fn cast_rays(&self, rays: usize, fov: i64, track: &Track) -> (r: Vec<i64>)
        requires
            self.wf(),
            track.wf(),
            1 <= rays <= 1000,
            0 <= fov <= 360_000,
        ensures
            r@.len() == rays,
            forall|k: int|
                0 <= k < rays ==> (#[trigger] r@[k]) == self.ray_sample(
                    *track,
                    fov as int,
                    rays as int,
                    k,
                ),
            forall|k: int| 0 <= k < rays ==> 0 <= #[trigger] r@[k] <= 1000,
    {
        let fov_mrad: i64 = to_rad(fov);
        proof {
            lemma_abs_mul_le(fov as int, 3142, 360_000, 3142);
            lemma_tdiv_abs_le((fov as int) * 3142, 180_000, 7000);
            vstd::arithmetic::div_mod::lemma_div_pos_is_pos((fov as int) * 3142, 180_000);
        }
        let start: i64 = self.angle - div_trunc(fov_mrad, 2);
        let step: i64 = div_trunc(fov_mrad, rays as i64);
        proof {
            vstd::arithmetic::div_mod::lemma_div_pos_is_pos(fov_mrad as int, rays as int);
            vstd::arithmetic::div_mod::lemma_div_is_ordered_by_denominator(
                fov_mrad as int,
                1,
                rays as int,
            );
        }
        let mut out: Vec<i64> = Vec::new();
        let mut k: usize = 0;
        while k < rays
            invariant
                k <= rays,
                1 <= rays <= 1000,
                0 <= fov <= 360_000,
                self.wf(),
                track.wf(),
                fov_mrad == crate::geom::to_rad_spec(fov as int),
                0 <= fov_mrad <= 7000,
                start == self.angle - tdiv(fov_mrad as int, 2),
                step == tdiv(fov_mrad as int, rays as int),
                0 <= step <= 7000,
                out@.len() == k,
                forall|j: int|
                    0 <= j < k ==> (#[trigger] out@[j]) == self.ray_sample(
                        *track,
                        fov as int,
                        rays as int,
                        j,
                    ),
                forall|j: int| 0 <= j < k ==> 0 <= #[trigger] out@[j] <= 1000,
            decreases rays - k,
        {
            proof {
                lemma_abs_mul_le(step as int, k as int, 7000, 1000);
            }
            let a: i64 = start + step * (k as i64);
            let dir: Vec2i = dir_of_angle(a);
            let dist: i64 = self.cast_ray(track, dir);
            let val: i64 = div_trunc(dist, 1200);
            proof {
                lemma_tdiv_abs_le(dist as int, 1200, 1000);
            }
            out.push(val);
            k += 1;
        }
        out
    }

    /// The controller's input vector: the normalized ray readings, then
    /// the normalized velocity and acceleration components, the
    /// normalized steering angle, and the sine of the heading.
    pub open spec fn input_vec(self, t: Track) -> Seq<i64> {
        Seq::new(
            NUM_RAYS as nat,
            |k: int| self.ray_sample(t, AI_FOV_MDEG as int, NUM_RAYS as int, k) as i64,
        ).push(tdiv(self.velocity.x as int, 350) as i64).push(
            tdiv(self.velocity.y as int, 350) as i64,
        ).push(tdiv(self.acceleration.x as int, 400) as i64).push(
            tdiv(self.acceleration.y as int, 400) as i64,
        ).push(tdiv(self.steer * 1000, 524) as i64).push(sin_spec(self.angle as int) as i64)
    }

    /// One full tick: score the previous movement (`toll_spec`), stop
    /// if crashed (a crashed car changes no further), otherwise sense,
    /// evaluate the controller and integrate the physics
    /// (`physics_spec`).
    #[verifier::rlimit(100)]
    pub fn update(&mut self, track: &Track, dt: i64)
        requires
            old(self).wf(),
            old(self).brain_ok(),
            track.wf(),
            old(self).prev_checkpoint < track.points@.len(),
            0 < dt <= DT_MAX,
        ensures
            final(self).wf(),
            final(self).prev_checkpoint < track.points@.len(),
            final(self).brain == old(self).brain,
            final(self).brain_ok(),
            final(self).number == old(self).number,
            *final(self) == tick_spec(*old(self), *track, dt as int),
            old(self).crashed ==> *final(self) == (Car { just_lapped: false, ..*old(self) }),
    {
        proof {
            reveal(tick_spec);
        }
        self.just_lapped = false;
        self.toll_fitness(track);
        if self.crashed {
            return;
        }
        let ghost mid: Car = *self;
        let rays: Vec<i64> = self.cast_rays(NUM_RAYS, AI_FOV_MDEG, track);
        let mut inputs: Vec<i64> = rays;
        inputs.push(div_trunc(self.velocity.x, 350));
        inputs.push(div_trunc(self.velocity.y, 350));
        inputs.push(div_trunc(self.acceleration.x, 400));
        inputs.push(div_trunc(self.acceleration.y, 400));
        inputs.push(div_trunc(self.steer * 1000, 524));
        inputs.push(sin_mrad(self.angle));
        proof {
            assert(inputs@ =~= mid.input_vec(*track));
            assert forall|j: int| 0 <= j < inputs@.len() implies abs_i(
                (#[trigger] inputs@[j]) as int,
            ) <= VALUE_LIMIT as int by {
                if j < NUM_RAYS {
                    assert(inputs@[j] == mid.ray_sample(
                        *track,
                        AI_FOV_MDEG as int,
                        NUM_RAYS as int,
                        j,
                    ));
                } else {
                    lemma_tdiv_abs_le(mid.velocity.x as int, 350, VEL_LIMIT as int);
                    lemma_tdiv_abs_le(mid.velocity.y as int, 350, VEL_LIMIT as int);
                    lemma_tdiv_abs_le(mid.acceleration.x as int, 400, Car::MAX_ACC as int);
                    lemma_tdiv_abs_le(mid.acceleration.y as int, 400, Car::MAX_ACC as int);
                    lemma_tdiv_abs_le(mid.steer * 1000, 524, 1_000_000);
                }
            }
        }
        let out: Vec<i64> = self.brain.run(inputs);
        proof {
            crate::network::lemma_net_eval_len(self.brain.layers@, mid.input_vec(*track));
        }
        let throttle: i64 = clamp_i64(out[0], 0, 1000);
        let steer_cmd: i64 = clamp_i64((out[1] - 500) * 2, -1000, 1000);
        let brake: i64 = clamp_i64(out[2], 0, 1000);
        self.accelerator_input.weight = throttle;
        self.steering_input.weight = steer_cmd;
        self.brakes_input.weight = brake;
        self.steer = scale_milli_exec(steer_cmd, Car::STEER_WEIGHT);
        proof {
            lemma_scale_milli_bound(steer_cmd as int, Car::STEER_WEIGHT as int, 1000, 524);
        }
        let a1: i64 = lerp(self.angle, self.angle + self.steer, 6 * dt);
        self.angle = emod(a1, TWO_PI_MRAD);
        self.direction = dir_of_angle(self.angle);
        let t_acc: i64 = scale_milli_exec(throttle, Car::MAX_ACC);
        proof {
            lemma_scale_milli_bound(throttle as int, Car::MAX_ACC as int, 1000, Car::MAX_ACC as int);
        }
        let ax: i64 = scale_milli_exec(self.direction.x, t_acc);
        let ay: i64 = scale_milli_exec(self.direction.y, t_acc);
        proof {
            lemma_scale_milli_bound(self.direction.x as int, t_acc as int, 1000, 400_000);
            lemma_scale_milli_bound(self.direction.y as int, t_acc as int, 1000, 400_000);
        }
        self.acceleration = Vec2i { x: ax, y: ay };
        proof {
            lemma_scale_milli_bound(ax as int, dt as int, 400_000, 1000);
            lemma_scale_milli_bound(ay as int, dt as int, 400_000, 1000);
        }
        let v1x: i64 = self.velocity.x + scale_milli_exec(ax, dt);
        let v1y: i64 = self.velocity.y + scale_milli_exec(ay, dt);
        proof {
            lemma_scale_milli_bound(-v1x as int, brake as int, 10_400_000, 1000);
            lemma_scale_milli_bound(-v1y as int, brake as int, 10_400_000, 1000);
        }
        let b1x: i64 = scale_milli_exec(-v1x, brake);
        let b1y: i64 = scale_milli_exec(-v1y, brake);
        proof {
            lemma_scale_milli_bound(b1x as int, Car::BRAKING_FACTOR as int, 10_400_000, 900);
            lemma_scale_milli_bound(b1y as int, Car::BRAKING_FACTOR as int, 10_400_000, 900);
        }
        let b2x: i64 = scale_milli_exec(b1x, Car::BRAKING_FACTOR);
        let b2y: i64 = scale_milli_exec(b1y, Car::BRAKING_FACTOR);
        proof {
            lemma_scale_milli_bound(b2x as int, dt as int, 9_360_000, 1000);
            lemma_scale_milli_bound(b2y as int, dt as int, 9_360_000, 1000);
        }
        let v2x: i64 = v1x + scale_milli_exec(b2x, dt);
        let v2y: i64 = v1y + scale_milli_exec(b2y, dt);
        proof {
            lemma_scale_milli_bound(-v2x as int, FRIC_COEF as int, 19_760_000, 880);
            lemma_scale_milli_bound(-v2y as int, FRIC_COEF as int, 19_760_000, 880);
        }
        let f1x: i64 = scale_milli_exec(-v2x, FRIC_COEF);
        let f1y: i64 = scale_milli_exec(-v2y, FRIC_COEF);
        proof {
            lemma_scale_milli_bound(f1x as int, dt as int, 17_388_800, 1000);
            lemma_scale_milli_bound(f1y as int, dt as int, 17_388_800, 1000);
        }
        let v3x: i64 = v2x + scale_milli_exec(f1x, dt);
        let v3y: i64 = v2y + scale_milli_exec(f1y, dt);
        let px: i64 = -self.direction.y;
        let py: i64 = self.direction.x;
        let pv = Vec2i { x: px, y: py };
        let pl: i64 = pv.length();
        let pnx: i64;
        let pny: i64;
        if pl == 0 {
            pnx = 0;
            pny = 0;
        } else {
            proof {
                let nsq = (px as int) * (px as int) + (py as int) * (py as int);
                assert(abs_i(px as int) <= pl as int && abs_i(py as int) <= pl as int)
                    by (nonlinear_arith)
                    requires
                        is_sqrt(nsq, pl as int),
                        nsq == (px as int) * (px as int) + (py as int) * (py as int),
                ;
                lemma_abs_mul_le(px as int, 1000, pl as int, 1000);
                lemma_abs_mul_le(py as int, 1000, pl as int, 1000);
                assert((pl as int) * 1000 == 1000 * (pl as int)) by (nonlinear_arith);
                lemma_tdiv_abs_le((px as int) * 1000, pl as int, 1000);
                lemma_tdiv_abs_le((py as int) * 1000, pl as int, 1000);
            }
            pnx = div_trunc(px * 1000, pl);
            pny = div_trunc(py * 1000, pl);
        }
        proof {
            lemma_abs_mul_le(v3x as int, pnx as int, 37_148_800, 1000);
            lemma_abs_mul_le(v3y as int, pny as int, 37_148_800, 1000);
            lemma_tdiv_abs_le(
                (v3x as int) * (pnx as int) + (v3y as int) * (pny as int),
                1000,
                74_297_600,
            );
        }
        let lat: i64 = div_trunc(v3x * pnx + v3y * pny, 1000);
        proof {
            lemma_scale_milli_bound(lat as int, pnx as int, 74_297_600, 1000);
            lemma_scale_milli_bound(lat as int, pny as int, 74_297_600, 1000);
        }
        let lvx: i64 = scale_milli_exec(lat, pnx);
        let lvy: i64 = scale_milli_exec(lat, pny);
        proof {
            lemma_scale_milli_bound(lvx as int, LAT_FRIC_COEF as int, 74_297_600, 50);
            lemma_scale_milli_bound(lvy as int, LAT_FRIC_COEF as int, 74_297_600, 50);
        }
        let v4x: i64 = v3x - scale_milli_exec(lvx, LAT_FRIC_COEF);
        let v4y: i64 = v3y - scale_milli_exec(lvy, LAT_FRIC_COEF);
        let v5x: i64 = clamp_i64(v4x, -VEL_LIMIT, VEL_LIMIT);
        let v5y: i64 = clamp_i64(v4y, -VEL_LIMIT, VEL_LIMIT);
        self.velocity = Vec2i { x: v5x, y: v5y };
        proof {
            lemma_scale_milli_bound(v5x as int, dt as int, VEL_LIMIT as int, 1000);
            lemma_scale_milli_bound(v5y as int, dt as int, VEL_LIMIT as int, 1000);
        }
        let sx: i64 = scale_milli_exec(v5x, dt);
        let sy: i64 = scale_milli_exec(v5y, dt);
        let npx: i64 = self.position.x + sx;
        let npy: i64 = self.position.y + sy;
        self.update_pos(npx, npy);
        self.accelerator_input.weight = 0;
        self.brakes_input.weight = 0;
        self.steering_input.weight = 0;
        self.timer = add_clamped(self.timer, 1, -FIT_CAP, FIT_CAP);
        if self.lap_timer < u64::MAX {
            self.lap_timer = self.lap_timer + 1;
        }
        proof {
            let outs = net_eval(old(self).brain.layers@, mid.input_vec(*track));
            assert(out@ == outs);
            assert(*self == physics_spec(mid, outs[0] as int, outs[1] as int, outs[2] as int, dt as int));
        }
    }

    /// Moves the car, keeping it inside the window.
    pub fn update_pos(&mut self, x: i64, y: i64)
        ensures
            *final(self) == (Car {
                position: Vec2i {
                    x: clamp_spec(x as int, 0, (WINDOW_WIDTH - Car::HITBOX_WIDTH) as int) as i64,
                    y: clamp_spec(y as int, 0, (WINDOW_HEIGHT - Car::HITBOX_HEIGHT) as int) as i64,
                },
                ..*old(self)
            }),
    {
        let cx: i64 = clamp_i64(x, 0, WINDOW_WIDTH - Car::HITBOX_WIDTH);
        let cy: i64 = clamp_i64(y, 0, WINDOW_HEIGHT - Car::HITBOX_HEIGHT);
        self.position = Vec2i { x: cx, y: cy };
    }

    /// Returns the car to a starting state at `position`: at rest,
    /// heading zero, inputs neutral, not crashed. Fitness, timers and
    /// lap statistics are left as they are.
    pub fn reset(&mut self, position: Vec2i)
        requires
            in_box(position, POINT_LIMIT as int),
        ensures
            *final(self) == (Car {
                position: Vec2i {
                    x: clamp_spec(
                        position.x as int,
                        0,
                        (WINDOW_WIDTH - Car::HITBOX_WIDTH) as int,
                    ) as i64,
                    y: clamp_spec(
                        position.y as int,
                        0,
                        (WINDOW_HEIGHT - Car::HITBOX_HEIGHT) as int,
                    ) as i64,
                },
                acceleration: Vec2i { x: 0i64, y: 0i64 },
                velocity: Vec2i { x: 0i64, y: 0i64 },
                angle: 0i64,
                steer: 0i64,
                direction: Vec2i { x: 0i64, y: 0i64 },
                accelerator_input: Input { weight: 0i64, ..old(self).accelerator_input },
                brakes_input: Input { weight: 0i64, ..old(self).brakes_input },
                steering_input: Input { weight: 0i64, ..old(self).steering_input },
                crashed: false,
                ..*old(self)
            }),
    {
        self.acceleration = Vec2i { x: 0, y: 0 };
        self.velocity = Vec2i { x: 0, y: 0 };
        self.angle = 0;
        self.steer = 0;
        self.direction = Vec2i { x: 0, y: 0 };
        self.accelerator_input.weight = 0;
        self.brakes_input.weight = 0;
        self.steering_input.weight = 0;
        self.update_pos(position.x, position.y);
        self.crashed = false;
    }

    /// A fresh car at `start_pos` with the standard controller: three
    /// hidden layers without activation and a sigmoid output layer,
    /// all parameters random.
    pub fn new(start_pos: Vec2i, number: usize) -> (r: Car)
        requires
            in_box(start_pos, POINT_LIMIT as int),
        ensures
            r.wf(),
            r.brain_ok(),
            std_brain(r.brain),
            r.position.x == clamp_spec(
                start_pos.x - Car::HITBOX_WIDTH / 2,
                0,
                (WINDOW_WIDTH - Car::HITBOX_WIDTH) as int,
            ),
            r.position.y == clamp_spec(
                start_pos.y - Car::HITBOX_HEIGHT / 2,
                0,
                (WINDOW_HEIGHT - Car::HITBOX_HEIGHT) as int,
            ),
            r.velocity == (Vec2i { x: 0i64, y: 0i64 }),
            r.acceleration == (Vec2i { x: 0i64, y: 0i64 }),
            r.angle == 0,
            r.steer == 0,
            r.direction.x == cos_spec(0),
            r.direction.y == sin_spec(0),
            !r.crashed,
            r.fitness == 0,
            r.number == number,
            !r.just_lapped,
            r.cumulative_speed == 0,
            r.timer == 0,
            r.prev_checkpoint == 0,
            r.laps == 0,
            r.lap_time == 0,
            r.lap_timer == 0,
    {
        let l1 = Layer::new_random(6 + NUM_RAYS, 12, Activation::Identity);
        let l2 = Layer::new_random(12, 8, Activation::Identity);
        let l3 = Layer::new_random(8, 5, Activation::Identity);
        let l4 = Layer::new_random(5, 3, Activation::Sigmoid);
        let ghost gl1 = l1;
        let ghost gl2 = l2;
        let ghost gl3 = l3;
        let ghost gl4 = l4;
        let brain = Network::new_empty().add_layer(l1).add_layer(l2).add_layer(l3).add_layer(l4);
        proof {
            let s = brain.layers@;
            assert(s.len() == 4);
            assert(s[0] == gl1 && s[1] == gl2 && s[2] == gl3 && s[3] == gl4);
            assert(s.drop_first() =~= seq![gl2, gl3, gl4]);
            assert(seq![gl2, gl3, gl4].drop_first() =~= seq![gl3, gl4]);
            assert(seq![gl3, gl4].drop_first() =~= seq![gl4]);
            assert(seq![gl4].drop_first() =~= Seq::<Layer>::empty());
            assert(crate::network::wf_chain(Seq::<Layer>::empty(), 3));
            assert(crate::network::wf_chain(seq![gl4], 5));
            assert(crate::network::wf_chain(seq![gl3, gl4], 8));
            assert(crate::network::wf_chain(seq![gl2, gl3, gl4], 12));
            assert(crate::network::wf_chain(s, 6 + NUM_RAYS as int));
            assert(s.last() == gl4);
        }
        let mut car = Car {
            position: Vec2i { x: 0, y: 0 },
            velocity: Vec2i { x: 0, y: 0 },
            direction: Vec2i { x: 0, y: 0 },
            acceleration: Vec2i { x: 0, y: 0 },
            angle: 0,
            steer: 0,
            brain,
            accelerator_input: Input::new_default(),
            brakes_input: Input::new_default(),
            steering_input: Input { min: -1000, max: 1000, weight: 0, default: 0 },
            crashed: false,
            fitness: 0,
            number,
            just_lapped: false,
            cumulative_speed: 0,
            timer: 0,
            prev_checkpoint: 0,
            laps: 0,
            lap_timer: 0,
            lap_time: 0,
        };
        car.update_pos(start_pos.x - Car::HITBOX_WIDTH / 2, start_pos.y - Car::HITBOX_HEIGHT / 2);
        car.direction = dir_of_angle(car.angle);
        car
    }
}

/// The complete tick relation of one car: the lap flag cleared; a
/// crashed car otherwise untouched; otherwise the scoring step
/// (`toll_spec`) at the observed sector, then — unless that step
/// crashed the car — the controller evaluated on the sensed input
/// vector and the physics integrated (`physics_spec`).
#[verifier::opaque]
pub open spec fn tick_spec(c: Car, t: Track, dt: int) -> Car {
    let c0 = Car { just_lapped: false, ..c };
    if c.crashed {
        c0
    } else {
        let mid = toll_spec(c0, t.sector_spec(c.center_spec()), t.points@.len() as int);
        if mid.crashed {
            mid
        } else {
            let outs = net_eval(c.brain.layers@, mid.input_vec(t));
            physics_spec(mid, outs[0] as int, outs[1] as int, outs[2] as int, dt)
        }
    }
}

/// The off-track check applied after a tick: a car whose perpendicular
/// distance to its current sector's line exceeds half the width is
/// marked crashed; any other car is untouched.
#[verifier::opaque]
pub open spec fn mark_off_track(c: Car, t: Track) -> Car {
    if t.on_track_at(t.sector_spec(c.center_spec()), c.center_spec()) {
        c
    } else {
        Car { crashed: true, ..c }
    }
}

} // verus!
