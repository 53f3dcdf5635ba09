//! The track model: a closed polyline of waypoints with a width, the
//! sector (nearest-segment) query, the perpendicular off-track test, and
//! the boundary rails derived from averaged corner normals.

use crate::geom::{abs_i, clamp_spec, div_trunc, div_trunc_i128, is_sqrt, lemma_abs_mul_le,
    lemma_sqrt_unique, lemma_tdiv_abs_le, sqrt_val, tdiv, in_box, Vec2i};
use vstd::prelude::*;

verus! {

/// Largest accepted number of waypoints.
pub const MAX_POINTS: usize = 1000;

/// Magnitude bound on waypoint coordinates, in milli-pixels.
pub const POINT_LIMIT: i64 = 10_000_000;

/// Largest accepted track width, in milli-pixels.
pub const WIDTH_LIMIT: i64 = 1_000_000;

/// A closed track: waypoint `i` connects to waypoint `(i+1) mod N` to
/// form sector `i`. Immutable after construction.
pub struct Track {
    pub points: Vec<Vec2i>,
    pub width: i64,
}

/// Index of the waypoint after `i` on the closed loop of `n` points.
pub open spec fn next_idx(n: int, i: int) -> int {
    if i + 1 == n {
        0
    } else {
        i + 1
    }
}

/// Index of the waypoint before `i` on the closed loop of `n` points.
pub open spec fn prev_idx(n: int, i: int) -> int {
    if i == 0 {
        n - 1
    } else {
        i - 1
    }
}

/// X component of the vector `(nx, ny)` rescaled to length `s`, with
/// truncating division by the rounded-down length; zero when the vector
/// vanishes.
pub open spec fn scaled_x(nx: int, ny: int, s: int) -> int {
    let l = sqrt_val(nx * nx + ny * ny);
    if l == 0 {
        0
    } else {
        tdiv(nx * s, l)
    }
}

/// Y component of the vector `(nx, ny)` rescaled to length `s`.
pub open spec fn scaled_y(nx: int, ny: int, s: int) -> int {
    let l = sqrt_val(nx * nx + ny * ny);
    if l == 0 {
        0
    } else {
        tdiv(ny * s, l)
    }
}

/// The averaged normal of the two joint directions, scaled to length
/// `s`: the offset from a waypoint to its rail points.
fn joint_offset(d1: Vec2i, d2: Vec2i, s: i64) -> (r: Vec2i)
    requires
        in_box(d1, 20_000_000),
        in_box(d2, 20_000_000),
        0 <= s <= 500_000,
    ensures
        r.x == scaled_x(tdiv(-d1.y - d2.y, 2), tdiv(d1.x + d2.x, 2), s as int),
        r.y == scaled_y(tdiv(-d1.y - d2.y, 2), tdiv(d1.x + d2.x, 2), s as int),
        in_box(r, s as int),
{
    let nx: i64 = div_trunc(-d1.y - d2.y, 2);
    let ny: i64 = div_trunc(d1.x + d2.x, 2);
    let nv = Vec2i { x: nx, y: ny };
    let l: i64 = nv.length();
    if l == 0 {
        Vec2i { x: 0, y: 0 }
    } else {
        proof {
            let nsq = (nx as int) * (nx as int) + (ny as int) * (ny as int);
            assert(is_sqrt(nsq, l as int));
            assert(abs_i(nx as int) <= l as int && abs_i(ny as int) <= l as int)
                by (nonlinear_arith)
                requires
                    is_sqrt(nsq, l as int),
                    nsq == (nx as int) * (nx as int) + (ny as int) * (ny as int),
            ;
            lemma_abs_mul_le(nx as int, s as int, l as int, s as int);
            lemma_abs_mul_le(ny as int, s as int, l as int, s as int);
            assert((l as int) * (s as int) == (s as int) * (l as int)) by (nonlinear_arith);
            lemma_tdiv_abs_le((nx as int) * (s as int), l as int, s as int);
            lemma_tdiv_abs_le((ny as int) * (s as int), l as int, s as int);
            lemma_abs_mul_le(nx as int, s as int, 40_000_000, 500_000);
            lemma_abs_mul_le(ny as int, s as int, 40_000_000, 500_000);
        }
        Vec2i { x: div_trunc(nx * s, l), y: div_trunc(ny * s, l) }
    }
}

impl Track {
    /// A valid track: between 3 and `MAX_POINTS` waypoints, all within
    /// the coordinate range, and a positive width within range.
    pub open spec fn wf(self) -> bool {
        &&& 3 <= self.points@.len() <= MAX_POINTS
        &&& forall|i: int|
            0 <= i < self.points@.len() ==> in_box(#[trigger] self.points@[i], POINT_LIMIT as int)
        &&& 0 < self.width <= WIDTH_LIMIT
    }

    /// Builds a track, rejecting invalid input: fewer than 3 waypoints,
    /// out-of-range coordinates, or a width out of range.
    pub fn new(points: Vec<Vec2i>, width: i64) -> (r: Option<Track>)
        ensures
            r is Some <==> (Track { points, width }).wf(),
            r matches Some(t) ==> t.points == points && t.width == width && t.wf(),
    {
        if points.len() < 3 || points.len() > MAX_POINTS || width <= 0 || width > WIDTH_LIMIT {
            return None;
        }
        let mut i: usize = 0;
        let n: usize = points.len();
        while i < n
            invariant
                i <= n,
                n == points@.len(),
                forall|k: int| 0 <= k < i ==> in_box(#[trigger] points@[k], POINT_LIMIT as int),
            decreases n - i,
        {
            let p = points[i];
            if p.x < -POINT_LIMIT || p.x > POINT_LIMIT || p.y < -POINT_LIMIT || p.y > POINT_LIMIT {
                return None;
            }
            i += 1;
        }
        Some(Track { points, width })
    }

    /// The waypoints.
    pub fn get_points(&self) -> (r: &Vec<Vec2i>)
        ensures
            r@ == self.points@,
    {
        &self.points
    }

    /// The track width, in milli-pixels.
    pub fn get_width(&self) -> (r: i64)
        ensures
            r == self.width,
    {
        self.width
    }

    /// X coordinate of the start position: the midpoint of the first
    /// two waypoints.
    pub open spec fn start_x(self) -> int {
        tdiv(self.points@[0].x + self.points@[1].x, 2)
    }

    /// Y coordinate of the start position.
    pub open spec fn start_y(self) -> int {
        tdiv(self.points@[0].y + self.points@[1].y, 2)
    }

    /// Where a run starts: the midpoint of the first two waypoints.
    pub fn get_start_pos(&self) -> (r: Vec2i)
        requires
            self.wf(),
        ensures
            r.x == self.start_x(),
            r.y == self.start_y(),
            in_box(r, POINT_LIMIT as int),
    {
        proof {
            lemma_tdiv_abs_le(self.points@[0].x + self.points@[1].x, 2, POINT_LIMIT as int);
            lemma_tdiv_abs_le(self.points@[0].y + self.points@[1].y, 2, POINT_LIMIT as int);
        }
        self.points[0].midpoint(self.points[1])
    }

    /// Squared distance from `c` to the midpoint of sector `i`.
    pub open spec fn mid_dist_sq(self, i: int, c: Vec2i) -> int {
        let n = self.points@.len() as int;
        let p = self.points@[i];
        let q = self.points@[next_idx(n, i)];
        let mx = tdiv(p.x + q.x, 2);
        let my = tdiv(p.y + q.y, 2);
        (mx - c.x) * (mx - c.x) + (my - c.y) * (my - c.y)
    }

    /// First index among the first `n` sectors whose midpoint distance
    /// to `c` is minimal: the linear scan keeps the earlier index on a
    /// tie.
    pub open spec fn first_best(self, c: Vec2i, n: int) -> int
        decreases n,
    {
        if n <= 1 {
            0
        } else {
            let b = self.first_best(c, n - 1);
            if self.mid_dist_sq(n - 1, c) < self.mid_dist_sq(b, c) {
                n - 1
            } else {
                b
            }
        }
    }

    /// The sector of a point: the index of the nearest sector midpoint,
    /// ties resolved in favour of the smallest index.
    pub open spec fn sector_spec(self, c: Vec2i) -> int {
        self.first_best(c, self.points@.len() as int)
    }

    /// The index of the sector whose midpoint is nearest to `c`, ties
    /// resolved in favour of the smallest index.
    pub fn sector_of(&self, c: Vec2i) -> (r: usize)
        requires
            self.wf(),
            in_box(c, POINT_LIMIT as int),
        ensures
            r < self.points@.len(),
            r == self.sector_spec(c),
            forall|i: int|
                0 <= i < self.points@.len() ==> self.mid_dist_sq(r as int, c) <= #[trigger] self
                    .mid_dist_sq(i, c),
            forall|i: int|
                0 <= i < r ==> self.mid_dist_sq(r as int, c) < #[trigger] self.mid_dist_sq(i, c),
    {
        let n: usize = self.points.len();
        let mut best: usize = 0;
        let mut best_d: i128 = self.mid_dist_sq_exec(0, c);
        let mut i: usize = 1;
        while i < n
            invariant
                1 <= i <= n,
                n == self.points@.len(),
                self.wf(),
                in_box(c, POINT_LIMIT as int),
                best < i,
                best == self.first_best(c, i as int),
                best_d == self.mid_dist_sq(best as int, c),
                forall|k: int| 0 <= k < i ==> best_d <= #[trigger] self.mid_dist_sq(k, c),
                forall|k: int| 0 <= k < best ==> best_d < #[trigger] self.mid_dist_sq(k, c),
            decreases n - i,
        {
            let d: i128 = self.mid_dist_sq_exec(i, c);
            if d < best_d {
                best = i;
                best_d = d;
            }
            i += 1;
        }
        best
    }

    /// Computes the squared midpoint distance of sector `i` exactly.
    fn mid_dist_sq_exec(&self, i: usize, c: Vec2i) -> (r: i128)
        requires
            self.wf(),
            i < self.points@.len(),
            in_box(c, POINT_LIMIT as int),
        ensures
            r == self.mid_dist_sq(i as int, c),
    {
        let n: usize = self.points.len();
        let p: Vec2i = self.points[i];
        let q: Vec2i = self.points[if i + 1 == n {
            0
        } else {
            i + 1
        }];
        let m: Vec2i = p.midpoint(q);
        let d: Vec2i = m.minus(c);
        d.len_sq()
    }

    /// `c` is on the track with respect to sector `i`: its perpendicular
    /// distance to the infinite line through the sector's endpoints is at
    /// most half the width. Stated without square roots: the squared
    /// cross product against the squared bound. A degenerate sector
    /// (coincident endpoints) counts as on-track.
    pub open spec fn on_track_at(self, i: int, c: Vec2i) -> bool {
        let n = self.points@.len() as int;
        let p = self.points@[i];
        let q = self.points@[next_idx(n, i)];
        let dx = q.x - p.x;
        let dy = q.y - p.y;
        let cr = dx * (c.y - p.y) - dy * (c.x - p.x);
        let hw = tdiv(self.width as int, 2);
        cr * cr <= hw * hw * (dx * dx + dy * dy)
    }

    /// X component of the averaged-normal rail offset at waypoint `j`:
    /// the normals of the two adjacent segments averaged (smoothing the
    /// rail across the corner), then scaled to half the track width.
    pub open spec fn joint_off_x(self, j: int) -> int {
        let n = self.points@.len() as int;
        let p = self.points@[j];
        let pr = self.points@[prev_idx(n, j)];
        let q = self.points@[next_idx(n, j)];
        scaled_x(
            tdiv(-(p.y - pr.y) - (q.y - p.y), 2),
            tdiv((p.x - pr.x) + (q.x - p.x), 2),
            tdiv(self.width as int, 2),
        )
    }

    /// Y component of the averaged-normal rail offset at waypoint `j`.
    pub open spec fn joint_off_y(self, j: int) -> int {
        let n = self.points@.len() as int;
        let p = self.points@[j];
        let pr = self.points@[prev_idx(n, j)];
        let q = self.points@[next_idx(n, j)];
        scaled_y(
            tdiv(-(p.y - pr.y) - (q.y - p.y), 2),
            tdiv((p.x - pr.x) + (q.x - p.x), 2),
            tdiv(self.width as int, 2),
        )
    }

    /// The four rail endpoints of sector `i`: the left rail `A..B` and
    /// the right rail `C..D`, each waypoint offset along its averaged
    /// normal by half the width, in opposite senses.
    #[verifier::rlimit(60)]
    pub fn rail_points(&self, i: usize) -> (r: (Vec2i, Vec2i, Vec2i, Vec2i))
        requires
            self.wf(),
            i < self.points@.len(),
        ensures
            ({
                let n = self.points@.len() as int;
                let p = self.points@[i as int];
                let q = self.points@[next_idx(n, i as int)];
                let j2 = next_idx(n, i as int);
                &&& r.0.x == p.x + self.joint_off_x(i as int)
                &&& r.0.y == p.y + self.joint_off_y(i as int)
                &&& r.1.x == q.x + self.joint_off_x(j2)
                &&& r.1.y == q.y + self.joint_off_y(j2)
                &&& r.2.x == p.x - self.joint_off_x(i as int)
                &&& r.2.y == p.y - self.joint_off_y(i as int)
                &&& r.3.x == q.x - self.joint_off_x(j2)
                &&& r.3.y == q.y - self.joint_off_y(j2)
                &&& in_box(r.0, 11_000_000)
                &&& in_box(r.1, 11_000_000)
                &&& in_box(r.2, 11_000_000)
                &&& in_box(r.3, 11_000_000)
            }),
    {
        let n: usize = self.points.len();
        let p: Vec2i = self.points[i];
        let pr: Vec2i = self.points[if i == 0 {
            n - 1
        } else {
            i - 1
        }];
        let jn: usize = if i + 1 == n {
            0
        } else {
            i + 1
        };
        let q: Vec2i = self.points[jn];
        let nn: Vec2i = self.points[if jn + 1 == n {
            0
        } else {
            jn + 1
        }];
        let hw: i64 = self.width / 2;
        let off_p: Vec2i = joint_offset(p.minus(pr), q.minus(p), hw);
        let off_q: Vec2i = joint_offset(q.minus(p), nn.minus(q), hw);
        (p.plus(off_p), q.plus(off_q), p.minus(off_p), q.minus(off_q))
    }

    /// Decides the perpendicular off-track test for sector `i`.
    pub fn check_on_track(&self, i: usize, c: Vec2i) -> (r: bool)
        requires
            self.wf(),
            i < self.points@.len(),
            in_box(c, POINT_LIMIT as int),
        ensures
            r == self.on_track_at(i as int, c),
    {
        let n: usize = self.points.len();
        let p: Vec2i = self.points[i];
        let q: Vec2i = self.points[if i + 1 == n {
            0
        } else {
            i + 1
        }];
        let d: Vec2i = q.minus(p);
        let e: Vec2i = c.minus(p);
        let cr: i128 = d.cross(e);
        let hw: i64 = self.width / 2;
        let ls: i128 = d.len_sq();
        proof {
            lemma_abs_mul_le(d.x as int, e.y as int, 20_000_000, 20_000_000);
            lemma_abs_mul_le(d.y as int, e.x as int, 20_000_000, 20_000_000);
            lemma_abs_mul_le(cr as int, cr as int, 800_000_000_000_000, 800_000_000_000_000);
            lemma_abs_mul_le(d.x as int, d.x as int, 20_000_000, 20_000_000);
            lemma_abs_mul_le(d.y as int, d.y as int, 20_000_000, 20_000_000);
            lemma_abs_mul_le(hw as int, hw as int, 500_000, 500_000);
            lemma_abs_mul_le(
                (hw as int) * (hw as int),
                ls as int,
                250_000_000_000,
                800_000_000_000_000,
            );
        }
        let lhs: i128 = cr * cr;
        let rhs: i128 = (hw as i128) * (hw as i128) * ls;
        lhs <= rhs
    }
}

} // verus!
