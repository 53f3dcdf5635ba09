//! Fixed-point plane geometry: vectors in milli-pixels, truncating division,
//! integer square roots, a quadratic sine approximation, and segment
//! intersection. Everything is exact integer arithmetic; each function's
//! contract states the value it computes.

use vstd::prelude::*;

verus! {

/// One half turn, in milliradians.
pub const PI_MRAD: i64 = 3142;

/// One full turn, in milliradians.
pub const TWO_PI_MRAD: i64 = 6284;

/// Magnitude of an integer.
pub open spec fn abs_i(a: int) -> int {
    if a >= 0 {
        a
    } else {
        -a
    }
}

/// Division truncating toward zero, as Rust's `/` on signed integers does
/// (spec-level `/` is Euclidean, which differs on negative operands).
pub open spec fn tdiv(a: int, d: int) -> int {
    if (a >= 0) == (d >= 0) {
        abs_i(a) / abs_i(d)
    } else {
        -(abs_i(a) / abs_i(d))
    }
}

/// `v` forced into the interval `[lo, hi]`.
pub open spec fn clamp_spec(v: int, lo: int, hi: int) -> int {
    if v < lo {
        lo
    } else if v > hi {
        hi
    } else {
        v
    }
}

/// Truncating division of an `i64` by a positive divisor.
pub fn div_trunc(a: i64, d: i64) -> (r: i64)
    requires
        d > 0,
        a > i64::MIN,
    ensures
        r == tdiv(a as int, d as int),
        abs_i(r as int) <= abs_i(a as int),
{
    if a >= 0 {
        a / d
    } else {
        -((-a) / d)
    }
}

/// Truncating division of an `i128` by a nonzero divisor.
pub fn div_trunc_i128(a: i128, d: i128) -> (r: i128)
    requires
        d != 0,
        a > i128::MIN,
        d > i128::MIN,
    ensures
        r == tdiv(a as int, d as int),
        abs_i(r as int) <= abs_i(a as int),
{
    let an: i128 = if a >= 0 {
        a
    } else {
        -a
    };
    let dn: i128 = if d >= 0 {
        d
    } else {
        -d
    };
    let q: i128 = an / dn;
    if (a >= 0) == (d >= 0) {
        q
    } else {
        -q
    }
}

/// Sum of two values, clamped into `[lo, hi]`; used where an accumulator
/// saturates at the edge of its modeled range instead of overflowing.
pub fn add_clamped(a: i64, b: i64, lo: i64, hi: i64) -> (r: i64)
    requires
        lo <= hi,
    ensures
        r == clamp_spec(a + b, lo as int, hi as int),
{
    let s: i128 = a as i128 + b as i128;
    if s < lo as i128 {
        lo
    } else if s > hi as i128 {
        hi
    } else {
        s as i64
    }
}

/// `v` forced into the interval `[lo, hi]`.
pub fn clamp_i64(v: i64, lo: i64, hi: i64) -> (r: i64)
    requires
        lo <= hi,
    ensures
        r == clamp_spec(v as int, lo as int, hi as int),
{
    if v < lo {
        lo
    } else if v > hi {
        hi
    } else {
        v
    }
}

/// The magnitude of a product is bounded by the product of the bounds.
pub proof fn lemma_abs_mul_le(a: int, b: int, m: int, n: int)
    requires
        abs_i(a) <= m,
        abs_i(b) <= n,
    ensures
        abs_i(a * b) <= m * n,
{
    assert(abs_i(a * b) <= m * n) by (nonlinear_arith)
        requires
            abs_i(a) <= m,
            abs_i(b) <= n,
    ;
}

/// Truncating division by `d` of a value bounded by `bound * d` is bounded
/// by `bound`.
pub proof fn lemma_tdiv_abs_le(a: int, d: int, bound: int)
    requires
        d != 0,
        0 <= bound,
        abs_i(a) <= bound * abs_i(d),
    ensures
        abs_i(tdiv(a, d)) <= bound,
{
    let dd = abs_i(d);
    assert(bound * dd == dd * bound) by (nonlinear_arith);
    vstd::arithmetic::div_mod::lemma_div_is_ordered(abs_i(a), dd * bound, dd);
    vstd::arithmetic::div_mod::lemma_div_multiples_vanish(bound, dd);
}

/// `r` is the integer square root of `n`.
pub open spec fn is_sqrt(n: int, r: int) -> bool {
    &&& 0 <= r
    &&& r * r <= n
    &&& n < (r + 1) * (r + 1)
}

/// The integer square root (unique, by `lemma_sqrt_unique`).
pub open spec fn sqrt_val(n: int) -> int {
    choose|r: int| is_sqrt(n, r)
}

/// Two integer square roots of the same value are equal.
pub proof fn lemma_sqrt_unique(n: int, a: int, b: int)
    requires
        is_sqrt(n, a),
        is_sqrt(n, b),
    ensures
        a == b,
{
    if a < b {
        assert((a + 1) * (a + 1) <= b * b) by (nonlinear_arith)
            requires
                0 <= a,
                a + 1 <= b,
        ;
    }
    if b < a {
        assert((b + 1) * (b + 1) <= a * a) by (nonlinear_arith)
            requires
                0 <= b,
                b + 1 <= a,
        ;
    }
}

/// Floor of the square root of `n`, by bisection.
pub fn isqrt(n: u64) -> (r: u64)
    ensures
        is_sqrt(n as int, r as int),
        r == sqrt_val(n as int),
{
    let mut lo: u64 = 0;
    let mut hi: u64 = 4294967296;
    while lo + 1 < hi
        invariant
            lo < hi <= 4294967296,
            (lo as int) * (lo as int) <= n as int,
            n < 18446744073709551616,
            (hi as int) * (hi as int) > n as int || hi == 4294967296,
        decreases hi - lo,
    {
        let mid: u64 = lo + (hi - lo) / 2;
        proof {
            lemma_abs_mul_le(mid as int, mid as int, 4294967296, 4294967296);
        }
        let sq: u128 = (mid as u128) * (mid as u128);
        if sq <= n as u128 {
            lo = mid;
        } else {
            hi = mid;
        }
    }
    proof {
        if hi == 4294967296 && !((hi as int) * (hi as int) > n as int) {
            assert((4294967296 as int) * (4294967296 as int) > n as int);
        }
        assert(is_sqrt(n as int, lo as int));
        lemma_sqrt_unique(n as int, lo as int, sqrt_val(n as int));
    }
    lo
}

/// A point or displacement of the plane, in milli-pixels.
#[derive(Clone, Copy, PartialEq, Eq, Structural, Debug)]
pub struct Vec2i {
    pub x: i64,
    pub y: i64,
}

/// Coordinates no larger than this take part in geometric computations;
/// it leaves ample headroom over the arena (a window of 1200 by 800
/// pixels, i.e. 1_200_000 by 800_000 milli-pixels).
pub const COORD_LIMIT: i64 = 100_000_000_000;

/// Both coordinates of `v` are at most `bound` in magnitude.
pub open spec fn in_box(v: Vec2i, bound: int) -> bool {
    &&& abs_i(v.x as int) <= bound
    &&& abs_i(v.y as int) <= bound
}

impl Vec2i {
    pub fn new(x: i64, y: i64) -> (r: Vec2i)
        ensures
            r.x == x,
            r.y == y,
    {
        Vec2i { x, y }
    }

    pub fn plus(self, o: Vec2i) -> (r: Vec2i)
        requires
            in_box(self, COORD_LIMIT as int),
            in_box(o, COORD_LIMIT as int),
        ensures
            r.x == self.x + o.x,
            r.y == self.y + o.y,
    {
        Vec2i { x: self.x + o.x, y: self.y + o.y }
    }

    pub fn minus(self, o: Vec2i) -> (r: Vec2i)
        requires
            in_box(self, COORD_LIMIT as int),
            in_box(o, COORD_LIMIT as int),
        ensures
            r.x == self.x - o.x,
            r.y == self.y - o.y,
    {
        Vec2i { x: self.x - o.x, y: self.y - o.y }
    }

    /// Midpoint with coordinates truncated toward zero.
    pub fn midpoint(self, o: Vec2i) -> (r: Vec2i)
        requires
            in_box(self, COORD_LIMIT as int),
            in_box(o, COORD_LIMIT as int),
        ensures
            r.x == tdiv(self.x + o.x, 2),
            r.y == tdiv(self.y + o.y, 2),
    {
        Vec2i { x: div_trunc(self.x + o.x, 2), y: div_trunc(self.y + o.y, 2) }
    }

    /// Squared Euclidean length, exact.
    pub fn len_sq(self) -> (r: i128)
        requires
            in_box(self, COORD_LIMIT as int),
        ensures
            r == (self.x as int) * (self.x as int) + (self.y as int) * (self.y as int),
    {
        proof {
            lemma_abs_mul_le(self.x as int, self.x as int, COORD_LIMIT as int, COORD_LIMIT as int);
            lemma_abs_mul_le(self.y as int, self.y as int, COORD_LIMIT as int, COORD_LIMIT as int);
        }
        (self.x as i128) * (self.x as i128) + (self.y as i128) * (self.y as i128)
    }

    /// Euclidean length rounded down to an integer.
    pub fn length(self) -> (r: i64)
        requires
            in_box(self, 3_000_000_000),
        ensures
            is_sqrt((self.x as int) * (self.x as int) + (self.y as int) * (self.y as int), r as int),
            r == sqrt_val((self.x as int) * (self.x as int) + (self.y as int) * (self.y as int)),
            0 <= r <= 4_300_000_000,
    {
        proof {
            lemma_abs_mul_le(self.x as int, self.x as int, 3_000_000_000, 3_000_000_000);
            lemma_abs_mul_le(self.y as int, self.y as int, 3_000_000_000, 3_000_000_000);
            assert((self.x as int) * (self.x as int) >= 0) by (nonlinear_arith);
            assert((self.y as int) * (self.y as int) >= 0) by (nonlinear_arith);
        }
        let sq: u128 = ((self.x as i128) * (self.x as i128) + (self.y as i128) * (self.y as i128))
            as u128;
        let r: u64 = isqrt(sq as u64);
        proof {
            let n = (self.x as int) * (self.x as int) + (self.y as int) * (self.y as int);
            assert((r as int) * (r as int) <= n);
            assert(r <= 4_300_000_000) by (nonlinear_arith)
                requires
                    (r as int) * (r as int) <= n,
                    n <= 18_000_000_000_000_000_000,
                    r >= 0,
            ;
        }
        r as i64
    }

    /// Two-dimensional cross product of displacements `self` and `o`, exact.
    pub fn cross(self, o: Vec2i) -> (r: i128)
        requires
            in_box(self, COORD_LIMIT as int),
            in_box(o, COORD_LIMIT as int),
        ensures
            r == (self.x as int) * (o.y as int) - (self.y as int) * (o.x as int),
    {
        proof {
            lemma_abs_mul_le(self.x as int, o.y as int, COORD_LIMIT as int, COORD_LIMIT as int);
            lemma_abs_mul_le(self.y as int, o.x as int, COORD_LIMIT as int, COORD_LIMIT as int);
        }
        (self.x as i128) * (o.y as i128) - (self.y as i128) * (o.x as i128)
    }

    /// Dot product, exact.
    pub fn dot(self, o: Vec2i) -> (r: i128)
        requires
            in_box(self, COORD_LIMIT as int),
            in_box(o, COORD_LIMIT as int),
        ensures
            r == (self.x as int) * (o.x as int) + (self.y as int) * (o.y as int),
    {
        proof {
            lemma_abs_mul_le(self.x as int, o.x as int, COORD_LIMIT as int, COORD_LIMIT as int);
            lemma_abs_mul_le(self.y as int, o.y as int, COORD_LIMIT as int, COORD_LIMIT as int);
        }
        (self.x as i128) * (o.x as i128) + (self.y as i128) * (o.y as i128)
    }
}

/// Linear interpolation from `val1` toward `val2`, the blend weight in
/// milli-units and forced into `[0, 1000]`.
pub open spec fn lerp_spec(val1: int, val2: int, weight: int) -> int {
    val1 + tdiv((val2 - val1) * clamp_spec(weight, 0, 1000), 1000)
}

/// Linear interpolation with a milli-unit blend weight.
pub fn lerp(val1: i64, val2: i64, weight: i64) -> (r: i64)
    requires
        abs_i(val1 as int) <= 1_000_000_000_000,
        abs_i(val2 as int) <= 1_000_000_000_000,
    ensures
        r == lerp_spec(val1 as int, val2 as int, weight as int),
        abs_i(r as int) <= abs_i(val1 as int) + abs_i(val2 as int) + abs_i(val1 as int),
{
    let w: i64 = clamp_i64(weight, 0, 1000);
    let d0: i128 = val2 as i128 - val1 as i128;
    proof {
        lemma_abs_mul_le(d0 as int, w as int, 2_000_000_000_000, 1000);
    }
    let diff: i128 = d0 * (w as i128);
    let step: i128 = div_trunc_i128(diff, 1000);
    proof {
        lemma_abs_mul_le(d0 as int, w as int, abs_i(d0 as int), 1000);
        lemma_tdiv_abs_le(diff as int, 1000, abs_i(d0 as int));
    }
    (val1 as i128 + step) as i64
}

/// Product of two milli-unit values, scaled back to milli-units with
/// truncation: the fixed-point multiplication.
pub open spec fn scale_milli(a: int, b: int) -> int {
    tdiv(a * b, 1000)
}

/// Fixed-point multiplication of milli-unit values.
pub fn scale_milli_exec(a: i64, b: i64) -> (r: i64)
    requires
        abs_i(a as int) <= 1_000_000_000_000,
        abs_i(b as int) <= 1_000_000,
    ensures
        r == scale_milli(a as int, b as int),
{
    proof {
        lemma_abs_mul_le(a as int, b as int, 1_000_000_000_000, 1_000_000);
    }
    let p: i128 = (a as i128) * (b as i128);
    let q: i128 = div_trunc_i128(p, 1000);
    q as i64
}

/// The magnitude of a fixed-point product is bounded by the scaled
/// product of the bounds.
pub proof fn lemma_scale_milli_bound(a: int, b: int, m: int, n: int)
    requires
        abs_i(a) <= m,
        abs_i(b) <= n,
    ensures
        abs_i(scale_milli(a, b)) <= m * n / 1000,
{
    lemma_abs_mul_le(a, b, m, n);
    vstd::arithmetic::div_mod::lemma_div_is_ordered(abs_i(a * b), m * n, 1000);
    assert(abs_i(tdiv(a * b, 1000)) == abs_i(a * b) / 1000);
}

/// Degrees to milliradians, both in milli-units, truncated.
pub open spec fn to_rad_spec(deg_milli: int) -> int {
    tdiv(deg_milli * PI_MRAD, 180000)
}

/// Converts milli-degrees to milliradians.
pub fn to_rad(deg_milli: i64) -> (r: i64)
    requires
        abs_i(deg_milli as int) <= 1_000_000_000,
    ensures
        r == to_rad_spec(deg_milli as int),
{
    proof {
        lemma_abs_mul_le(deg_milli as int, PI_MRAD as int, 1_000_000_000, 3142);
    }
    let prod: i128 = (deg_milli as i128) * (PI_MRAD as i128);
    let q: i128 = div_trunc_i128(prod, 180_000);
    q as i64
}

/// Euclidean remainder: the representative of `a` modulo `m` in `[0, m)`.
pub fn emod(a: i64, m: i64) -> (r: i64)
    requires
        m > 0,
        a > i64::MIN,
    ensures
        r == (a as int) % (m as int),
        0 <= r < m,
{
    if a >= 0 {
        a % m
    } else {
        let k: i64 = (-a) % m;
        proof {
            vstd::arithmetic::div_mod::lemma_fundamental_div_mod(-a as int, m as int);
            let q = (-a as int) / (m as int);
            assert(-a == (m as int) * q + k);
            if k == 0 {
                assert((-q) * (m as int) + 0 == a as int) by (nonlinear_arith)
                    requires
                        -a == (m as int) * q + (k as int),
                        k == 0,
                ;
                vstd::arithmetic::div_mod::lemma_fundamental_div_mod_converse_mod(
                    a as int,
                    m as int,
                    -q,
                    0,
                );
            } else {
                assert((-q - 1) * (m as int) + ((m - k) as int) == a as int) by (nonlinear_arith)
                    requires
                        -a == (m as int) * q + (k as int),
                ;
                vstd::arithmetic::div_mod::lemma_fundamental_div_mod_converse_mod(
                    a as int,
                    m as int,
                    -q - 1,
                    m - k,
                );
            }
        }
        if k == 0 {
            0
        } else {
            m - k
        }
    }
}

/// Quadratic rational approximation of the sine on the first half turn,
/// in milli-units: `16000 x (pi - x) / (5 pi^2 - 4 x (pi - x))` with all
/// angles in milliradians. Exact at 0, pi/2 and pi.
pub open spec fn half_sine(x: int) -> int {
    (16000 * x * (PI_MRAD - x)) / (5 * PI_MRAD * PI_MRAD - 4 * x * (PI_MRAD - x))
}

/// The sine of an angle in milliradians, in milli-units: the angle reduced
/// to one turn, the half-turn approximation applied with odd symmetry.
pub open spec fn sin_spec(a: int) -> int {
    let x = a % (TWO_PI_MRAD as int);
    if x < PI_MRAD {
        half_sine(x)
    } else {
        -half_sine(x - PI_MRAD)
    }
}

/// The cosine, as the sine a quarter turn ahead.
pub open spec fn cos_spec(a: int) -> int {
    sin_spec(a + 1571)
}

/// The half-turn sine approximation on `[0, pi]`.
fn half_sine_exec(x: i64) -> (r: i64)
    requires
        0 <= x <= PI_MRAD,
    ensures
        r == half_sine(x as int),
        0 <= r <= 1000,
{
    proof {
        lemma_abs_mul_le(x as int, PI_MRAD - x, 3142, 3142);
        assert(x * (PI_MRAD - x) >= 0) by (nonlinear_arith)
            requires
                0 <= x <= PI_MRAD,
                PI_MRAD == 3142,
        ;
        assert(4 * (x * (PI_MRAD - x)) <= PI_MRAD * PI_MRAD) by (nonlinear_arith)
            requires
                0 <= x <= PI_MRAD,
        ;
    }
    let n: i64 = x * (PI_MRAD - x);
    let num: i64 = 16000 * n;
    let den: i64 = 5 * PI_MRAD * PI_MRAD - 4 * n;
    let r: i64 = num / den;
    proof {
        assert(16000 * ((x as int) * (PI_MRAD - x)) == 16000 * (x as int) * (PI_MRAD - x))
            by (nonlinear_arith);
        assert(4 * ((x as int) * (PI_MRAD - x)) == 4 * (x as int) * (PI_MRAD - x))
            by (nonlinear_arith);
        assert(num <= 1000 * den);
        vstd::arithmetic::div_mod::lemma_div_is_ordered(num as int, 1000 * den, den as int);
        vstd::arithmetic::div_mod::lemma_div_multiples_vanish(1000, den as int);
        assert(1000 * (den as int) == (den as int) * 1000) by (nonlinear_arith);
        vstd::arithmetic::div_mod::lemma_div_pos_is_pos(num as int, den as int);
    }
    r
}

/// The sine of an angle in milliradians, in milli-units.
pub fn sin_mrad(a: i64) -> (r: i64)
    requires
        abs_i(a as int) <= 2_000_000_000_000,
    ensures
        r == sin_spec(a as int),
        -1000 <= r <= 1000,
{
    let x: i64 = emod(a, TWO_PI_MRAD);
    if x < PI_MRAD {
        half_sine_exec(x)
    } else {
        -half_sine_exec(x - PI_MRAD)
    }
}

/// The cosine of an angle in milliradians, in milli-units.
pub fn cos_mrad(a: i64) -> (r: i64)
    requires
        abs_i(a as int) <= 1_000_000_000_000,
    ensures
        r == cos_spec(a as int),
        -1000 <= r <= 1000,
{
    sin_mrad(a + 1571)
}

/// The unit direction of a heading angle, scaled by 1000.
pub fn dir_of_angle(a: i64) -> (r: Vec2i)
    requires
        abs_i(a as int) <= 1_000_000_000_000,
    ensures
        r.x == cos_spec(a as int),
        r.y == sin_spec(a as int),
        in_box(r, 1000),
{
    Vec2i { x: cos_mrad(a), y: sin_mrad(a) }
}

/// Denominator of the two-segment intersection system: the cross product
/// of the segments' direction vectors. Zero means parallel.
pub open spec fn inter_den(p1: Vec2i, p2: Vec2i, q1: Vec2i, q2: Vec2i) -> int {
    (p1.x - p2.x) * (q1.y - q2.y) - (p1.y - p2.y) * (q1.x - q2.x)
}

/// Numerator of the parameter along `p1..p2` at the intersection.
pub open spec fn inter_t_num(p1: Vec2i, p2: Vec2i, q1: Vec2i, q2: Vec2i) -> int {
    (p1.x - q1.x) * (q1.y - q2.y) - (p1.y - q1.y) * (q1.x - q2.x)
}

/// Numerator of the parameter along `q1..q2` at the intersection.
pub open spec fn inter_u_num(p1: Vec2i, p2: Vec2i, q1: Vec2i, q2: Vec2i) -> int {
    -((p1.x - p2.x) * (p1.y - q1.y) - (p1.y - p2.y) * (p1.x - q1.x))
}

/// The ratio `n / d` lies in `[0, 1]`.
pub open spec fn ratio_in_unit(n: int, d: int) -> bool {
    if d > 0 {
        0 <= n <= d
    } else {
        d <= n <= 0
    }
}

/// The two closed segments intersect at a single point: their lines are
/// not parallel and both intersection parameters lie in `[0, 1]`.
pub open spec fn segments_hit(p1: Vec2i, p2: Vec2i, q1: Vec2i, q2: Vec2i) -> bool {
    &&& inter_den(p1, p2, q1, q2) != 0
    &&& ratio_in_unit(inter_t_num(p1, p2, q1, q2), inter_den(p1, p2, q1, q2))
    &&& ratio_in_unit(inter_u_num(p1, p2, q1, q2), inter_den(p1, p2, q1, q2))
}

/// X coordinate of the intersection point, truncated toward zero.
pub open spec fn inter_x(p1: Vec2i, p2: Vec2i, q1: Vec2i, q2: Vec2i) -> int {
    q1.x + tdiv(inter_u_num(p1, p2, q1, q2) * (q2.x - q1.x), inter_den(p1, p2, q1, q2))
}

/// Y coordinate of the intersection point, truncated toward zero.
pub open spec fn inter_y(p1: Vec2i, p2: Vec2i, q1: Vec2i, q2: Vec2i) -> int {
    q1.y + tdiv(inter_u_num(p1, p2, q1, q2) * (q2.y - q1.y), inter_den(p1, p2, q1, q2))
}

/// Where the segment `p1..p2` crosses the segment `q1..q2`, if it does:
/// the solution of the two-line system, kept only when both parameters
/// lie in `[0, 1]`, with truncated integer coordinates.
pub fn line_intersection(p1: Vec2i, p2: Vec2i, q1: Vec2i, q2: Vec2i) -> (r: Option<Vec2i>)
    requires
        in_box(p1, 40_000_000),
        in_box(p2, 40_000_000),
        in_box(q1, 40_000_000),
        in_box(q2, 40_000_000),
    ensures
        r is Some <==> segments_hit(p1, p2, q1, q2),
        r matches Some(pt) ==> {
            &&& pt.x == inter_x(p1, p2, q1, q2)
            &&& pt.y == inter_y(p1, p2, q1, q2)
            &&& in_box(pt, 120_000_000)
        },
{
    let pd = p1.minus(p2);
    let qd = q1.minus(q2);
    let pq = p1.minus(q1);
    proof {
        lemma_abs_mul_le(pd.x as int, qd.y as int, 80_000_000, 80_000_000);
        lemma_abs_mul_le(pd.y as int, qd.x as int, 80_000_000, 80_000_000);
        lemma_abs_mul_le(pd.x as int, pq.y as int, 80_000_000, 80_000_000);
        lemma_abs_mul_le(pd.y as int, pq.x as int, 80_000_000, 80_000_000);
    }
    let den: i128 = pd.cross(qd);
    let tn: i128 = pq.cross(qd);
    let un: i128 = -pd.cross(pq);
    if den == 0 {
        return None;
    }
    let hit: bool = if den > 0 {
        0 <= tn && tn <= den && 0 <= un && un <= den
    } else {
        den <= tn && tn <= 0 && den <= un && un <= 0
    };
    if !hit {
        return None;
    }
    let dx: i64 = q2.x - q1.x;
    let dy: i64 = q2.y - q1.y;
    proof {
        lemma_abs_mul_le(un as int, dx as int, 12_800_000_000_000_001, 160_000_000);
        lemma_abs_mul_le(un as int, dy as int, 12_800_000_000_000_001, 160_000_000);
        lemma_abs_mul_le(un as int, dx as int, abs_i(den as int), 80_000_000);
        lemma_abs_mul_le(un as int, dy as int, abs_i(den as int), 80_000_000);
        assert(abs_i(den as int) * 80_000_000 == 80_000_000 * abs_i(den as int))
            by (nonlinear_arith);
        lemma_tdiv_abs_le(un as int * dx as int, den as int, 80_000_000);
        lemma_tdiv_abs_le(un as int * dy as int, den as int, 80_000_000);
    }
    let sx: i128 = div_trunc_i128(un * (dx as i128), den);
    let sy: i128 = div_trunc_i128(un * (dy as i128), den);
    Some(Vec2i { x: (q1.x as i128 + sx) as i64, y: (q1.y as i128 + sy) as i64 })
}

} // verus!
