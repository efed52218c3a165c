//! Integer 3-vector geometry for world positions and unit movement.
//!
//! World positions are integer coordinates bounded by [`MAX_COORD`] so that
//! squared distances and normalized displacement steps stay inside machine
//! integers.  A displacement step is `direction.normalize() * speed * dt`,
//! computed here as `(to - pos) * step / dist` with `dist` the integer square
//! root of the squared distance.

use vstd::prelude::*;

verus! {

use vstd::arithmetic::div_mod::{lemma_div_is_ordered, lemma_multiply_divide_le};
use vstd::arithmetic::mul::{
    lemma_mul_inequality, lemma_mul_is_commutative, lemma_mul_nonnegative, lemma_mul_upper_bound,
};

/// Largest magnitude a world coordinate may have.
pub const MAX_COORD: i64 = 1_000_000_000;

/// Largest displacement magnitude (`speed * dt`) a single tick may carry.
pub const MAX_STEP: u64 = 1_000_000_000;

/// A point or displacement in world space.
#[derive(Clone, Copy, Debug, PartialEq, Eq, Structural)]
pub struct Vec3 {
    pub x: i64,
    pub y: i64,
    pub z: i64,
}

impl Vec3 {
    /// All coordinates within the world bound.
    pub open spec fn in_bounds(self) -> bool {
        &&& -MAX_COORD <= self.x <= MAX_COORD
        &&& -MAX_COORD <= self.y <= MAX_COORD
        &&& -MAX_COORD <= self.z <= MAX_COORD
    }

    pub fn new(x: i64, y: i64, z: i64) -> (v: Vec3)
        ensures
            v == (Vec3 { x, y, z }),
    {
        Vec3 { x, y, z }
    }
}

pub open spec fn sq(d: int) -> int {
    d * d
}

/// Squared Euclidean distance between two points.
pub open spec fn dist2(a: Vec3, b: Vec3) -> int {
    sq(b.x - a.x) + sq(b.y - a.y) + sq(b.z - a.z)
}

/// Integer square root, defined by counting up; `lemma_sqrt_floor` gives its
/// characteristic bounds.
pub open spec fn sqrt_floor(n: nat) -> nat
    decreases n,
{
    if n == 0 {
        0
    } else {
        let r = sqrt_floor((n - 1) as nat);
        if (r + 1) * (r + 1) <= n {
            r + 1
        } else {
            r
        }
    }
}

pub proof fn lemma_sqrt_floor(n: nat)
    ensures
        sqrt_floor(n) * sqrt_floor(n) <= n,
        n < (sqrt_floor(n) + 1) * (sqrt_floor(n) + 1),
    decreases n,
{
    if n > 0 {
        lemma_sqrt_floor((n - 1) as nat);
        let r = sqrt_floor((n - 1) as nat);
        if (r + 1) * (r + 1) <= n {
            assert(sqrt_floor(n) == r + 1);
            assert(n < (r + 2) * (r + 2)) by (nonlinear_arith)
                requires
                    n - 1 < (r + 1) * (r + 1),
                    r >= 0,
            ;
        } else {
            assert(sqrt_floor(n) == r);
        }
    } else {
        assert(sqrt_floor(n) == 0);
        assert((sqrt_floor(n) + 1) * (sqrt_floor(n) + 1) == 1) by (nonlinear_arith)
            requires
                sqrt_floor(n) == 0,
        ;
        assert(sqrt_floor(n) * sqrt_floor(n) == 0) by (nonlinear_arith)
            requires
                sqrt_floor(n) == 0,
        ;
    }
}

/// Any `r` with `r^2 <= n < (r+1)^2` is the integer square root.
pub proof fn lemma_sqrt_unique(n: nat, r: nat)
    requires
        r * r <= n,
        n < (r + 1) * (r + 1),
    ensures
        r == sqrt_floor(n),
{
    lemma_sqrt_floor(n);
    let s = sqrt_floor(n);
    if r < s {
        assert((r + 1) * (r + 1) <= s * s) by (nonlinear_arith)
            requires
                r + 1 <= s,
                r >= 0,
        ;
    }
    if s < r {
        assert((s + 1) * (s + 1) <= r * r) by (nonlinear_arith)
            requires
                s + 1 <= r,
                s >= 0,
        ;
    }
}

/// Squares never decrease with their argument; used to compare a distance
/// against a step by comparing the squares.
pub proof fn lemma_sq_le(a: nat, b: nat)
    requires
        a <= b,
    ensures
        a * a <= b * b,
{
    lemma_mul_inequality(a as int, b as int, a as int);
    lemma_mul_inequality(a as int, b as int, b as int);
}

/// Executable squared distance.
pub fn squared_distance(a: Vec3, b: Vec3) -> (r: u64)
    requires
        a.in_bounds(),
        b.in_bounds(),
    ensures
        r == dist2(a, b),
{
    let dx = abs_diff(a.x, b.x);
    let dy = abs_diff(a.y, b.y);
    let dz = abs_diff(a.z, b.z);
    proof {
        assert(dx * dx == sq(b.x - a.x) && dx * dx <= sq(2 * MAX_COORD)) by (nonlinear_arith)
            requires
                dx == if b.x >= a.x { b.x - a.x } else { a.x - b.x },
                -MAX_COORD <= a.x <= MAX_COORD,
                -MAX_COORD <= b.x <= MAX_COORD,
        ;
        assert(dy * dy == sq(b.y - a.y) && dy * dy <= sq(2 * MAX_COORD)) by (nonlinear_arith)
            requires
                dy == if b.y >= a.y { b.y - a.y } else { a.y - b.y },
                -MAX_COORD <= a.y <= MAX_COORD,
                -MAX_COORD <= b.y <= MAX_COORD,
        ;
        assert(dz * dz == sq(b.z - a.z) && dz * dz <= sq(2 * MAX_COORD)) by (nonlinear_arith)
            requires
                dz == if b.z >= a.z { b.z - a.z } else { a.z - b.z },
                -MAX_COORD <= a.z <= MAX_COORD,
                -MAX_COORD <= b.z <= MAX_COORD,
        ;
    }
    dx * dx + dy * dy + dz * dz
}

/// Absolute difference of two bounded coordinates.
fn abs_diff(a: i64, b: i64) -> (r: u64)
    requires
        -MAX_COORD <= a <= MAX_COORD,
        -MAX_COORD <= b <= MAX_COORD,
    ensures
        r == if b >= a { b - a } else { a - b },
        r <= 2 * MAX_COORD,
{
    if b >= a {
        (b - a) as u64
    } else {
        (a - b) as u64
    }
}

/// Executable integer square root, by binary search.
pub fn isqrt64(n: u64) -> (r: u64)
    ensures
        r == sqrt_floor(n as nat),
{
    let mut lo: u64 = 0;
    let mut hi: u64 = 0xFFFF_FFFF;
    proof {
        assert((0xFFFF_FFFFu64 + 1) * (0xFFFF_FFFFu64 + 1) > n);
    }
    while lo < hi
        invariant
            lo <= hi,
            hi <= 0xFFFF_FFFF,
            lo * lo <= n,
            n < (hi + 1) * (hi + 1),
        decreases hi - lo,
    {
        let mid = lo + (hi - lo + 1) / 2;
        proof {
            assert(mid * mid <= 0xFFFF_FFFFu64 * 0xFFFF_FFFFu64) by (nonlinear_arith)
                requires
                    0 <= mid <= 0xFFFF_FFFFu64,
            ;
        }
        if mid * mid <= n {
            lo = mid;
        } else {
            hi = mid - 1;
        }
    }
    proof {
        lemma_sqrt_unique(n as nat, lo as nat);
    }
    lo
}

/// One axis of a displacement step: move `p` toward `t` by
/// `|t - p| * step / dist`, keeping the sign of the direction.
pub open spec fn axis_advance(p: int, t: int, step: int, dist: int) -> int {
    if t >= p {
        p + ((t - p) * step) / dist
    } else {
        p - ((p - t) * step) / dist
    }
}

/// Where a point ends up after one displacement step of magnitude `step`
/// toward `to`.  Meaningful only while the step is shorter than the distance.
pub open spec fn advanced(pos: Vec3, to: Vec3, step: int) -> Vec3 {
    let dist = sqrt_floor(dist2(pos, to) as nat) as int;
    Vec3 {
        x: axis_advance(pos.x as int, to.x as int, step, dist) as i64,
        y: axis_advance(pos.y as int, to.y as int, step, dist) as i64,
        z: axis_advance(pos.z as int, to.z as int, step, dist) as i64,
    }
}

/// One coordinate of the executable step.  The result stays between `p` and
/// `t`, so bounded inputs give a bounded output.
fn axis_move(p: i64, t: i64, step: u64, dist: u64) -> (r: i64)
    requires
        -MAX_COORD <= p <= MAX_COORD,
        -MAX_COORD <= t <= MAX_COORD,
        step <= MAX_STEP,
        1 <= dist,
        step <= dist,
    ensures
        r == axis_advance(p as int, t as int, step as int, dist as int),
        if t >= p {
            p <= r <= t
        } else {
            t <= r <= p
        },
{
    if t >= p {
        let d = (t - p) as u64;
        proof {
            axis_move_bounds(d as int, step as int, dist as int);
        }
        let mv = (d * step) / dist;
        p + (mv as i64)
    } else {
        let d = (p - t) as u64;
        proof {
            axis_move_bounds(d as int, step as int, dist as int);
        }
        let mv = (d * step) / dist;
        p - (mv as i64)
    }
}

/// The scaled offset `d * step / dist` neither overflows nor exceeds `d`.
proof fn axis_move_bounds(d: int, step: int, dist: int)
    requires
        0 <= d <= 2 * MAX_COORD,
        0 <= step <= MAX_STEP,
        1 <= dist,
        step <= dist,
    ensures
        d * step <= 2_000_000_000_000_000_000,
        0 <= (d * step) / dist <= d,
{
    lemma_mul_upper_bound(d, 2 * MAX_COORD as int, step, MAX_STEP as int);
    lemma_mul_inequality(step, dist, d);
    lemma_mul_is_commutative(step, d);
    lemma_mul_is_commutative(dist, d);
    lemma_multiply_divide_le(d * step, dist, d);
    lemma_div_is_ordered(0, d * step, dist);
}

/// A square is nonnegative, whatever the sign of its root.
pub proof fn lemma_sq_nonneg(d: int)
    ensures
        sq(d) >= 0,
{
    if d >= 0 {
        lemma_mul_nonnegative(d, d);
    } else {
        assert(d * d >= 0) by (nonlinear_arith)
            requires
                d < 0,
        ;
    }
}

/// A squared distance is a sum of squares, hence nonnegative.
pub proof fn lemma_dist2_nonneg(a: Vec3, b: Vec3)
    ensures
        dist2(a, b) >= 0,
{
    lemma_sq_nonneg(b.x - a.x);
    lemma_sq_nonneg(b.y - a.y);
    lemma_sq_nonneg(b.z - a.z);
}

/// One axis of the displacement step stays between its endpoints.
proof fn lemma_axis_advance_in_range(p: int, t: int, step: int, dist: int)
    requires
        -MAX_COORD <= p <= MAX_COORD,
        -MAX_COORD <= t <= MAX_COORD,
        0 <= step <= MAX_STEP,
        1 <= dist,
        step <= dist,
    ensures
        if t >= p {
            p <= axis_advance(p, t, step, dist) <= t
        } else {
            t <= axis_advance(p, t, step, dist) <= p
        },
{
    if t >= p {
        axis_move_bounds(t - p, step, dist);
    } else {
        axis_move_bounds(p - t, step, dist);
    }
}

/// A displacement step strictly shorter than the remaining distance keeps
/// the position inside the world bounds.
pub proof fn lemma_advanced_in_bounds(pos: Vec3, to: Vec3, step: int)
    requires
        pos.in_bounds(),
        to.in_bounds(),
        0 <= step <= MAX_STEP,
        sq(step) < dist2(pos, to),
    ensures
        advanced(pos, to, step).in_bounds(),
{
    lemma_dist2_nonneg(pos, to);
    let d2 = dist2(pos, to);
    lemma_sqrt_floor(d2 as nat);
    let dist = sqrt_floor(d2 as nat) as int;
    lemma_mul_nonnegative(step, step);
    if dist < step {
        lemma_sq_le((dist + 1) as nat, step as nat);
    }
    if dist == 0 {
        assert((dist + 1) * (dist + 1) == 1) by (nonlinear_arith)
            requires
                dist == 0,
        ;
    }
    lemma_axis_advance_in_range(pos.x as int, to.x as int, step, dist);
    lemma_axis_advance_in_range(pos.y as int, to.y as int, step, dist);
    lemma_axis_advance_in_range(pos.z as int, to.z as int, step, dist);
}

/// Executable displacement step: advance `pos` toward `to` by magnitude
/// `step`, which must be strictly shorter than the remaining distance.
pub fn move_toward(pos: Vec3, to: Vec3, step: u64) -> (r: Vec3)
    requires
        pos.in_bounds(),
        to.in_bounds(),
        step <= MAX_STEP,
        sq(step as int) < dist2(pos, to),
    ensures
        r == advanced(pos, to, step as int),
        r.in_bounds(),
{
    let d2 = squared_distance(pos, to);
    let dist = isqrt64(d2);
    proof {
        lemma_sqrt_floor(d2 as nat);
        lemma_mul_nonnegative(step as int, step as int);
        // step^2 < dist2, so step <= sqrt_floor(dist2): otherwise dist + 1 <= step
        // and the square bound below contradicts dist2 < (dist + 1)^2.
        if dist < step {
            lemma_sq_le((dist + 1) as nat, step as nat);
        }
        if dist == 0 {
            assert((dist + 1) * (dist + 1) == 1) by (nonlinear_arith)
                requires
                    dist == 0u64,
            ;
        }
    }
    let x = axis_move(pos.x, to.x, step, dist);
    let y = axis_move(pos.y, to.y, step, dist);
    let z = axis_move(pos.z, to.z, step, dist);
    Vec3 { x, y, z }
}

} // verus!
