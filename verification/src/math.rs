//! Fixed-point 3D vector arithmetic for the simulation.
//!
//! Every length is an integer number of milli-units (thousandths of a world
//! unit) and every time an integer number of milliseconds.  Squared
//! distances order points exactly as real Euclidean distances do, so the
//! systems compare squared distances and never need a real square root;
//! only direction normalization takes an integer square root.

use vstd::prelude::*;

verus! {

use vstd::arithmetic::div_mod::lemma_div_is_ordered;
use vstd::arithmetic::div_mod::lemma_div_multiples_vanish;

/// One world unit, in milli-units.  A direction vector of norm `SCALE`
/// stands for a unit vector.
pub const SCALE: i64 = 1000;

/// Coordinates are confined to the arena box `[-COORD_LIMIT, COORD_LIMIT]`
/// on each axis; movement clamps to it.
pub const COORD_LIMIT: i64 = 1_000_000_000;

/// Largest admitted speed, in milli-units per second.
pub const SPEED_LIMIT: i64 = 1_000_000;

/// Bound on a stored direction component: the difference of two arena
/// coordinates always fits it.
pub const DIR_LIMIT: i64 = 2_000_000_000;

/// Bound on a single displacement step handed to `add_clamped`.
pub const STEP_LIMIT: i64 = 4_000_000_000_000_000;

/// Largest delta-time of one tick, in milliseconds.
pub const DT_LIMIT: u64 = 1_000_000;

/// Largest timer duration, in milliseconds.
pub const DURATION_LIMIT: u64 = 1_000_000_000_000;

/// A point or direction in space, fixed-point milli-units per component.
#[derive(Clone, Copy, PartialEq, Eq, Structural, Debug)]
pub struct Vec3Fix {
    pub x: i64,
    pub y: i64,
    pub z: i64,
}

impl Vec3Fix {
    /// Every component lies in `[-b, b]`.
    pub open spec fn bounded(self, b: int) -> bool {
        &&& -b <= self.x <= b
        &&& -b <= self.y <= b
        &&& -b <= self.z <= b
    }
}

pub open spec fn sq(a: int) -> int {
    a * a
}

/// Squared Euclidean norm of a vector, in squared milli-units.
pub open spec fn norm_sq(v: Vec3Fix) -> int {
    sq(v.x as int) + sq(v.y as int) + sq(v.z as int)
}

/// Squared Euclidean distance between two points.
pub open spec fn dist_sq_spec(a: Vec3Fix, b: Vec3Fix) -> int {
    sq(a.x - b.x) + sq(a.y - b.y) + sq(a.z - b.z)
}

/// One coordinate clamped to the arena box.
pub open spec fn clamp_spec(v: int) -> int {
    if v > COORD_LIMIT {
        COORD_LIMIT as int
    } else if v < -COORD_LIMIT {
        -COORD_LIMIT as int
    } else {
        v
    }
}

pub open spec fn abs_spec(a: int) -> int {
    if a >= 0 {
        a
    } else {
        -a
    }
}

/// Magnitude scaling with truncation toward zero, as machine division does:
/// `a * m / d` where `m >= 0` and `d >= 1`.
pub open spec fn scale_trunc(a: int, m: int, d: int) -> int
    recommends
        m >= 0,
        d >= 1,
{
    if a >= 0 {
        (a * m) / d
    } else {
        -((-a * m) / d)
    }
}

/// `r` is the integer square root of `n`, rounded down.
pub open spec fn is_isqrt(n: int, r: int) -> bool {
    &&& 0 <= r
    &&& sq(r) <= n
    &&& n < sq(r + 1)
}

/// The integer square root, rounded down.
pub open spec fn sqrt_floor(n: int) -> int {
    choose|r: int| is_isqrt(n, r)
}

/// A direction rescaled so that its norm is (up to rounding) `SCALE`; the
/// zero vector, which has no direction, is left unchanged.
pub open spec fn normalize_spec(v: Vec3Fix) -> Vec3Fix {
    let n = sqrt_floor(norm_sq(v));
    if n == 0 {
        v
    } else {
        Vec3Fix {
            x: scale_trunc(v.x as int, SCALE as int, n) as i64,
            y: scale_trunc(v.y as int, SCALE as int, n) as i64,
            z: scale_trunc(v.z as int, SCALE as int, n) as i64,
        }
    }
}

pub proof fn lemma_mul_le(a: int, b: int, c: int, d: int)
    by (nonlinear_arith)
    requires
        0 <= a <= b,
        0 <= c <= d,
    ensures
        a * c <= b * d,
{
}

pub proof fn lemma_sq_nonneg(a: int)
    by (nonlinear_arith)
    ensures
        sq(a) >= 0,
{
}

pub proof fn lemma_isqrt_unique(n: int, a: int, b: int)
    by (nonlinear_arith)
    requires
        0 <= a,
        a * a <= n,
        n < (a + 1) * (a + 1),
        0 <= b,
        b * b <= n,
        n < (b + 1) * (b + 1),
    ensures
        a == b,
{
}

/// A vector of squared norm zero is the zero vector.
pub proof fn lemma_norm_sq_zero(v: Vec3Fix)
    by (nonlinear_arith)
    requires
        norm_sq(v) == 0,
    ensures
        v.x == 0 && v.y == 0 && v.z == 0,
{
}

/// No component exceeds the norm: from `x * x <= s < (n + 1) * (n + 1)`.
pub proof fn lemma_component_le_norm(x: int, s: int, n: int)
    by (nonlinear_arith)
    requires
        x * x <= s,
        s < (n + 1) * (n + 1),
        0 <= n,
    ensures
        -n <= x <= n,
{
}

fn abs_mag(a: i64) -> (r: u64)
    requires
        a > i64::MIN,
    ensures
        r as int == abs_spec(a as int),
{
    if a >= 0 {
        a as u64
    } else {
        (-a) as u64
    }
}

pub fn clamp_coord(v: i64) -> (r: i64)
    ensures
        r as int == clamp_spec(v as int),
        -COORD_LIMIT <= r <= COORD_LIMIT,
{
    if v > COORD_LIMIT {
        COORD_LIMIT
    } else if v < -COORD_LIMIT {
        -COORD_LIMIT
    } else {
        v
    }
}

/// `a * m / d` with truncation toward zero, computed on magnitudes.
fn mul_div_mag(a: i64, m: u64, d: u64) -> (r: i64)
    requires
        a > i64::MIN,
        d >= 1,
        abs_spec(a as int) * m <= u64::MAX,
        abs_spec(a as int) * m / (d as int) <= i64::MAX,
    ensures
        r as int == scale_trunc(a as int, m as int, d as int),
        abs_spec(r as int) == abs_spec(a as int) * m / (d as int),
{
    let mag: u64 = abs_mag(a);
    let q: u64 = mag * m / d;
    if a < 0 {
        -(q as i64)
    } else {
        q as i64
    }
}

/// Integer square root, rounded down.
pub fn isqrt(n: u64) -> (r: u64)
    ensures
        is_isqrt(n as int, r as int),
        r as int == sqrt_floor(n as int),
{
    let r: u64 = if n >= 0xFFFF_FFFE_0000_0001 {
        proof {
            assert((0xFFFF_FFFFu64 as int) * (0xFFFF_FFFFu64 as int) == 0xFFFF_FFFE_0000_0001)
               ;
            assert((0x1_0000_0000u64 as int) * (0x1_0000_0000u64 as int) > u64::MAX as int)
               ;
        }
        0xFFFF_FFFF
    } else {
        let mut lo: u64 = 0;
        let mut hi: u64 = 0xFFFF_FFFF;
        proof {
            assert((0xFFFF_FFFFu64 as int) * (0xFFFF_FFFFu64 as int) == 0xFFFF_FFFE_0000_0001)
               ;
        }
        while lo + 1 < hi
            invariant
                lo < hi <= 0xFFFF_FFFF,
                (lo as int) * (lo as int) <= n as int,
                (n as int) < (hi as int) * (hi as int),
            decreases hi - lo,
        {
            let mid: u64 = lo + (hi - lo) / 2;
            proof {
                lemma_mul_le(mid as int, 0xFFFF_FFFF, mid as int, 0xFFFF_FFFF);
                assert((0xFFFF_FFFFu64 as int) * (0xFFFF_FFFFu64 as int) <= u64::MAX as int)
                   ;
            }
            if mid * mid <= n {
                lo = mid;
            } else {
                hi = mid;
            }
        }
        lo
    };
    proof {
        assert(is_isqrt(n as int, r as int));
        let w = choose|q: int| is_isqrt(n as int, q);
        lemma_isqrt_unique(n as int, r as int, w);
    }
    r
}

/// Squared norm of a direction-bounded vector.
pub fn norm_sq_fix(v: &Vec3Fix) -> (r: u64)
    requires
        v.bounded(DIR_LIMIT as int),
    ensures
        r as int == norm_sq(*v),
{
    let mx: u64 = abs_mag(v.x);
    let my: u64 = abs_mag(v.y);
    let mz: u64 = abs_mag(v.z);
    proof {
        lemma_mul_le(mx as int, DIR_LIMIT as int, mx as int, DIR_LIMIT as int);
        lemma_mul_le(my as int, DIR_LIMIT as int, my as int, DIR_LIMIT as int);
        lemma_mul_le(mz as int, DIR_LIMIT as int, mz as int, DIR_LIMIT as int);
        assert(sq(v.x as int) == (mx as int) * (mx as int)) by (nonlinear_arith)
            requires
                mx as int == abs_spec(v.x as int),
        ;
        assert(sq(v.y as int) == (my as int) * (my as int)) by (nonlinear_arith)
            requires
                my as int == abs_spec(v.y as int),
        ;
        assert(sq(v.z as int) == (mz as int) * (mz as int)) by (nonlinear_arith)
            requires
                mz as int == abs_spec(v.z as int),
        ;
    }
    mx * mx + my * my + mz * mz
}

/// Squared distance between two arena points.
pub fn dist_sq(a: &Vec3Fix, b: &Vec3Fix) -> (r: u64)
    requires
        a.bounded(COORD_LIMIT as int),
        b.bounded(COORD_LIMIT as int),
    ensures
        r as int == dist_sq_spec(*a, *b),
{
    let d = Vec3Fix { x: a.x - b.x, y: a.y - b.y, z: a.z - b.z };
    norm_sq_fix(&d)
}

/// Rescales a direction to unit length (norm `SCALE`), leaving the zero
/// vector unchanged.
pub fn normalize(v: &Vec3Fix) -> (r: Vec3Fix)
    requires
        v.bounded(DIR_LIMIT as int),
    ensures
        r == normalize_spec(*v),
        r.bounded(SCALE as int),
{
    let ns: u64 = norm_sq_fix(v);
    let n: u64 = isqrt(ns);
    if n == 0 {
        proof {
            lemma_sq_nonneg(v.x as int);
            lemma_sq_nonneg(v.y as int);
            lemma_sq_nonneg(v.z as int);
            assert(is_isqrt(ns as int, 0));
            assert(sq(1) == 1) by (nonlinear_arith);
            assert((ns as int) < 1);
            assert(norm_sq(*v) == 0);
            lemma_norm_sq_zero(*v);
        }
        *v
    } else {
        proof {
            lemma_sq_nonneg(v.y as int);
            lemma_sq_nonneg(v.z as int);
            lemma_component_le_norm(v.x as int, ns as int, n as int);
            lemma_sq_nonneg(v.x as int);
            lemma_component_le_norm(v.y as int, ns as int, n as int);
            lemma_component_le_norm(v.z as int, ns as int, n as int);
            lemma_mul_le(abs_spec(v.x as int), n as int, SCALE as int, SCALE as int);
            lemma_mul_le(abs_spec(v.y as int), n as int, SCALE as int, SCALE as int);
            lemma_mul_le(abs_spec(v.z as int), n as int, SCALE as int, SCALE as int);
            lemma_div_is_ordered(abs_spec(v.x as int) * (SCALE as int), (n as int) * (SCALE as int), n as int);
            lemma_div_is_ordered(abs_spec(v.y as int) * (SCALE as int), (n as int) * (SCALE as int), n as int);
            lemma_div_is_ordered(abs_spec(v.z as int) * (SCALE as int), (n as int) * (SCALE as int), n as int);
            assert((n as int) * (SCALE as int) == (n as int) * (SCALE as int)) by (nonlinear_arith);
            lemma_div_multiples_vanish(SCALE as int, n as int);
            assert((n as int) * (SCALE as int) / (n as int) == SCALE as int);
        }
        let x = mul_div_mag(v.x, SCALE as u64, n);
        let y = mul_div_mag(v.y, SCALE as u64, n);
        let z = mul_div_mag(v.z, SCALE as u64, n);
        Vec3Fix { x, y, z }
    }
}

/// A position moved by one displacement step, clamped to the arena box.
pub open spec fn add_clamped_spec(p: Vec3Fix, d: Vec3Fix) -> Vec3Fix {
    Vec3Fix {
        x: clamp_spec(p.x + d.x) as i64,
        y: clamp_spec(p.y + d.y) as i64,
        z: clamp_spec(p.z + d.z) as i64,
    }
}

pub fn add_clamped(p: &Vec3Fix, d: &Vec3Fix) -> (r: Vec3Fix)
    requires
        p.bounded(COORD_LIMIT as int),
        d.bounded(STEP_LIMIT as int),
    ensures
        r == add_clamped_spec(*p, *d),
        r.bounded(COORD_LIMIT as int),
{
    Vec3Fix {
        x: clamp_coord(p.x + d.x),
        y: clamp_coord(p.y + d.y),
        z: clamp_coord(p.z + d.z),
    }
}

/// The displacement a bullet makes in one tick: its direction normalized to
/// unit length, scaled by speed (milli-units per second) and delta-time
/// (milliseconds), truncating toward zero at each of the two rescalings.
pub open spec fn bullet_step_spec(dir: Vec3Fix, speed: i64, dt: u64) -> Vec3Fix {
    let n = normalize_spec(dir);
    Vec3Fix {
        x: scale_trunc(scale_trunc(n.x as int, speed as int, SCALE as int), dt as int, SCALE as int) as i64,
        y: scale_trunc(scale_trunc(n.y as int, speed as int, SCALE as int), dt as int, SCALE as int) as i64,
        z: scale_trunc(scale_trunc(n.z as int, speed as int, SCALE as int), dt as int, SCALE as int) as i64,
    }
}

pub fn bullet_step(dir: &Vec3Fix, speed: i64, dt: u64) -> (r: Vec3Fix)
    requires
        dir.bounded(DIR_LIMIT as int),
        0 <= speed <= SPEED_LIMIT,
        dt <= DT_LIMIT,
    ensures
        r == bullet_step_spec(*dir, speed, dt),
        r.bounded(STEP_LIMIT as int),
{
    let n = normalize(dir);
    let x = step_component(n.x, speed, dt);
    let y = step_component(n.y, speed, dt);
    let z = step_component(n.z, speed, dt);
    Vec3Fix { x, y, z }
}

fn step_component(c: i64, speed: i64, dt: u64) -> (r: i64)
    requires
        -SCALE <= c <= SCALE,
        0 <= speed <= SPEED_LIMIT,
        dt <= DT_LIMIT,
    ensures
        r as int == scale_trunc(scale_trunc(c as int, speed as int, SCALE as int), dt as int, SCALE as int),
        -STEP_LIMIT <= r <= STEP_LIMIT,
{
    proof {
        lemma_mul_le(abs_spec(c as int), SCALE as int, speed as int, SPEED_LIMIT as int);
        lemma_div_is_ordered(
            abs_spec(c as int) * (speed as int),
            (SCALE as int) * (SPEED_LIMIT as int),
            SCALE as int,
        );
    }
    let q1 = mul_div_mag(c, speed as u64, SCALE as u64);
    proof {
        lemma_mul_le(abs_spec(q1 as int), SPEED_LIMIT as int, dt as int, DT_LIMIT as int);
        lemma_div_is_ordered(
            abs_spec(q1 as int) * (dt as int),
            (SPEED_LIMIT as int) * (DT_LIMIT as int),
            SCALE as int,
        );
    }
    let q2 = mul_div_mag(q1, dt, SCALE as u64);
    q2
}

/// The displacement a target makes in one tick along its movement axis.
pub fn target_step(speed: i64, dt: u64) -> (r: i64)
    requires
        0 <= speed <= SPEED_LIMIT,
        dt <= DT_LIMIT,
    ensures
        r as int == scale_trunc(speed as int, dt as int, SCALE as int),
        0 <= r <= STEP_LIMIT,
{
    proof {
        lemma_mul_le(speed as int, SPEED_LIMIT as int, dt as int, DT_LIMIT as int);
        lemma_div_is_ordered(
            (speed as int) * (dt as int),
            (SPEED_LIMIT as int) * (DT_LIMIT as int),
            SCALE as int,
        );
    }
    mul_div_mag(speed, dt, SCALE as u64)
}

} // verus!

