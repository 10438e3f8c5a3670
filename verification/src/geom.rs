//! Integer geometry for the combat world.
//!
//! Positions, directions and radii are plain `i64` world units, bounded by
//! [`SPACE_LIMIT`] so that squared distances and dot products never overflow.

use vstd::prelude::*;

verus! {

/// Largest magnitude a coordinate, radius or direction component may have.
pub const SPACE_LIMIT: i64 = 1_000_000;

/// Largest magnitude for scalar combat statistics (health, damage, speeds).
pub const STAT_LIMIT: i64 = 1_000_000;

/// Largest magnitude for times, in milliseconds. Countdowns saturate at the
/// negative of this bound, which leaves "ready" and "expired" tests unchanged.
pub const TIME_LIMIT: i64 = 1_000_000_000;

/// One whole unit in Q16 fixed point (cosines, hit chances, effectiveness).
pub const Q16_ONE: i64 = 65536;

/// A point or direction in the combat plane; `z` is carried along so that
/// layered entities keep their stacking offset, exactly as distances do.
#[derive(Clone, Copy, PartialEq, Eq, Structural, Debug)]
pub struct Vec3i {
    pub x: i64,
    pub y: i64,
    pub z: i64,
}

/// A position together with the facing direction of the entity.
#[derive(Clone, Copy, PartialEq, Eq, Structural, Debug)]
pub struct Pose {
    pub position: Vec3i,
    /// The forward axis used for weapon cone tests; need not be normalised.
    pub forward: Vec3i,
}

pub open spec fn sq(x: int) -> int {
    x * x
}

pub open spec fn in_space(v: Vec3i) -> bool {
    -SPACE_LIMIT <= v.x <= SPACE_LIMIT
        && -SPACE_LIMIT <= v.y <= SPACE_LIMIT
        && -SPACE_LIMIT <= v.z <= SPACE_LIMIT
}

pub open spec fn wf_pose(p: Pose) -> bool {
    in_space(p.position) && in_space(p.forward)
}

/// Subtraction that saturates at `-TIME_LIMIT`: countdowns keep falling but
/// never underflow, and "ready" or "expired" tests only look at the sign.
pub open spec fn sat_sub_spec(a: i64, b: i64) -> int {
    if a - b >= -TIME_LIMIT { a - b } else { -TIME_LIMIT as int }
}

/// Decrement a countdown by `b`, saturating at `-TIME_LIMIT`.
pub fn sat_sub(a: i64, b: i64) -> (r: i64)
    requires
        -TIME_LIMIT <= a <= TIME_LIMIT,
        0 <= b <= TIME_LIMIT,
    ensures
        r == sat_sub_spec(a, b),
        -TIME_LIMIT <= r <= TIME_LIMIT,
        r <= a,
{
    if a - b >= -TIME_LIMIT {
        a - b
    } else {
        -TIME_LIMIT
    }
}

/// `r` is the integer square root of `n`.
pub open spec fn is_isqrt(n: int, r: int) -> bool {
    0 <= r && r * r <= n && n < (r + 1) * (r + 1)
}

/// The integer square root: the unique `r >= 0` with `r^2 <= n < (r+1)^2`.
pub open spec fn isqrt_spec(n: int) -> int {
    choose|r: int| is_isqrt(n, r)
}

/// No two integers satisfy the square-root window, so the chosen one is
/// whatever witness a caller holds.
pub proof fn lemma_isqrt_unique(n: int, r: int)
    requires
        is_isqrt(n, r),
    ensures
        isqrt_spec(n) == r,
{
    assert(is_isqrt(n, isqrt_spec(n)));
    let s = isqrt_spec(n);
    if s < r {
        assert((s + 1) * (s + 1) <= r * r) by (nonlinear_arith)
            requires
                0 <= s,
                s + 1 <= r,
        ;
    }
    if r < s {
        assert((r + 1) * (r + 1) <= s * s) by (nonlinear_arith)
            requires
                0 <= r,
                r + 1 <= s,
        ;
    }
}

/// Integer square root by bisection, for the squared distances that arise
/// between bounded points.
pub fn isqrt(n: i64) -> (r: i64)
    requires
        0 <= n <= 12_000_000_000_000,
    ensures
        r == isqrt_spec(n as int),
        is_isqrt(n as int, r as int),
{
    let mut lo: i64 = 0;
    let mut hi: i64 = 3_464_102;
    proof {
        assert(3_464_102i64 * 3_464_102i64 > 12_000_000_000_000);
    }
    while lo + 1 < hi
        invariant
            0 <= lo < hi <= 3_464_102,
            lo * lo <= n,
            hi * hi > n,
        decreases hi - lo,
    {
        let mid: i64 = lo + (hi - lo) / 2;
        proof {
            assert(0 <= mid * mid <= 3_464_102 * 3_464_102) by (nonlinear_arith)
                requires
                    0 <= mid <= 3_464_102,
            ;
        }
        if mid * mid <= n {
            lo = mid;
        } else {
            hi = mid;
        }
    }
    proof {
        lemma_isqrt_unique(n as int, lo as int);
    }
    lo
}

/// Floor division for a positive divisor, matching the Euclidean division
/// of specifications on any sign of numerator.
pub fn div_floor(a: i64, b: i64) -> (r: i64)
    requires
        0 < b <= 4_000_000,
        -4_000_000_000_000 <= a <= 4_000_000_000_000,
    ensures
        r == a as int / b as int,
{
    if a >= 0 {
        a / b
    } else {
        let q: i64 = (-a + b - 1) / b;
        proof {
            vstd::arithmetic::div_mod::lemma_fundamental_div_mod((-a + b - 1) as int, b as int);
            let r1 = ((-a + b - 1) as int) % (b as int);
            assert((-a + b - 1) as int == (b as int) * (q as int) + r1);
            assert((-(q as int)) * (b as int) == -((b as int) * (q as int))) by (nonlinear_arith);
            assert(a as int == (-(q as int)) * (b as int) + (b - 1 - r1));
            vstd::arithmetic::div_mod::lemma_fundamental_div_mod_converse_div(
                a as int, b as int, -(q as int), b - 1 - r1);
        }
        -q
    }
}

/// Squared euclidean distance between two points.
pub open spec fn dist2_spec(a: Vec3i, b: Vec3i) -> int {
    sq(a.x - b.x) + sq(a.y - b.y) + sq(a.z - b.z)
}

pub open spec fn dot_spec(a: Vec3i, b: Vec3i) -> int {
    a.x * b.x + a.y * b.y + a.z * b.z
}

/// Squared length of a vector.
pub open spec fn norm2_spec(v: Vec3i) -> int {
    sq(v.x as int) + sq(v.y as int) + sq(v.z as int)
}

/// Difference vectors of two in-space points stay within twice the bound.
pub open spec fn in_delta_space(v: Vec3i) -> bool {
    -2 * SPACE_LIMIT <= v.x <= 2 * SPACE_LIMIT
        && -2 * SPACE_LIMIT <= v.y <= 2 * SPACE_LIMIT
        && -2 * SPACE_LIMIT <= v.z <= 2 * SPACE_LIMIT
}

pub open spec fn vec_sub_spec(a: Vec3i, b: Vec3i) -> Vec3i {
    Vec3i { x: (a.x - b.x) as i64, y: (a.y - b.y) as i64, z: (a.z - b.z) as i64 }
}

/// Componentwise difference `a - b` of two bounded points.
pub fn vec_sub(a: Vec3i, b: Vec3i) -> (r: Vec3i)
    requires
        in_space(a),
        in_space(b),
    ensures
        r == vec_sub_spec(a, b),
        in_delta_space(r),
{
    Vec3i { x: a.x - b.x, y: a.y - b.y, z: a.z - b.z }
}

proof fn lemma_sq_bound(x: int, m: int)
    requires
        0 <= m,
        -m <= x <= m,
    ensures
        0 <= sq(x) <= m * m,
{
    assert(x * x <= m * m && 0 <= x * x) by (nonlinear_arith)
        requires
            -m <= x <= m,
            0 <= m,
    ;
}

pub proof fn lemma_dist2_bounds(a: Vec3i, b: Vec3i)
    requires
        in_space(a),
        in_space(b),
    ensures
        0 <= dist2_spec(a, b) <= 12_000_000_000_000,
{
    lemma_sq_bound(a.x - b.x, 2_000_000);
    lemma_sq_bound(a.y - b.y, 2_000_000);
    lemma_sq_bound(a.z - b.z, 2_000_000);
}

/// Squared distance between two bounded points.
pub fn dist2(a: Vec3i, b: Vec3i) -> (r: i64)
    requires
        in_space(a),
        in_space(b),
    ensures
        r == dist2_spec(a, b),
        0 <= r <= 12_000_000_000_000,
{
    proof {
        lemma_dist2_bounds(a, b);
        lemma_sq_bound(a.x - b.x, 2_000_000);
        lemma_sq_bound(a.y - b.y, 2_000_000);
        lemma_sq_bound(a.z - b.z, 2_000_000);
    }
    let dx: i64 = a.x - b.x;
    let dy: i64 = a.y - b.y;
    let dz: i64 = a.z - b.z;
    dx * dx + dy * dy + dz * dz
}

} // verus!
