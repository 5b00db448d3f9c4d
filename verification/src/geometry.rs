use vstd::prelude::*;
use vstd::arithmetic::div_mod::lemma_div_is_ordered;
use vstd::arithmetic::div_mod::lemma_div_multiples_vanish;
use vstd::arithmetic::div_mod::lemma_div_pos_is_pos;
use vstd::arithmetic::div_mod::lemma_div_nonincreasing;

use crate::constants::DIR_ONE;
use crate::constants::WORLD_LIMIT;
use crate::constants::WRAP_MARGIN;

verus! {

/// A 2-D vector in fixed-point coordinates: positions in milliunits,
/// directions scaled by `DIR_ONE`.
#[derive(Clone, Copy, PartialEq, Eq, Structural, Debug)]
pub struct Vec2 {
    pub x: i64,
    pub y: i64,
}

/// The toroidal wrap policy as a mathematical function: past the upper
/// bound comes back in at `0`, below `0` comes back in at the bound.
pub open spec fn wrap_coord_spec(x: int, bound: int) -> int {
    if x > bound {
        0
    } else if x < 0 {
        bound
    } else {
        x
    }
}

/// One world coordinate wrapped onto the torus.
pub fn wrap_coord(x: i64, bound: i64) -> (r: i64)
    requires
        0 < bound,
        -0x4000_0000_0000_0000 < x < 0x4000_0000_0000_0000,
    ensures
        r == wrap_coord_spec(x as int, bound as int),
        0 <= r <= bound,
{
    if x > bound {
        0
    } else if x < 0 {
        bound
    } else {
        x
    }
}

/// Seam correction for one axis of a follow delta: a delta whose magnitude
/// comes within `WRAP_MARGIN` of the full world span is a wrap
/// discontinuity, and is shifted by one span toward the short path.
pub open spec fn wrap_delta_spec(d: int, bound: int) -> int {
    if (if d < 0 {
        -d
    } else {
        d
    }) >= bound - WRAP_MARGIN {
        if d < 0 {
            d + bound
        } else {
            d - bound
        }
    } else {
        d
    }
}

/// One axis of a follow delta, corrected across the wrap seam.
pub fn wrap_delta(d: i64, bound: i64) -> (r: i64)
    requires
        0 < bound <= WORLD_LIMIT,
        -bound <= d <= bound,
    ensures
        r == wrap_delta_spec(d as int, bound as int),
        -bound <= r <= bound,
{
    let ad = if d < 0 {
        -d
    } else {
        d
    };
    if ad >= bound - WRAP_MARGIN {
        if d < 0 { d + bound } else { d - bound }
    } else {
        d
    }
}

/// `v * num / den` rounded toward zero: the magnitude is scaled, the sign
/// kept. All divisions in the library go through this or stay nonnegative,
/// so rounding is symmetric around zero.
pub open spec fn scale_spec(v: int, num: int, den: int) -> int {
    if v >= 0 {
        v * num / den
    } else {
        -((-v) * num / den)
    }
}

/// Scales `v` by `num / den`, rounding the magnitude down.
pub fn scale_mag(v: i64, num: i64, den: i64) -> (r: i64)
    requires
        -WORLD_LIMIT <= v <= WORLD_LIMIT,
        0 <= num <= WORLD_LIMIT,
        0 < den,
    ensures
        r == scale_spec(v as int, num as int, den as int),
        -WORLD_LIMIT * WORLD_LIMIT <= r <= WORLD_LIMIT * WORLD_LIMIT,
        v >= 0 ==> r >= 0,
        v <= 0 ==> r <= 0,
{
    let av: u64 = if v < 0 {
        (-v) as u64
    } else {
        v as u64
    };
    assert(av * num <= WORLD_LIMIT * WORLD_LIMIT) by (nonlinear_arith)
        requires
            0 <= av <= WORLD_LIMIT,
            0 <= num <= WORLD_LIMIT,
    ;
    let prod: u64 = av * (num as u64);
    let q: u64 = prod / (den as u64);
    proof {
        lemma_div_pos_is_pos(prod as int, den as int);
        lemma_div_nonincreasing(prod as int, den as int);
        if v == 0 {
            assert(0 * (num as int) == 0) by (nonlinear_arith);
            vstd::arithmetic::div_mod::lemma_div_of0(den as int);
            assert(scale_spec(v as int, num as int, den as int) == 0);
        }
    }
    if v < 0 {
        -(q as i64)
    } else {
        q as i64
    }
}

/// `n / DIR_ONE` rounded toward zero, for taking a fixed-point product back
/// down to one scale factor.
pub open spec fn div_one_spec(n: int) -> int {
    if n >= 0 {
        n / (DIR_ONE as int)
    } else {
        -((-n) / (DIR_ONE as int))
    }
}

/// Divides by `DIR_ONE`, rounding the magnitude down.
pub fn div_one(n: i64) -> (r: i64)
    requires
        -4_000_000_000_000 <= n <= 4_000_000_000_000,
    ensures
        r == div_one_spec(n as int),
        -4_000_000 <= r <= 4_000_000,
{
    let an: u64 = if n < 0 {
        (-n) as u64
    } else {
        n as u64
    };
    let q: u64 = an / (DIR_ONE as u64);
    proof {
        lemma_div_pos_is_pos(an as int, DIR_ONE as int);
        lemma_div_is_ordered(an as int, 4_000_000_000_000, DIR_ONE as int);
    }
    if n < 0 {
        -(q as i64)
    } else {
        q as i64
    }
}

/// Squared Euclidean distance between two points.
pub open spec fn dist_sq_spec(p: Vec2, q: Vec2) -> int {
    (p.x - q.x) * (p.x - q.x) + (p.y - q.y) * (p.y - q.y)
}

/// Squared Euclidean distance; comparisons against squared radii are exact,
/// so no square root is needed for the pickup and collision checks.
pub fn dist_sq(p: Vec2, q: Vec2) -> (r: i64)
    requires
        -WORLD_LIMIT <= p.x <= WORLD_LIMIT,
        -WORLD_LIMIT <= p.y <= WORLD_LIMIT,
        -WORLD_LIMIT <= q.x <= WORLD_LIMIT,
        -WORLD_LIMIT <= q.y <= WORLD_LIMIT,
    ensures
        r == dist_sq_spec(p, q),
        r >= 0,
{
    let dx = p.x - q.x;
    let dy = p.y - q.y;
    assert(0 <= dx * dx <= 4_000_000_000_000_000_000) by (nonlinear_arith)
        requires
            -2_000_000_000 <= dx <= 2_000_000_000,
    ;
    assert(0 <= dy * dy <= 4_000_000_000_000_000_000) by (nonlinear_arith)
        requires
            -2_000_000_000 <= dy <= 2_000_000_000,
    ;
    dx * dx + dy * dy
}

/// `r` is the integer square root of `n`, rounded down.
pub open spec fn is_sqrt_floor(n: int, r: int) -> bool {
    0 <= r && r * r <= n && n < (r + 1) * (r + 1)
}

/// The integer square root, rounded down.
pub open spec fn sqrt_floor(n: int) -> int {
    choose|r: int| is_sqrt_floor(n, r)
}

/// Every nonnegative integer has an integer square root.
pub proof fn lemma_sqrt_floor_exists(n: int)
    requires
        0 <= n,
    ensures
        is_sqrt_floor(n, sqrt_floor(n)),
    decreases n,
{
    if n == 0 {
        assert(is_sqrt_floor(0, 0));
    } else {
        lemma_sqrt_floor_exists(n - 1);
        let r = sqrt_floor(n - 1);
        if n < (r + 1) * (r + 1) {
            assert(is_sqrt_floor(n, r));
        } else {
            assert(n == (r + 1) * (r + 1));
            assert((r + 1) * (r + 1) < (r + 2) * (r + 2)) by (nonlinear_arith)
                requires
                    r >= 0,
            ;
            assert(is_sqrt_floor(n, r + 1));
        }
        assert(exists|s: int| is_sqrt_floor(n, s));
    }
}

/// The integer square root is unique.
pub proof fn lemma_sqrt_floor_unique(n: int, r: int)
    requires
        is_sqrt_floor(n, r),
    ensures
        r == sqrt_floor(n),
{
    assert(n >= 0) by (nonlinear_arith)
        requires
            r * r <= n,
            r >= 0,
    ;
    lemma_sqrt_floor_exists(n);
    let r2 = sqrt_floor(n);
    if r < r2 {
        assert((r + 1) * (r + 1) <= r2 * r2) by (nonlinear_arith)
            requires
                0 <= r + 1 <= r2,
        ;
        assert(false);
    }
    if r2 < r {
        assert((r2 + 1) * (r2 + 1) <= r * r) by (nonlinear_arith)
            requires
                0 <= r2 + 1 <= r,
        ;
        assert(false);
    }
}

/// Integer square root by bisection.
pub fn isqrt(n: i64) -> (r: i64)
    requires
        0 <= n < 0x4000_0000_0000_0000,
    ensures
        r == sqrt_floor(n as int),
        is_sqrt_floor(n as int, r as int),
        0 <= r < 0x8000_0000,
{
    let mut lo: i64 = 0;
    let mut hi: i64 = 0x8000_0000;
    assert(hi * hi == 0x4000_0000_0000_0000);
    while lo + 1 < hi
        invariant
            0 <= lo < hi <= 0x8000_0000,
            lo * lo <= n,
            n < hi * hi,
        decreases hi - lo,
    {
        let mid: i64 = ((lo as u64 + hi as u64) / 2) as i64;
        assert(lo < mid < hi);
        assert(mid * mid < 0x4000_0000_0000_0000) by (nonlinear_arith)
            requires
                0 <= mid < 0x8000_0000,
        ;
        if mid * mid <= n {
            lo = mid;
        } else {
            hi = mid;
        }
    }
    proof {
        assert(is_sqrt_floor(n as int, lo as int));
        lemma_sqrt_floor_unique(n as int, lo as int);
    }
    lo
}

/// The direction of `(dx, dy)` as a fixed-point unit vector: the delta
/// scaled by `DIR_ONE` over its own length, rounded toward zero.
pub open spec fn norm_x_spec(dx: int, dy: int) -> int {
    scale_spec(dx, DIR_ONE as int, sqrt_floor(dx * dx + dy * dy))
}

/// See `norm_x_spec`.
pub open spec fn norm_y_spec(dx: int, dy: int) -> int {
    scale_spec(dy, DIR_ONE as int, sqrt_floor(dx * dx + dy * dy))
}

/// The length of a nonzero delta is at least the magnitude of each of its
/// components, so normalization never scales a component past `DIR_ONE`.
proof fn lemma_sqrt_ge_component(dx: int, dy: int, len: int)
    requires
        is_sqrt_floor(dx * dx + dy * dy, len),
    ensures
        len >= (if dx < 0 { -dx } else { dx }),
        len >= (if dy < 0 { -dy } else { dy }),
{
    let ax = if dx < 0 { -dx } else { dx };
    let ay = if dy < 0 { -dy } else { dy };
    assert(ax * ax <= dx * dx + dy * dy) by (nonlinear_arith)
        requires
            ax == (if dx < 0 { -dx } else { dx }),
    ;
    assert(ay * ay <= dx * dx + dy * dy) by (nonlinear_arith)
        requires
            ay == (if dy < 0 { -dy } else { dy }),
    ;
    if ax > len {
        assert((len + 1) * (len + 1) <= ax * ax) by (nonlinear_arith)
            requires
                0 <= len + 1 <= ax,
        ;
        assert(false);
    }
    if ay > len {
        assert((len + 1) * (len + 1) <= ay * ay) by (nonlinear_arith)
            requires
                0 <= len + 1 <= ay,
        ;
        assert(false);
    }
}

/// Normalizes a nonzero delta into a fixed-point direction. The zero delta
/// is excluded here; the follow engine holds position and keeps the old
/// direction in that degenerate case instead of dividing by zero.
pub fn normalize_dir(dx: i64, dy: i64) -> (r: Vec2)
    requires
        -WORLD_LIMIT <= dx <= WORLD_LIMIT,
        -WORLD_LIMIT <= dy <= WORLD_LIMIT,
        !(dx == 0 && dy == 0),
    ensures
        r.x == norm_x_spec(dx as int, dy as int),
        r.y == norm_y_spec(dx as int, dy as int),
        -DIR_ONE <= r.x <= DIR_ONE,
        -DIR_ONE <= r.y <= DIR_ONE,
{
    let n = dist_sq(Vec2 { x: dx, y: dy }, Vec2 { x: 0, y: 0 });
    assert(n == dx * dx + dy * dy);
    assert(n >= 1) by (nonlinear_arith)
        requires
            n == dx * dx + dy * dy,
            !(dx == 0 && dy == 0),
    ;
    assert(n < 0x4000_0000_0000_0000) by (nonlinear_arith)
        requires
            n == dx * dx + dy * dy,
            -WORLD_LIMIT <= dx <= WORLD_LIMIT,
            -WORLD_LIMIT <= dy <= WORLD_LIMIT,
    ;
    let len = isqrt(n);
    proof {
        lemma_sqrt_ge_component(dx as int, dy as int, len as int);
        assert(len >= 1);
    }
    let rx = scale_mag(dx, DIR_ONE, len);
    let ry = scale_mag(dy, DIR_ONE, len);
    proof {
        let ax: int = if dx < 0 { -dx as int } else { dx as int };
        let ay: int = if dy < 0 { -dy as int } else { dy as int };
        assert(ax * DIR_ONE <= len * DIR_ONE) by (nonlinear_arith)
            requires
                0 <= ax <= len,
        ;
        assert(ay * DIR_ONE <= len * DIR_ONE) by (nonlinear_arith)
            requires
                0 <= ay <= len,
        ;
        lemma_div_is_ordered(ax * DIR_ONE, len * DIR_ONE, len as int);
        lemma_div_is_ordered(ay * DIR_ONE, len * DIR_ONE, len as int);
        lemma_div_multiples_vanish(DIR_ONE as int, len as int);
        assert(len * DIR_ONE / (len as int) == DIR_ONE);
        assert(ax * DIR_ONE / (len as int) <= DIR_ONE);
        assert(ay * DIR_ONE / (len as int) <= DIR_ONE);
        lemma_div_pos_is_pos(ax * DIR_ONE, len as int);
        lemma_div_pos_is_pos(ay * DIR_ONE, len as int);
    }
    Vec2 { x: rx, y: ry }
}

} // verus!
