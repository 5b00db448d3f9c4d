use vstd::prelude::*;
use vstd::arithmetic::div_mod::lemma_fundamental_div_mod;
use vstd::arithmetic::div_mod::lemma_mod_division_less_than_divisor;
use vstd::arithmetic::div_mod::lemma_div_pos_is_pos;

use crate::chain::Chain;
use crate::chain::Segment;
use crate::chain::WorldBounds;
use crate::chain::bounds_ok;
use crate::chain::chain_wf;
use crate::chain::head_dir_ok;
use crate::constants::DIR_ONE;
use crate::constants::ROTATE_COS;
use crate::constants::ROTATE_SIN;
use crate::geometry::Vec2;
use crate::geometry::div_one;
use crate::geometry::div_one_spec;

verus! {

/// x component of a direction rotated left by the fixed steering angle.
pub open spec fn turn_left_x_spec(d: Vec2) -> int {
    div_one_spec(d.x * ROTATE_COS - d.y * ROTATE_SIN)
}

/// y component of a direction rotated left by the fixed steering angle.
pub open spec fn turn_left_y_spec(d: Vec2) -> int {
    div_one_spec(d.x * ROTATE_SIN + d.y * ROTATE_COS)
}

/// x component of a direction rotated right by the fixed steering angle.
pub open spec fn turn_right_x_spec(d: Vec2) -> int {
    div_one_spec(d.x * ROTATE_COS + d.y * ROTATE_SIN)
}

/// y component of a direction rotated right by the fixed steering angle.
pub open spec fn turn_right_y_spec(d: Vec2) -> int {
    div_one_spec(d.y * ROTATE_COS - d.x * ROTATE_SIN)
}

/// The rotation identity: a rotation matrix scales a squared norm by its
/// own squared norm, exactly.
proof fn lemma_rot_identity(a: int, b: int, c: int, s: int)
    ensures
        (a * c - b * s) * (a * c - b * s) + (a * s + b * c) * (a * s + b * c) == (c * c + s * s) * (
        a * a + b * b),
{
    let u = a * c;
    let v = b * s;
    let w = a * s;
    let z = b * c;
    assert((u - v) * (u - v) == u * u - 2 * (u * v) + v * v) by (nonlinear_arith);
    assert((w + z) * (w + z) == w * w + 2 * (w * z) + z * z) by (nonlinear_arith);
    assert(u * v == w * z) by (nonlinear_arith)
        requires
            u == a * c,
            v == b * s,
            w == a * s,
            z == b * c,
    ;
    assert(u * u == (a * a) * (c * c)) by (nonlinear_arith)
        requires
            u == a * c,
    ;
    assert(v * v == (b * b) * (s * s)) by (nonlinear_arith)
        requires
            v == b * s,
    ;
    assert(w * w == (a * a) * (s * s)) by (nonlinear_arith)
        requires
            w == a * s,
    ;
    assert(z * z == (b * b) * (c * c)) by (nonlinear_arith)
        requires
            z == b * c,
    ;
    assert((c * c + s * s) * (a * a + b * b) == (a * a) * (c * c) + (b * b) * (s * s) + (a * a) * (s
        * s) + (b * b) * (c * c)) by (nonlinear_arith);
}

/// A fixed-angle rotation never inflates a direction: the rotation matrix
/// has fixed-point norm at most one and the scale-back division rounds the
/// magnitude down, so the squared norm stays within one unit.
proof fn lemma_turn_preserves_norm(dx: int, dy: int, sgn: int, qx: int, qy: int)
    requires
        dx * dx + dy * dy <= DIR_ONE * DIR_ONE,
        sgn == 1 || sgn == -1,
        qx == div_one_spec(dx * ROTATE_COS - sgn * (dy * ROTATE_SIN)),
        qy == div_one_spec(sgn * (dx * ROTATE_SIN) + dy * ROTATE_COS),
    ensures
        qx * qx + qy * qy <= DIR_ONE * DIR_ONE,
        -DIR_ONE <= qx <= DIR_ONE,
        -DIR_ONE <= qy <= DIR_ONE,
{
    let c = ROTATE_COS as int;
    let s = ROTATE_SIN as int;
    let d = DIR_ONE as int;
    let nx = dx * c - sgn * (dy * s);
    let ny = sgn * (dx * s) + dy * c;
    if sgn == 1 {
        assert(sgn * (dy * s) == dy * s && sgn * (dx * s) == dx * s) by (nonlinear_arith)
            requires
                sgn == 1,
        ;
        lemma_rot_identity(dx, dy, c, s);
        assert(nx == dx * c - dy * s && ny == dx * s + dy * c);
    } else {
        assert(sgn * (dy * s) == -(dy * s) && sgn * (dx * s) == -(dx * s)) by (nonlinear_arith)
            requires
                sgn == -1,
        ;
        // A right turn is the left rotation of the mirrored vector.
        lemma_rot_identity(dx, -dy, c, s);
        assert(nx == dx * c + dy * s && ny == dy * c - dx * s);
        assert((dx * c - (-dy) * s) == nx && (dx * s + (-dy) * c) == -ny) by (nonlinear_arith)
            requires
                nx == dx * c + dy * s,
                ny == dy * c - dx * s,
        ;
        assert((-ny) * (-ny) == ny * ny && (-dy) * (-dy) == dy * dy) by (nonlinear_arith);
    }
    assert(nx * nx + ny * ny == (c * c + s * s) * (dx * dx + dy * dy));
    assert(0 <= dx * dx && 0 <= dy * dy) by (nonlinear_arith);
    assert(c * c + s * s <= d * d) by (nonlinear_arith)
        requires
            c == 988_771,
            s == 149_438,
            d == 1_000_000,
    ;
    assert(nx * nx + ny * ny <= (d * d) * (d * d)) by (nonlinear_arith)
        requires
            nx * nx + ny * ny == (c * c + s * s) * (dx * dx + dy * dy),
            0 <= c * c + s * s <= d * d,
            0 <= dx * dx + dy * dy <= d * d,
    ;
    let ax = if nx >= 0 { nx } else { -nx };
    let ay = if ny >= 0 { ny } else { -ny };
    let mx = ax / d;
    let my = ay / d;
    lemma_fundamental_div_mod(ax, d);
    lemma_fundamental_div_mod(ay, d);
    lemma_mod_division_less_than_divisor(ax, d);
    lemma_mod_division_less_than_divisor(ay, d);
    lemma_div_pos_is_pos(ax, d);
    lemma_div_pos_is_pos(ay, d);
    assert(mx * d <= ax && my * d <= ay);
    assert((mx * mx) * (d * d) <= ax * ax) by (nonlinear_arith)
        requires
            0 <= mx,
            0 < d,
            mx * d <= ax,
    ;
    assert((my * my) * (d * d) <= ay * ay) by (nonlinear_arith)
        requires
            0 <= my,
            0 < d,
            my * d <= ay,
    ;
    assert(ax * ax == nx * nx && ay * ay == ny * ny) by (nonlinear_arith)
        requires
            ax == (if nx >= 0 { nx } else { -nx }),
            ay == (if ny >= 0 { ny } else { -ny }),
    ;
    assert(mx * mx + my * my <= d * d) by (nonlinear_arith)
        requires
            (mx * mx) * (d * d) + (my * my) * (d * d) <= (d * d) * (d * d),
            0 < d * d,
    ;
    assert(mx <= d && my <= d) by (nonlinear_arith)
        requires
            mx * mx + my * my <= d * d,
            0 <= mx,
            0 <= my,
            0 < d,
    ;
    assert(qx * qx == mx * mx && qy * qy == my * my) by (nonlinear_arith)
        requires
            qx == mx || qx == -mx,
            qy == my || qy == -my,
    ;
}

/// Rotates a direction left (counterclockwise) by the fixed steering angle.
pub fn turn_left(d: Vec2) -> (r: Vec2)
    requires
        head_dir_ok(d),
    ensures
        r.x == turn_left_x_spec(d),
        r.y == turn_left_y_spec(d),
        head_dir_ok(r),
{
    let nx = d.x * ROTATE_COS - d.y * ROTATE_SIN;
    let ny = d.x * ROTATE_SIN + d.y * ROTATE_COS;
    let rx = div_one(nx);
    let ry = div_one(ny);
    proof {
        lemma_turn_preserves_norm(d.x as int, d.y as int, 1, rx as int, ry as int);
    }
    Vec2 { x: rx, y: ry }
}

/// Rotates a direction right (clockwise) by the fixed steering angle.
pub fn turn_right(d: Vec2) -> (r: Vec2)
    requires
        head_dir_ok(d),
    ensures
        r.x == turn_right_x_spec(d),
        r.y == turn_right_y_spec(d),
        head_dir_ok(r),
{
    let nx = d.x * ROTATE_COS + d.y * ROTATE_SIN;
    let ny = d.y * ROTATE_COS - d.x * ROTATE_SIN;
    let rx = div_one(nx);
    let ry = div_one(ny);
    proof {
        lemma_turn_preserves_norm(d.x as int, d.y as int, -1, rx as int, ry as int);
    }
    Vec2 { x: rx, y: ry }
}

/// The steered head direction: a lone left press rotates left, a lone right
/// press rotates right, and both or neither leave the direction unchanged
/// (the two rotations are inverse, so pressing both is a net no-op).
pub open spec fn steered_x_spec(d: Vec2, left: bool, right: bool) -> int {
    if left && !right {
        turn_left_x_spec(d)
    } else if right && !left {
        turn_right_x_spec(d)
    } else {
        d.x as int
    }
}

/// See `steered_x_spec`.
pub open spec fn steered_y_spec(d: Vec2, left: bool, right: bool) -> int {
    if left && !right {
        turn_left_y_spec(d)
    } else if right && !left {
        turn_right_y_spec(d)
    } else {
        d.y as int
    }
}

/// A chain after one steering intent was applied to its head.
pub open spec fn steered_chain(segs: Seq<Segment>, left: bool, right: bool) -> Seq<Segment> {
    segs.update(
        0,
        Segment {
            direction: Vec2 {
                x: steered_x_spec(segs[0].direction, left, right) as i64,
                y: steered_y_spec(segs[0].direction, left, right) as i64,
            },
            ..segs[0]
        },
    )
}

/// Applies the tick's sampled turn intent to the head's direction. Sampled
/// at most once per tick; the body segments steer themselves by following.
pub fn snake_head_input(chain: &mut Chain, left: bool, right: bool, b: WorldBounds)
    requires
        chain_wf(*old(chain), b),
        bounds_ok(b),
    ensures
        final(chain).segments@ == steered_chain(old(chain).segments@, left, right),
        chain_wf(*final(chain), b),
{
    let head = chain.head();
    let new_dir = if left && !right {
        turn_left(head.direction)
    } else if right && !left {
        turn_right(head.direction)
    } else {
        head.direction
    };
    chain.segments[0] = Segment { direction: new_dir, ..head };
    proof {
        assert(final(chain).segments@ =~= steered_chain(old(chain).segments@, left, right));
    }
}

} // verus!
