use vstd::prelude::*;
use vstd::arithmetic::div_mod::lemma_div_is_ordered;
use vstd::arithmetic::div_mod::lemma_div_multiples_vanish;
use vstd::arithmetic::div_mod::lemma_div_of0;
use vstd::arithmetic::div_mod::lemma_div_pos_is_pos;
use vstd::arithmetic::div_mod::lemma_fundamental_div_mod;
use vstd::arithmetic::div_mod::lemma_mod_division_less_than_divisor;
use vstd::arithmetic::mul::lemma_mul_inequality;

use crate::chain::Chain;
use crate::chain::Segment;
use crate::chain::SegmentRole;
use crate::chain::WorldBounds;
use crate::chain::bounds_ok;
use crate::chain::chain_wf;
use crate::chain::pos_ok;
use crate::chain::segment_ok;
use crate::constants::DIR_ONE;
use crate::constants::SNAKE_SEGMENT_GAP;
use crate::constants::SPEED_LIMIT;
use crate::geometry::Vec2;
use crate::geometry::norm_x_spec;
use crate::geometry::norm_y_spec;
use crate::geometry::normalize_dir;
use crate::geometry::is_sqrt_floor;
use crate::geometry::lemma_sqrt_floor_unique;
use crate::geometry::scale_mag;
use crate::geometry::scale_spec;
use crate::geometry::sqrt_floor;
use crate::geometry::wrap_coord;
use crate::geometry::wrap_coord_spec;
use crate::geometry::wrap_delta;
use crate::geometry::wrap_delta_spec;

verus! {

/// The head after one tick: displaced by its direction times the shared
/// speed, then wrapped back onto the torus. Direction and role are kept.
pub open spec fn advance_head_seg(s: Segment, speed: int, b: WorldBounds) -> Segment {
    Segment {
        position: Vec2 {
            x: wrap_coord_spec(
                s.position.x + scale_spec(s.direction.x as int, speed, DIR_ONE as int),
                b.width as int,
            ) as i64,
            y: wrap_coord_spec(
                s.position.y + scale_spec(s.direction.y as int, speed, DIR_ONE as int),
                b.height as int,
            ) as i64,
        },
        direction: s.direction,
        role: s.role,
    }
}

/// One body segment after one tick of chasing its predecessor, whose
/// position is taken from the snapshot made before any body segment moved.
/// The delta is seam-corrected per axis; a zero delta (segments exactly
/// overlapping) holds position and keeps the previous direction, so no
/// direction is ever derived from a zero-length vector. Otherwise the
/// segment moves along the delta by `|delta| / SNAKE_SEGMENT_GAP` times the
/// shared speed — per axis that is exactly `delta * speed / gap` — so a
/// stretched segment catches up and one at the nominal gap keeps pace.
pub open spec fn follow_one_seg(own: Segment, pred_pos: Vec2, speed: int, b: WorldBounds) -> Segment {
    let dx = wrap_delta_spec(pred_pos.x - own.position.x, b.width as int);
    let dy = wrap_delta_spec(pred_pos.y - own.position.y, b.height as int);
    if dx == 0 && dy == 0 {
        own
    } else {
        Segment {
            position: Vec2 {
                x: wrap_coord_spec(
                    own.position.x + scale_spec(dx, speed, SNAKE_SEGMENT_GAP as int),
                    b.width as int,
                ) as i64,
                y: wrap_coord_spec(
                    own.position.y + scale_spec(dy, speed, SNAKE_SEGMENT_GAP as int),
                    b.height as int,
                ) as i64,
            },
            direction: Vec2 { x: norm_x_spec(dx, dy) as i64, y: norm_y_spec(dx, dy) as i64 },
            role: own.role,
        }
    }
}

/// The whole chain after the body-follow phase: the head (already advanced
/// this tick) stays, and every body segment chases the snapshot position of
/// its predecessor. All reads go to the snapshot, so the update is
/// order-independent.
pub open spec fn follow_all(segs: Seq<Segment>, speed: int, b: WorldBounds) -> Seq<Segment> {
    Seq::new(
        segs.len(),
        |i: int|
            if i == 0 {
                segs[0]
            } else {
                follow_one_seg(segs[i], segs[i - 1].position, speed, b)
            },
    )
}

/// Advances the head by its direction and the shared speed, wrapping
/// toroidally; body segments are untouched.
pub fn snake_head_movement(chain: &mut Chain, speed: i64, b: WorldBounds)
    requires
        chain_wf(*old(chain), b),
        bounds_ok(b),
        0 <= speed <= SPEED_LIMIT,
    ensures
        final(chain).segments@ == old(chain).segments@.update(
            0,
            advance_head_seg(old(chain).segments@[0], speed as int, b),
        ),
        chain_wf(*final(chain), b),
{
    let head = chain.head();
    let ddx = scale_mag(head.direction.x, speed, DIR_ONE);
    let ddy = scale_mag(head.direction.y, speed, DIR_ONE);
    let nx = wrap_coord(head.position.x + ddx, b.width);
    let ny = wrap_coord(head.position.y + ddy, b.height);
    let new_head = Segment { position: Vec2 { x: nx, y: ny }, ..head };
    chain.segments[0] = new_head;
    proof {
        assert(new_head == advance_head_seg(old(chain).segments@[0], speed as int, b));
        assert(final(chain).segments@ =~= old(chain).segments@.update(
            0,
            advance_head_seg(old(chain).segments@[0], speed as int, b),
        ));
    }
}

/// One tick of the body-follow phase. Predecessor positions are snapshotted
/// before any body segment moves (the head has already advanced this tick),
/// so segments never chase a position that moved under them this tick.
pub fn snake_segments_movement(chain: &mut Chain, speed: i64, b: WorldBounds)
    requires
        chain_wf(*old(chain), b),
        bounds_ok(b),
        0 <= speed <= SPEED_LIMIT,
    ensures
        final(chain).segments@ == follow_all(old(chain).segments@, speed as int, b),
        chain_wf(*final(chain), b),
{
    let ghost orig = chain.segments@;
    let n = chain.segments.len();
    let mut prev_pos = chain.head().position;
    let mut i: usize = 1;
    while i < n
        invariant
            bounds_ok(b),
            0 <= speed <= SPEED_LIMIT,
            chain_wf(*old(chain), b),
            orig == old(chain).segments@,
            n == orig.len(),
            chain.segments@.len() == n,
            1 <= i <= n,
            prev_pos == orig[i - 1].position,
            chain.segments@[0] == orig[0],
            forall|j: int|
                1 <= j < i ==> chain.segments@[j] == follow_one_seg(
                    orig[j],
                    orig[j - 1].position,
                    speed as int,
                    b,
                ),
            forall|j: int| i <= j < n ==> chain.segments@[j] == orig[j],
            forall|j: int| 0 <= j < n ==> segment_ok(#[trigger] chain.segments@[j], b),
            forall|j: int|
                1 <= j < n ==> (#[trigger] chain.segments@[j]).role == SegmentRole::Body,
        decreases n - i,
    {
        let own = chain.segment(i);
        let dx = wrap_delta(prev_pos.x - own.position.x, b.width);
        let dy = wrap_delta(prev_pos.y - own.position.y, b.height);
        let new_seg: Segment;
        if dx == 0 && dy == 0 {
            new_seg = own;
        } else {
            let dir = normalize_dir(dx, dy);
            let ddx = scale_mag(dx, speed, SNAKE_SEGMENT_GAP);
            let ddy = scale_mag(dy, speed, SNAKE_SEGMENT_GAP);
            let px = wrap_coord(own.position.x + ddx, b.width);
            let py = wrap_coord(own.position.y + ddy, b.height);
            new_seg = Segment { position: Vec2 { x: px, y: py }, direction: dir, role: own.role };
        }
        proof {
            assert(new_seg == follow_one_seg(orig[i as int], orig[i - 1].position, speed as int, b));
        }
        let this_pos = own.position;
        chain.segments[i] = new_seg;
        prev_pos = this_pos;
        i = i + 1;
    }
    proof {
        assert(chain.segments@ =~= follow_all(orig, speed as int, b));
    }
}

/// Boundary behaviour of the toroidal wrap: a coordinate that stays inside
/// the world — the boundary itself included — is left exactly where it is;
/// one that moves past the upper bound comes back in at exactly `0`, and
/// one that moves below `0` comes back in at exactly the bound.
pub proof fn lemma_wrap_idempotence(x: int, disp: int, bound: int)
    requires
        0 < bound,
    ensures
        disp == 0 && 0 <= x <= bound ==> wrap_coord_spec(x + disp, bound) == x,
        x + disp > bound ==> wrap_coord_spec(x + disp, bound) == 0,
        x + disp < 0 ==> wrap_coord_spec(x + disp, bound) == bound,
{
}

/// A head with zero displacement — wherever it stands, a wrap boundary
/// included — is left unchanged by one tick of head movement.
pub proof fn lemma_zero_movement_holds_position(seg: Segment, speed: int, b: WorldBounds)
    requires
        bounds_ok(b),
        pos_ok(seg.position, b),
        seg.direction.x == 0,
        seg.direction.y == 0,
        0 <= speed <= SPEED_LIMIT,
    ensures
        advance_head_seg(seg, speed, b) == seg,
{
    assert(0 * speed == 0) by (nonlinear_arith);
    lemma_div_of0(DIR_ONE as int);
    assert(scale_spec(0, speed, DIR_ONE as int) == 0);
}

/// Follow convergence along a straight line: while the head moves a fixed
/// direction and no turn arrives, a body segment's stretched distance to
/// its just-advanced predecessor — the delta the follow step sees —
/// approaches `SNAKE_SEGMENT_GAP` monotonically from either side, never
/// crosses it, and is an exact fixed point at the gap itself; after one
/// such tick the segment's direction equals the head's exactly.
pub proof fn lemma_follow_convergence(head: Segment, own: Segment, speed: int, b: WorldBounds)
    requires
        bounds_ok(b),
        1 <= speed <= SNAKE_SEGMENT_GAP,
        head.direction.x == DIR_ONE,
        head.direction.y == 0,
        pos_ok(head.position, b),
        pos_ok(own.position, b),
        own.position.y == head.position.y,
        own.position.x < head.position.x,
        head.position.x + speed <= b.width,
        head.position.x + speed - own.position.x < b.width - crate::constants::WRAP_MARGIN,
    ensures
        advance_head_seg(head, speed, b).position.x == head.position.x + speed,
        advance_head_seg(head, speed, b).position.y == head.position.y,
        ({
            let moved = advance_head_seg(head, speed, b);
            let e0 = moved.position.x - own.position.x;
            let f = follow_one_seg(own, moved.position, speed, b);
            let e1 = moved.position.x - f.position.x + speed;
            &&& f.position.y == own.position.y
            &&& f.direction.x == DIR_ONE
            &&& f.direction.y == 0
            &&& (e0 >= SNAKE_SEGMENT_GAP ==> SNAKE_SEGMENT_GAP <= e1 <= e0)
            &&& (e0 <= SNAKE_SEGMENT_GAP ==> e0 <= e1 <= SNAKE_SEGMENT_GAP)
        }),
{
    let d = DIR_ONE as int;
    let g = SNAKE_SEGMENT_GAP as int;
    // Head advance is exact: DIR_ONE * speed / DIR_ONE == speed.
    lemma_div_multiples_vanish(speed, d);
    assert(speed * d == d * speed) by (nonlinear_arith);
    assert(scale_spec(d, speed, d) == speed);
    assert(0 * speed == 0) by (nonlinear_arith);
    lemma_div_of0(d);
    assert(scale_spec(0, speed, d) == 0);
    let moved = advance_head_seg(head, speed, b);
    assert(moved.position.x == head.position.x + speed);
    assert(moved.position.y == head.position.y);

    let e0 = moved.position.x - own.position.x;
    assert(e0 > speed >= 1);
    // No seam correction: the delta is shorter than the span minus margin.
    assert(wrap_delta_spec(e0, b.width as int) == e0);
    assert(wrap_delta_spec(0, b.height as int) == 0);

    // The follow displacement is e0 * speed / gap, in range [0, e0].
    let q = e0 * speed / g;
    let r = e0 * speed % g;
    lemma_fundamental_div_mod(e0 * speed, g);
    lemma_mod_division_less_than_divisor(e0 * speed, g);
    assert(e0 * speed >= 0) by (nonlinear_arith)
        requires
            e0 >= 0,
            speed >= 0,
    ;
    lemma_div_pos_is_pos(e0 * speed, g);
    lemma_mul_inequality(speed, g, e0);
    assert(speed * e0 == e0 * speed && g * e0 == e0 * g) by (nonlinear_arith);
    lemma_div_is_ordered(e0 * speed, e0 * g, g);
    lemma_div_multiples_vanish(e0, g);
    assert(q <= e0);
    assert(scale_spec(e0, speed, g) == q);

    // The follower's new position needs no wrap.
    assert(0 <= own.position.x + q <= b.width);
    let f = follow_one_seg(own, moved.position, speed, b);
    assert(f.position.x == own.position.x + q);
    assert(f.position.y == own.position.y);

    // Direction locks to the head's: the delta is (e0, 0), whose length is
    // exactly e0, so the normalized direction is exactly (DIR_ONE, 0).
    assert(e0 * e0 + 0 * 0 == e0 * e0 && e0 * e0 < (e0 + 1) * (e0 + 1) && 0 <= e0 * e0)
        by (nonlinear_arith)
        requires
            e0 >= 1,
    ;
    assert(is_sqrt_floor(e0 * e0 + 0 * 0, e0));
    lemma_sqrt_floor_unique(e0 * e0 + 0 * 0, e0);
    lemma_div_multiples_vanish(d, e0);
    assert(d * e0 == e0 * d) by (nonlinear_arith);
    assert(norm_x_spec(e0, 0) == d);
    lemma_div_of0(e0);
    assert(0 * d == 0) by (nonlinear_arith);
    assert(norm_y_spec(e0, 0) == 0);
    assert(f.direction.x == DIR_ONE && f.direction.y == 0);

    // Monotone band convergence of the stretched distance.
    let e1 = moved.position.x - f.position.x + speed;
    assert(e1 == e0 - q + speed);
    if e0 >= g {
        // q >= speed, so the stretch does not grow.
        assert(g * speed <= e0 * speed) by (nonlinear_arith)
            requires
                g <= e0,
                speed >= 0,
        ;
        if q <= speed - 1 {
            assert(e0 * speed == q * g + r);
            assert(q * g <= (speed - 1) * g) by (nonlinear_arith)
                requires
                    q <= speed - 1,
                    g > 0,
            ;
            assert((speed - 1) * g + g == speed * g) by (nonlinear_arith);
            assert(speed * g == g * speed) by (nonlinear_arith);
            assert(false);
        }
        assert(q >= speed);
        // q <= e0 + speed - g, so the stretch never undershoots the gap.
        assert((e0 - g) * (g - speed) >= 0) by (nonlinear_arith)
            requires
                e0 >= g,
                speed <= g,
        ;
        assert((e0 + speed - g) * g == e0 * g + speed * g - g * g) by (nonlinear_arith);
        assert(q * g <= e0 * speed) by (nonlinear_arith)
            requires
                e0 * speed == q * g + r,
                r >= 0,
        ;
        assert(e0 * speed <= (e0 + speed - g) * g) by (nonlinear_arith)
            requires
                (e0 - g) * (g - speed) >= 0,
        ;
        assert(q <= e0 + speed - g) by (nonlinear_arith)
            requires
                q * g <= (e0 + speed - g) * g,
                g > 0,
        ;
    }
    if e0 <= g {
        // q <= speed, so the stretch does not shrink.
        assert(e0 * speed <= g * speed) by (nonlinear_arith)
            requires
                e0 <= g,
                speed >= 0,
        ;
        assert(g * speed == speed * g) by (nonlinear_arith);
        lemma_div_is_ordered(e0 * speed, speed * g, g);
        lemma_div_multiples_vanish(speed, g);
        assert(q <= speed);
        // q >= e0 + speed - g, so the stretch never overshoots the gap.
        if e0 + speed - g >= 1 {
            assert((g - e0) * (g - speed) >= 0) by (nonlinear_arith)
                requires
                    e0 <= g,
                    speed <= g,
            ;
            assert((e0 + speed - g) * g <= e0 * speed) by (nonlinear_arith)
                requires
                    (g - e0) * (g - speed) >= 0,
            ;
            if q <= e0 + speed - g - 1 {
                assert(e0 * speed == q * g + r);
                assert(q * g + r < (q + 1) * g) by (nonlinear_arith)
                    requires
                        r < g,
                ;
                assert((q + 1) * g <= (e0 + speed - g) * g) by (nonlinear_arith)
                    requires
                        q + 1 <= e0 + speed - g,
                        g > 0,
                ;
                assert(false);
            }
            assert(q >= e0 + speed - g);
        }
    }
}

/// Degenerate-delta safety: a segment placed at the identical position as
/// its predecessor holds its position and keeps its previous direction
/// after one follow tick — the zero-length delta is never normalized, so
/// no invalid direction can arise from it.
pub proof fn lemma_degenerate_delta_safety(own: Segment, speed: int, b: WorldBounds)
    requires
        bounds_ok(b),
        pos_ok(own.position, b),
    ensures
        follow_one_seg(own, own.position, speed, b) == own,
{
}

} // verus!
