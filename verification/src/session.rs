use vstd::prelude::*;
use vstd::arithmetic::div_mod::lemma_div_nonincreasing;
use vstd::arithmetic::div_mod::lemma_div_pos_is_pos;

use crate::chain::Chain;
use crate::chain::Segment;
use crate::chain::SegmentRole;
use crate::chain::WorldBounds;
use crate::chain::bounds_ok;
use crate::chain::chain_wf;
use crate::chain::clamp_truncate_index;
use crate::chain::pos_ok;
use crate::constants::CHAIN_LIMIT;
use crate::constants::DIR_ONE;
use crate::constants::SNAKE_DEFAULT_SPEED;
use crate::constants::SNAKE_EAT_SELF_DISTANCE;
use crate::constants::SNAKE_SEGMENT_GAP;
use crate::constants::SNAKE_SPEED_INCREMENT;
use crate::constants::SPEED_LIMIT;
use crate::constants::STARTUP_FOOD_AMOUNT;
use crate::follow::advance_head_seg;
use crate::follow::follow_all;
use crate::follow::snake_head_movement;
use crate::follow::snake_segments_movement;
use crate::food::Food;
use crate::food::check_food_eaten;
use crate::food::in_spawn_margins;
use crate::food::replenish_food;
use crate::food::surviving_food;
use crate::geometry::Vec2;
use crate::geometry::dist_sq;
use crate::geometry::dist_sq_spec;
use crate::geometry::scale_mag;
use crate::geometry::scale_spec;
use crate::geometry::wrap_coord;
use crate::geometry::wrap_coord_spec;
use crate::steering::snake_head_input;
use crate::steering::steered_chain;

verus! {

/// A session is driven tick by tick while `Running`; `Ended` is terminal
/// and a fresh session requires full reinitialization.
#[derive(Clone, Copy, PartialEq, Eq, Structural, Debug)]
pub enum SessionLifecycle {
    Running,
    Ended,
}

/// The shared scalar speed, one for the whole chain: every segment moves at
/// the same speed, which changes only through growth and collision events.
#[derive(Clone, Copy, PartialEq, Eq, Structural, Debug)]
pub struct GameState {
    pub speed: i64,
}

/// Everything one running session owns: the chain, the shared speed, the
/// active food items, the world, and the lifecycle flag.
pub struct Session {
    pub chain: Chain,
    pub state: GameState,
    pub foods: Vec<Food>,
    pub bounds: WorldBounds,
    pub lifecycle: SessionLifecycle,
}

/// What one tick reports back to the driver, for telemetry and for issuing
/// one food spawn request per item eaten.
#[derive(Clone, Copy, PartialEq, Eq, Structural, Debug)]
pub struct TickEvents {
    pub food_eaten: usize,
    pub segments_truncated: usize,
    pub session_ended: bool,
}

/// The shared speed stays inside its saturation guard.
pub open spec fn speed_ok(speed: int) -> bool {
    0 <= speed <= SPEED_LIMIT
}

/// Session invariant, preserved by every tick.
pub open spec fn session_wf(s: Session) -> bool {
    &&& bounds_ok(s.bounds)
    &&& chain_wf(s.chain, s.bounds)
    &&& speed_ok(s.state.speed as int)
    &&& forall|i: int|
        0 <= i < s.foods@.len() ==> pos_ok((#[trigger] s.foods@[i]).position, s.bounds)
}

/// Speed gain on one food event: exactly one increment, saturating only at
/// the far overflow guard.
pub open spec fn sat_add_speed(sp: int) -> int {
    if sp + SNAKE_SPEED_INCREMENT <= SPEED_LIMIT {
        sp + SNAKE_SPEED_INCREMENT
    } else {
        SPEED_LIMIT as int
    }
}

/// Speed loss on truncation: one increment per removed segment, clamped at
/// zero so the snake never moves backward.
pub open spec fn sat_sub_speed(sp: int, dec: int) -> int {
    if sp - dec >= 0 {
        sp - dec
    } else {
        0
    }
}

/// x of a grown tail segment: one gap behind the current tail along the
/// tail's outward-facing direction, wrapped onto the torus.
pub open spec fn grow_pos_x(tail: Segment, b: WorldBounds) -> int {
    wrap_coord_spec(
        tail.position.x - scale_spec(
            tail.direction.x as int,
            SNAKE_SEGMENT_GAP as int,
            DIR_ONE as int,
        ),
        b.width as int,
    )
}

/// See `grow_pos_x`.
pub open spec fn grow_pos_y(tail: Segment, b: WorldBounds) -> int {
    wrap_coord_spec(
        tail.position.y - scale_spec(
            tail.direction.y as int,
            SNAKE_SEGMENT_GAP as int,
            DIR_ONE as int,
        ),
        b.height as int,
    )
}

/// The chain after one growth event: a new body segment one gap behind the
/// tail, with a direction it will only acquire on its first follow tick.
pub open spec fn grow_chain(segs: Seq<Segment>, b: WorldBounds) -> Seq<Segment> {
    if segs.len() < CHAIN_LIMIT {
        segs.push(
            Segment {
                position: Vec2 {
                    x: grow_pos_x(segs.last(), b) as i64,
                    y: grow_pos_y(segs.last(), b) as i64,
                },
                direction: Vec2 { x: 0, y: 0 },
                role: SegmentRole::Body,
            },
        )
    } else {
        segs
    }
}

/// `n` growth events applied in order, one per FoodEaten signal: the
/// signals of one tick are not coalesced.
pub open spec fn grow_n(segs: Seq<Segment>, speed: int, b: WorldBounds, n: nat) -> (
    Seq<Segment>,
    int,
)
    decreases n,
{
    if n == 0 {
        (segs, speed)
    } else {
        let prev = grow_n(segs, speed, b, (n - 1) as nat);
        (grow_chain(prev.0, b), sat_add_speed(prev.1))
    }
}

/// The first body segment at index at least 2 within eat-self distance of
/// the head, or the chain length if there is none. Index 1 is always
/// skipped: the segment straight behind the head sits within gap distance
/// in steady state and would trigger falsely.
pub open spec fn first_self_hit(segs: Seq<Segment>, i: int) -> int
    decreases segs.len() - i,
{
    if !(2 <= i < segs.len()) {
        segs.len() as int
    } else if dist_sq_spec(segs[i].position, segs[0].position) <= SNAKE_EAT_SELF_DISTANCE
        * SNAKE_EAT_SELF_DISTANCE {
        i
    } else {
        first_self_hit(segs, i + 1)
    }
}

/// The scan result is never past the end of the chain.
pub proof fn lemma_first_self_hit_le_len(segs: Seq<Segment>, i: int)
    ensures
        first_self_hit(segs, i) <= segs.len(),
    decreases segs.len() - i,
{
    if !(2 <= i < segs.len()) {
    } else if dist_sq_spec(segs[i].position, segs[0].position) <= SNAKE_EAT_SELF_DISTANCE
        * SNAKE_EAT_SELF_DISTANCE {
    } else {
        lemma_first_self_hit_le_len(segs, i + 1);
    }
}

/// A fresh session: a two-segment chain at the world center, the tail two
/// gaps behind the head, default speed and direction, no food, running.
pub fn new_session(b: WorldBounds) -> (s: Session)
    requires
        bounds_ok(b),
    ensures
        session_wf(s),
        s.bounds == b,
        s.lifecycle == SessionLifecycle::Running,
        s.state.speed == SNAKE_DEFAULT_SPEED,
        s.foods@.len() == 0,
        s.chain.segments@.len() == 2,
        s.chain.segments@[0].position.x == b.width as int / 2,
        s.chain.segments@[0].position.y == b.height as int / 2,
        s.chain.segments@[0].direction == (Vec2 { x: DIR_ONE, y: 0 }),
        s.chain.segments@[1].position.x == wrap_coord_spec(
            b.width as int / 2 - 2 * SNAKE_SEGMENT_GAP,
            b.width as int,
        ),
        s.chain.segments@[1].position.y == b.height as int / 2,
        s.chain.segments@[1].direction == (Vec2 { x: 0, y: 0 }),
{
    let cx = ((b.width as u64) / 2) as i64;
    let cy = ((b.height as u64) / 2) as i64;
    proof {
        lemma_div_nonincreasing(b.width as int, 2);
        lemma_div_nonincreasing(b.height as int, 2);
        lemma_div_pos_is_pos(b.width as int, 2);
        lemma_div_pos_is_pos(b.height as int, 2);
        assert(DIR_ONE * DIR_ONE + 0 * 0 <= DIR_ONE * DIR_ONE) by (nonlinear_arith);
    }
    let tx = wrap_coord(cx - 2 * SNAKE_SEGMENT_GAP, b.width);
    let head = Segment {
        position: Vec2 { x: cx, y: cy },
        direction: Vec2 { x: DIR_ONE, y: 0 },
        role: SegmentRole::Head,
    };
    let tail = Segment {
        position: Vec2 { x: tx, y: cy },
        direction: Vec2 { x: 0, y: 0 },
        role: SegmentRole::Body,
    };
    let mut segments: Vec<Segment> = Vec::new();
    segments.push(head);
    segments.push(tail);
    Session {
        chain: Chain { segments },
        state: GameState { speed: SNAKE_DEFAULT_SPEED },
        foods: Vec::new(),
        bounds: b,
        lifecycle: SessionLifecycle::Running,
    }
}

/// Applies one FoodEaten signal: the shared speed rises by exactly one
/// increment (saturating only at the far overflow guard) and one new tail
/// segment is appended one gap behind the tail along its outward-facing
/// direction. The caller owes one food spawn request per signal.
pub fn food_eaten(chain: &mut Chain, state: &mut GameState, b: WorldBounds)
    requires
        chain_wf(*old(chain), b),
        bounds_ok(b),
        speed_ok(old(state).speed as int),
    ensures
        final(chain).segments@ == grow_chain(old(chain).segments@, b),
        final(state).speed == sat_add_speed(old(state).speed as int),
        chain_wf(*final(chain), b),
        speed_ok(final(state).speed as int),
{
    if state.speed + SNAKE_SPEED_INCREMENT <= SPEED_LIMIT {
        state.speed = state.speed + SNAKE_SPEED_INCREMENT;
    } else {
        state.speed = SPEED_LIMIT;
    }
    let len = chain.len();
    if len < CHAIN_LIMIT {
        let tail = chain.segment(len - 1);
        let ox = scale_mag(tail.direction.x, SNAKE_SEGMENT_GAP, DIR_ONE);
        let oy = scale_mag(tail.direction.y, SNAKE_SEGMENT_GAP, DIR_ONE);
        let px = wrap_coord(tail.position.x - ox, b.width);
        let py = wrap_coord(tail.position.y - oy, b.height);
        chain.append_tail(Vec2 { x: px, y: py }, Vec2 { x: 0, y: 0 });
    }
}

/// One FoodEaten signal always grows the chain by exactly one segment and
/// raises the shared speed by exactly one increment, anywhere below the
/// far saturation guards.
pub proof fn lemma_food_growth(segs: Seq<Segment>, speed: int, b: WorldBounds)
    requires
        1 <= segs.len() < CHAIN_LIMIT,
        0 <= speed,
        speed + SNAKE_SPEED_INCREMENT <= SPEED_LIMIT,
    ensures
        grow_chain(segs, b).len() == segs.len() + 1,
        sat_add_speed(speed) == speed + SNAKE_SPEED_INCREMENT,
{
}

/// Truncates the chain at `index` (clamped so the head survives), lowers
/// the shared speed by one increment per removed segment (clamped at
/// zero), and — the terminal condition — ends the session if at most the
/// head remains.
pub fn apply_truncation(
    chain: &mut Chain,
    state: &mut GameState,
    lifecycle: &mut SessionLifecycle,
    index: usize,
    b: WorldBounds,
) -> (removed: usize)
    requires
        chain_wf(*old(chain), b),
        bounds_ok(b),
        speed_ok(old(state).speed as int),
    ensures
        ({
            let cut = clamp_truncate_index(index as int, old(chain).segments@.len() as int);
            &&& final(chain).segments@ == old(chain).segments@.subrange(0, cut)
            &&& removed == old(chain).segments@.len() - cut
            &&& final(state).speed == sat_sub_speed(
                old(state).speed as int,
                removed * SNAKE_SPEED_INCREMENT,
            )
            &&& *final(lifecycle) == (if cut <= 1 {
                SessionLifecycle::Ended
            } else {
                *old(lifecycle)
            })
        }),
        chain_wf(*final(chain), b),
        speed_ok(final(state).speed as int),
{
    let removed_vec = chain.truncate_from(index);
    let removed = removed_vec.len();
    let dec = (removed as i64) * SNAKE_SPEED_INCREMENT;
    if state.speed >= dec {
        state.speed = state.speed - dec;
    } else {
        state.speed = 0;
    }
    if chain.len() <= 1 {
        *lifecycle = SessionLifecycle::Ended;
    }
    removed
}

/// Scans body segments from index 2 upward for the first within eat-self
/// distance of the head and truncates the chain from it; the scan stops
/// there, since the truncated indices no longer exist. Positions were
/// fixed by the follow phase, so the scan sees a consistent snapshot.
pub fn check_eat_self(
    chain: &mut Chain,
    state: &mut GameState,
    lifecycle: &mut SessionLifecycle,
    b: WorldBounds,
) -> (removed: usize)
    requires
        chain_wf(*old(chain), b),
        bounds_ok(b),
        speed_ok(old(state).speed as int),
    ensures
        ({
            let segs = old(chain).segments@;
            let hit = first_self_hit(segs, 2);
            &&& (hit == segs.len() ==> final(chain).segments@ == segs
                && *final(state) == *old(state)
                && *final(lifecycle) == *old(lifecycle) && removed == 0)
            &&& (hit < segs.len() ==> final(chain).segments@ == segs.subrange(0, hit)
                && final(state).speed == sat_sub_speed(
                old(state).speed as int,
                (segs.len() - hit) * SNAKE_SPEED_INCREMENT,
            ) && removed == segs.len() - hit && *final(lifecycle) == *old(lifecycle))
        }),
        chain_wf(*final(chain), b),
        speed_ok(final(state).speed as int),
{
    let head = chain.head();
    let n = chain.len();
    let mut i: usize = 2;
    while i < n
        invariant
            chain_wf(*chain, b),
            bounds_ok(b),
            speed_ok(state.speed as int),
            *chain == *old(chain),
            *state == *old(state),
            *lifecycle == *old(lifecycle),
            head == chain.segments@[0],
            n == chain.segments@.len(),
            2 <= i,
            first_self_hit(chain.segments@, 2) == first_self_hit(chain.segments@, i as int),
        decreases n - i,
    {
        let seg = chain.segment(i);
        let d = dist_sq(seg.position, head.position);
        if d <= SNAKE_EAT_SELF_DISTANCE * SNAKE_EAT_SELF_DISTANCE {
            proof {
                assert(first_self_hit(old(chain).segments@, 2) == i);
            }
            let removed = apply_truncation(chain, state, lifecycle, i, b);
            return removed;
        }
        i = i + 1;
    }
    0
}

/// One full simulation tick in the fixed phase order: steering, head
/// advance, body follow, food pickup, one growth event per food eaten,
/// self-collision. An ended session is never mutated: a tick on it is a
/// no-op reporting no events, and the driver must stop ticking.
pub fn tick(s: &mut Session, left: bool, right: bool) -> (ev: TickEvents)
    requires
        session_wf(*old(s)),
    ensures
        session_wf(*final(s)),
        final(s).bounds == old(s).bounds,
        old(s).lifecycle == SessionLifecycle::Ended ==> final(s).chain.segments@
            == old(s).chain.segments@
            && final(s).state == old(s).state && final(s).foods@ == old(s).foods@
            && final(s).lifecycle == SessionLifecycle::Ended && ev == (TickEvents {
            food_eaten: 0,
            segments_truncated: 0,
            session_ended: false,
        }),
        old(s).lifecycle == SessionLifecycle::Running ==> ({
            let b = old(s).bounds;
            let speed = old(s).state.speed as int;
            let s1 = steered_chain(old(s).chain.segments@, left, right);
            let s2 = s1.update(0, advance_head_seg(s1[0], speed, b));
            let s3 = follow_all(s2, speed, b);
            let survivors = surviving_food(old(s).foods@, s3[0].position);
            let eaten = old(s).foods@.len() - survivors.len();
            let grown = grow_n(s3, speed, b, eaten as nat);
            let hit = first_self_hit(grown.0, 2);
            let len4 = grown.0.len() as int;
            &&& final(s).foods@ == survivors
            &&& ev.food_eaten == eaten
            &&& (hit == len4 ==> final(s).chain.segments@ == grown.0 && final(s).state.speed
                == grown.1 && ev.segments_truncated == 0)
            &&& (hit < len4 ==> final(s).chain.segments@ == grown.0.subrange(0, hit)
                && final(s).state.speed == sat_sub_speed(
                    grown.1,
                    (len4 - hit) * SNAKE_SPEED_INCREMENT,
                ) && ev.segments_truncated == len4 - hit)
            &&& final(s).lifecycle == SessionLifecycle::Running
            &&& ev.session_ended == false
        }),
{
    if matches!(s.lifecycle, SessionLifecycle::Ended) {
        return TickEvents { food_eaten: 0, segments_truncated: 0, session_ended: false };
    }
    let b = s.bounds;
    snake_head_input(&mut s.chain, left, right, b);
    let speed = s.state.speed;
    snake_head_movement(&mut s.chain, speed, b);
    snake_segments_movement(&mut s.chain, speed, b);
    let head = s.chain.head();
    let eaten = check_food_eaten(&mut s.foods, head.position, b);
    let ghost after_follow = s.chain.segments@;
    let ghost foods_now = s.foods@;
    let mut k: usize = 0;
    while k < eaten
        invariant
            bounds_ok(b),
            chain_wf(s.chain, b),
            speed_ok(s.state.speed as int),
            0 <= k <= eaten,
            s.chain.segments@ == grow_n(after_follow, speed as int, b, k as nat).0,
            s.state.speed as int == grow_n(after_follow, speed as int, b, k as nat).1,
            s.bounds == b,
            s.lifecycle == SessionLifecycle::Running,
            s.foods@ == foods_now,
            forall|i: int|
                0 <= i < s.foods@.len() ==> pos_ok((#[trigger] s.foods@[i]).position, b),
        decreases eaten - k,
    {
        food_eaten(&mut s.chain, &mut s.state, b);
        k = k + 1;
    }
    proof {
        lemma_first_self_hit_le_len(s.chain.segments@, 2);
    }
    let removed = check_eat_self(&mut s.chain, &mut s.state, &mut s.lifecycle, b);
    TickEvents { food_eaten: eaten, segments_truncated: removed, session_ended: false }
}

/// Grants `n` pending food spawn requests on the session, one random
/// placement inside the spawn margins per request.
pub fn spawn_food_requests(s: &mut Session, n: usize)
    requires
        session_wf(*old(s)),
    ensures
        session_wf(*final(s)),
        final(s).chain == old(s).chain,
        final(s).state == old(s).state,
        final(s).bounds == old(s).bounds,
        final(s).lifecycle == old(s).lifecycle,
        final(s).foods@.len() == old(s).foods@.len() + n,
        forall|i: int| 0 <= i < old(s).foods@.len() ==> final(s).foods@[i] == old(s).foods@[i],
        forall|i: int|
            old(s).foods@.len() <= i < final(s).foods@.len() ==> in_spawn_margins(
                #[trigger] final(s).foods@[i],
                old(s).bounds,
            ),
{
    let b = s.bounds;
    replenish_food(&mut s.foods, n, b);
}

/// Seeds the session-start food: `STARTUP_FOOD_AMOUNT` spawn requests,
/// granted at once.
pub fn initialize_food(s: &mut Session)
    requires
        session_wf(*old(s)),
    ensures
        session_wf(*final(s)),
        final(s).chain == old(s).chain,
        final(s).state == old(s).state,
        final(s).bounds == old(s).bounds,
        final(s).lifecycle == old(s).lifecycle,
        final(s).foods@.len() == old(s).foods@.len() + STARTUP_FOOD_AMOUNT,
        forall|i: int| 0 <= i < old(s).foods@.len() ==> final(s).foods@[i] == old(s).foods@[i],
        forall|i: int|
            old(s).foods@.len() <= i < final(s).foods@.len() ==> in_spawn_margins(
                #[trigger] final(s).foods@[i],
                old(s).bounds,
            ),
{
    spawn_food_requests(s, STARTUP_FOOD_AMOUNT);
}

/// One whole frame: a tick, then one food spawn granted per item eaten, so
/// the number of active food items is conserved across a frame. The chain,
/// speed, lifecycle and events are exactly the tick's; the surviving food
/// items keep their places, and the respawned ones land inside the spawn
/// margins.
pub fn tick_and_respawn(s: &mut Session, left: bool, right: bool) -> (ev: TickEvents)
    requires
        session_wf(*old(s)),
    ensures
        session_wf(*final(s)),
        final(s).bounds == old(s).bounds,
        old(s).lifecycle == SessionLifecycle::Ended ==> final(s).chain.segments@ == old(
            s,
        ).chain.segments@ && final(s).state == old(s).state && final(s).foods@ == old(s).foods@
            && final(s).lifecycle == SessionLifecycle::Ended && ev == (TickEvents {
            food_eaten: 0,
            segments_truncated: 0,
            session_ended: false,
        }),
        old(s).lifecycle == SessionLifecycle::Running ==> ({
            let b = old(s).bounds;
            let speed = old(s).state.speed as int;
            let s1 = steered_chain(old(s).chain.segments@, left, right);
            let s2 = s1.update(0, advance_head_seg(s1[0], speed, b));
            let s3 = follow_all(s2, speed, b);
            let survivors = surviving_food(old(s).foods@, s3[0].position);
            let eaten = old(s).foods@.len() - survivors.len();
            let grown = grow_n(s3, speed, b, eaten as nat);
            let hit = first_self_hit(grown.0, 2);
            let len4 = grown.0.len() as int;
            &&& final(s).foods@.len() == old(s).foods@.len()
            &&& forall|i: int| 0 <= i < survivors.len() ==> final(s).foods@[i] == survivors[i]
            &&& forall|i: int|
                survivors.len() <= i < final(s).foods@.len() ==> in_spawn_margins(
                    #[trigger] final(s).foods@[i],
                    b,
                )
            &&& ev.food_eaten == eaten
            &&& (hit == len4 ==> final(s).chain.segments@ == grown.0 && final(s).state.speed
                == grown.1 && ev.segments_truncated == 0)
            &&& (hit < len4 ==> final(s).chain.segments@ == grown.0.subrange(0, hit)
                && final(s).state.speed == sat_sub_speed(
                    grown.1,
                    (len4 - hit) * SNAKE_SPEED_INCREMENT,
                ) && ev.segments_truncated == len4 - hit)
            &&& final(s).lifecycle == SessionLifecycle::Running
            &&& ev.session_ended == false
        }),
{
    let ev = tick(s, left, right);
    if matches!(s.lifecycle, SessionLifecycle::Running) {
        spawn_food_requests(s, ev.food_eaten);
    }
    ev
}

} // verus!
