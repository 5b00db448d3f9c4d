use snake_core::chain::Chain;
use snake_core::chain::Segment;
use snake_core::chain::SegmentRole;
use snake_core::chain::WorldBounds;
use snake_core::constants::DIR_ONE;
use snake_core::constants::SNAKE_SEGMENT_GAP;
use snake_core::food::Food;
use snake_core::food::check_food_eaten;
use snake_core::follow::snake_head_movement;
use snake_core::follow::snake_segments_movement;
use snake_core::geometry::Vec2;
use snake_core::session::GameState;
use snake_core::session::Session;
use snake_core::session::SessionLifecycle;
use snake_core::session::apply_truncation;
use snake_core::session::check_eat_self;
use snake_core::session::food_eaten;
use snake_core::session::new_session;
use snake_core::session::tick;
use snake_core::steering::snake_head_input;
use snake_core::steering::turn_left;
use snake_core::steering::turn_right;

fn world() -> WorldBounds {
    WorldBounds { width: 800_000, height: 600_000 }
}

fn body_at(x: i64, y: i64) -> Segment {
    Segment {
        position: Vec2 { x, y },
        direction: Vec2 { x: 0, y: 0 },
        role: SegmentRole::Body,
    }
}

fn head_at(x: i64, y: i64, dx: i64, dy: i64) -> Segment {
    Segment {
        position: Vec2 { x, y },
        direction: Vec2 { x: dx, y: dy },
        role: SegmentRole::Head,
    }
}

#[test]
fn head_on_boundary_with_zero_direction_stays() {
    let b = world();
    let mut chain = Chain { segments: vec![head_at(800_000, 300_000, 0, 0)] };
    snake_head_movement(&mut chain, 2_000, b);
    assert_eq!(chain.segments[0].position, Vec2 { x: 800_000, y: 300_000 });
}

#[test]
fn head_moving_past_boundary_wraps_to_zero() {
    let b = world();
    let mut chain = Chain { segments: vec![head_at(799_000, 300_000, DIR_ONE, 0)] };
    snake_head_movement(&mut chain, 2_000, b);
    assert_eq!(chain.segments[0].position, Vec2 { x: 0, y: 300_000 });
}

#[test]
fn head_moving_below_zero_wraps_to_bound() {
    let b = world();
    let mut chain = Chain { segments: vec![head_at(1_000, 300_000, -DIR_ONE, 0)] };
    snake_head_movement(&mut chain, 2_000, b);
    assert_eq!(chain.segments[0].position, Vec2 { x: 800_000, y: 300_000 });
}

#[test]
fn turn_exact_rotation_values() {
    let d = turn_left(Vec2 { x: DIR_ONE, y: 0 });
    assert_eq!(d, Vec2 { x: 988_771, y: 149_438 });
    let d2 = turn_right(Vec2 { x: DIR_ONE, y: 0 });
    assert_eq!(d2, Vec2 { x: 988_771, y: -149_438 });
}

#[test]
fn both_turn_keys_are_a_net_no_op() {
    let b = world();
    let mut chain = Chain { segments: vec![head_at(400_000, 300_000, DIR_ONE, 0)] };
    snake_head_input(&mut chain, true, true, b);
    assert_eq!(chain.segments[0].direction, Vec2 { x: DIR_ONE, y: 0 });
    snake_head_input(&mut chain, false, false, b);
    assert_eq!(chain.segments[0].direction, Vec2 { x: DIR_ONE, y: 0 });
    snake_head_input(&mut chain, true, false, b);
    assert_eq!(chain.segments[0].direction, Vec2 { x: 988_771, y: 149_438 });
}

#[test]
fn new_session_layout() {
    let s = new_session(world());
    assert_eq!(s.chain.segments.len(), 2);
    assert_eq!(s.chain.segments[0].position, Vec2 { x: 400_000, y: 300_000 });
    assert_eq!(s.chain.segments[0].direction, Vec2 { x: DIR_ONE, y: 0 });
    assert!(matches!(s.chain.segments[0].role, SegmentRole::Head));
    assert_eq!(s.chain.segments[1].position, Vec2 { x: 335_000, y: 300_000 });
    assert!(matches!(s.chain.segments[1].role, SegmentRole::Body));
    assert_eq!(s.state.speed, 2_000);
    assert!(matches!(s.lifecycle, SessionLifecycle::Running));
    assert_eq!(s.foods.len(), 0);
}

#[test]
fn one_food_signal_grows_by_one_and_adds_increment() {
    let b = world();
    let s = new_session(b);
    let mut chain = s.chain;
    let mut state = s.state;
    food_eaten(&mut chain, &mut state, b);
    assert_eq!(chain.segments.len(), 3);
    assert_eq!(state.speed, 2_050);
    // The tail's direction is still zero, so the new segment lands on it.
    assert_eq!(chain.segments[2].position, Vec2 { x: 335_000, y: 300_000 });
    food_eaten(&mut chain, &mut state, b);
    assert_eq!(chain.segments.len(), 4);
    assert_eq!(state.speed, 2_100);
}

#[test]
fn grown_segment_sits_one_gap_behind_a_directed_tail() {
    let b = world();
    let mut chain = Chain {
        segments: vec![
            head_at(400_000, 300_000, DIR_ONE, 0),
            Segment {
                position: Vec2 { x: 360_000, y: 300_000 },
                direction: Vec2 { x: DIR_ONE, y: 0 },
                role: SegmentRole::Body,
            },
        ],
    };
    let mut state = GameState { speed: 2_000 };
    food_eaten(&mut chain, &mut state, b);
    assert_eq!(chain.segments.len(), 3);
    assert_eq!(
        chain.segments[2].position,
        Vec2 { x: 360_000 - SNAKE_SEGMENT_GAP, y: 300_000 }
    );
}

#[test]
fn pickup_at_exact_radius_is_eaten() {
    let b = world();
    let head = Vec2 { x: 400_000, y: 300_000 };
    let mut foods = vec![Food { position: Vec2 { x: 420_000, y: 300_000 } }];
    let eaten = check_food_eaten(&mut foods, head, b);
    assert_eq!(eaten, 1);
    assert_eq!(foods.len(), 0);
}

#[test]
fn pickup_just_past_radius_is_kept() {
    let b = world();
    let head = Vec2 { x: 400_000, y: 300_000 };
    let mut foods = vec![Food { position: Vec2 { x: 420_001, y: 300_000 } }];
    let eaten = check_food_eaten(&mut foods, head, b);
    assert_eq!(eaten, 0);
    assert_eq!(foods.len(), 1);
}

#[test]
fn pickup_keeps_survivors_in_order() {
    let b = world();
    let head = Vec2 { x: 400_000, y: 300_000 };
    let far1 = Food { position: Vec2 { x: 100_000, y: 100_000 } };
    let near = Food { position: Vec2 { x: 401_000, y: 300_000 } };
    let far2 = Food { position: Vec2 { x: 700_000, y: 500_000 } };
    let mut foods = vec![far1, near, far2];
    let eaten = check_food_eaten(&mut foods, head, b);
    assert_eq!(eaten, 1);
    assert_eq!(foods.len(), 2);
    assert_eq!(foods[0].position, Vec2 { x: 100_000, y: 100_000 });
    assert_eq!(foods[1].position, Vec2 { x: 700_000, y: 500_000 });
}

#[test]
fn self_collision_truncates_and_slows() {
    let b = world();
    // Five segments; index 3 sits within eat-self distance of the head.
    let mut chain = Chain {
        segments: vec![
            head_at(100_000, 100_000, DIR_ONE, 0),
            body_at(130_000, 100_000),
            body_at(160_000, 100_000),
            body_at(105_000, 100_000),
            body_at(200_000, 100_000),
        ],
    };
    let mut state = GameState { speed: 2_000 };
    let mut lifecycle = SessionLifecycle::Running;
    let removed = check_eat_self(&mut chain, &mut state, &mut lifecycle, b);
    assert_eq!(removed, 2);
    assert_eq!(chain.segments.len(), 3);
    assert_eq!(state.speed, 1_900);
    assert!(matches!(lifecycle, SessionLifecycle::Running));
}

#[test]
fn self_collision_at_exact_distance_triggers() {
    let b = world();
    let mut chain = Chain {
        segments: vec![
            head_at(100_000, 100_000, DIR_ONE, 0),
            body_at(130_000, 100_000),
            body_at(110_000, 100_000),
        ],
    };
    let mut state = GameState { speed: 2_000 };
    let mut lifecycle = SessionLifecycle::Running;
    // Index 2 is exactly 10 units from the head: the boundary bites.
    let removed = check_eat_self(&mut chain, &mut state, &mut lifecycle, b);
    assert_eq!(removed, 1);
    assert_eq!(chain.segments.len(), 2);
    assert_eq!(state.speed, 1_950);
}

#[test]
fn segment_right_behind_head_never_triggers() {
    let b = world();
    // Index 1 overlaps the head but is skipped by design.
    let mut chain = Chain {
        segments: vec![
            head_at(100_000, 100_000, DIR_ONE, 0),
            body_at(100_000, 100_000),
            body_at(160_000, 100_000),
        ],
    };
    let mut state = GameState { speed: 2_000 };
    let mut lifecycle = SessionLifecycle::Running;
    let removed = check_eat_self(&mut chain, &mut state, &mut lifecycle, b);
    assert_eq!(removed, 0);
    assert_eq!(chain.segments.len(), 3);
    assert_eq!(state.speed, 2_000);
}

#[test]
fn truncation_to_head_only_ends_session() {
    let b = world();
    let s = new_session(b);
    let mut chain = s.chain;
    let mut state = s.state;
    let mut lifecycle = s.lifecycle;
    let removed = apply_truncation(&mut chain, &mut state, &mut lifecycle, 1, b);
    assert_eq!(removed, 1);
    assert_eq!(chain.segments.len(), 1);
    assert_eq!(state.speed, 1_950);
    assert!(matches!(lifecycle, SessionLifecycle::Ended));
}

#[test]
fn truncate_from_clamps_index() {
    let b = world();
    let s = new_session(b);
    let mut chain = s.chain;
    let mut state = GameState { speed: 2_000 };
    let mut lifecycle = SessionLifecycle::Running;
    // An out-of-range index removes nothing; index 0 is clamped to 1.
    let removed_none = apply_truncation(&mut chain, &mut state, &mut lifecycle, 10, b);
    assert_eq!(removed_none, 0);
    assert_eq!(chain.segments.len(), 2);
    let removed_head_guard = apply_truncation(&mut chain, &mut state, &mut lifecycle, 0, b);
    assert_eq!(removed_head_guard, 1);
    assert_eq!(chain.segments.len(), 1);
    assert!(matches!(lifecycle, SessionLifecycle::Ended));
}

#[test]
fn ended_session_tick_is_a_no_op() {
    let b = world();
    let mut s = new_session(b);
    s.lifecycle = SessionLifecycle::Ended;
    let ev = tick(&mut s, true, false);
    assert_eq!(ev.food_eaten, 0);
    assert_eq!(ev.segments_truncated, 0);
    assert!(!ev.session_ended);
    assert_eq!(s.chain.segments.len(), 2);
    assert_eq!(s.chain.segments[0].position, Vec2 { x: 400_000, y: 300_000 });
    assert_eq!(s.chain.segments[0].direction, Vec2 { x: DIR_ONE, y: 0 });
    assert_eq!(s.state.speed, 2_000);
    assert!(matches!(s.lifecycle, SessionLifecycle::Ended));
}

#[test]
fn degenerate_delta_holds_position_and_direction() {
    let b = world();
    // A body segment exactly on top of the head: one follow tick must not
    // move it or damage its direction.
    let mut chain = Chain {
        segments: vec![
            head_at(200_000, 200_000, DIR_ONE, 0),
            Segment {
                position: Vec2 { x: 200_000, y: 200_000 },
                direction: Vec2 { x: 123, y: 456 },
                role: SegmentRole::Body,
            },
        ],
    };
    snake_segments_movement(&mut chain, 2_000, b);
    assert_eq!(chain.segments[1].position, Vec2 { x: 200_000, y: 200_000 });
    assert_eq!(chain.segments[1].direction, Vec2 { x: 123, y: 456 });
}

#[test]
fn follow_fixed_point_at_nominal_gap() {
    let b = world();
    // The follower sees a stretched delta of exactly one gap every tick:
    // it keeps pace exactly, two ticks in a row.
    let mut chain = Chain {
        segments: vec![head_at(500_000, 300_000, DIR_ONE, 0), body_at(469_500, 300_000)],
    };
    snake_head_movement(&mut chain, 2_000, b);
    snake_segments_movement(&mut chain, 2_000, b);
    assert_eq!(chain.segments[0].position, Vec2 { x: 502_000, y: 300_000 });
    assert_eq!(chain.segments[1].position, Vec2 { x: 471_500, y: 300_000 });
    assert_eq!(chain.segments[1].direction, Vec2 { x: DIR_ONE, y: 0 });
    snake_head_movement(&mut chain, 2_000, b);
    snake_segments_movement(&mut chain, 2_000, b);
    assert_eq!(chain.segments[0].position, Vec2 { x: 504_000, y: 300_000 });
    assert_eq!(chain.segments[1].position, Vec2 { x: 473_500, y: 300_000 });
}

#[test]
fn follow_converges_monotonically_to_gap() {
    let b = world();
    let mut chain = Chain {
        segments: vec![head_at(100_000, 300_000, DIR_ONE, 0), body_at(20_000, 300_000)],
    };
    let speed: i64 = 2_000;
    let mut prev_stretch = chain.segments[0].position.x + speed - chain.segments[1].position.x;
    for _ in 0..300 {
        snake_head_movement(&mut chain, speed, b);
        snake_segments_movement(&mut chain, speed, b);
        let stretch = chain.segments[0].position.x + speed - chain.segments[1].position.x;
        assert!(stretch <= prev_stretch);
        assert!(stretch >= SNAKE_SEGMENT_GAP);
        prev_stretch = stretch;
    }
    // Close to the gap: integer rounding stalls within gap/speed of it.
    assert!(prev_stretch <= SNAKE_SEGMENT_GAP + 17);
}

#[test]
fn tick_moves_eats_grows_in_order() {
    let b = world();
    let mut s = new_session(b);
    // Within pickup range of where the head will be after it moves.
    s.foods.push(Food { position: Vec2 { x: 405_000, y: 300_000 } });
    let ev = tick(&mut s, false, false);
    assert_eq!(ev.food_eaten, 1);
    assert_eq!(ev.segments_truncated, 0);
    assert!(!ev.session_ended);
    assert_eq!(s.foods.len(), 0);
    assert_eq!(s.chain.segments.len(), 3);
    assert_eq!(s.state.speed, 2_050);
    assert_eq!(s.chain.segments[0].position, Vec2 { x: 402_000, y: 300_000 });
    // The old tail chased the moved head, then the new tail grew one gap
    // behind it along its fresh direction.
    assert_eq!(s.chain.segments[1].position, Vec2 { x: 339_123, y: 300_000 });
    assert_eq!(s.chain.segments[1].direction, Vec2 { x: DIR_ONE, y: 0 });
    assert_eq!(s.chain.segments[2].position, Vec2 { x: 306_623, y: 300_000 });
    assert!(matches!(s.lifecycle, SessionLifecycle::Running));
}
