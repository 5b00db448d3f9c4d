use snake_core::chain::WorldBounds;
use snake_core::constants::FOOD_OFFSET_X;
use snake_core::constants::FOOD_OFFSET_Y;
use snake_core::constants::STARTUP_FOOD_AMOUNT;
use snake_core::food::Food;
use snake_core::food::replenish_food;
use snake_core::food::spawn_food;
use snake_core::geometry::Vec2;
use snake_core::session::SessionLifecycle;
use snake_core::session::initialize_food;
use snake_core::session::new_session;
use snake_core::session::tick_and_respawn;

fn world() -> WorldBounds {
    WorldBounds { width: 800_000, height: 600_000 }
}

#[test]
fn spawned_food_respects_margins() {
    let b = world();
    let mut seen_distinct = false;
    let first = spawn_food(b);
    for _ in 0..100 {
        let f = spawn_food(b);
        assert!(FOOD_OFFSET_X <= f.position.x && f.position.x < b.width - FOOD_OFFSET_X);
        assert!(FOOD_OFFSET_Y <= f.position.y && f.position.y < b.height - FOOD_OFFSET_Y);
        if f.position != first.position {
            seen_distinct = true;
        }
    }
    // Placement is random over a wide range: a hundred identical draws
    // would mean the sampler ignored its range.
    assert!(seen_distinct);
}

#[test]
fn replenish_appends_without_touching_existing() {
    let b = world();
    let marker = Food { position: Vec2 { x: 123_456, y: 234_567 } };
    let mut foods = vec![marker];
    replenish_food(&mut foods, 10, b);
    assert_eq!(foods.len(), 11);
    assert_eq!(foods[0].position, Vec2 { x: 123_456, y: 234_567 });
    for f in foods.iter().skip(1) {
        assert!(FOOD_OFFSET_X <= f.position.x && f.position.x < b.width - FOOD_OFFSET_X);
        assert!(FOOD_OFFSET_Y <= f.position.y && f.position.y < b.height - FOOD_OFFSET_Y);
    }
}

#[test]
fn session_start_seeds_the_startup_amount() {
    let mut s = new_session(world());
    initialize_food(&mut s);
    assert_eq!(s.foods.len(), STARTUP_FOOD_AMOUNT);
}

#[test]
fn a_frame_conserves_the_food_count() {
    let b = world();
    let mut s = new_session(b);
    s.foods.push(Food { position: Vec2 { x: 405_000, y: 300_000 } });
    s.foods.push(Food { position: Vec2 { x: 700_000, y: 500_000 } });
    let ev = tick_and_respawn(&mut s, false, false);
    assert_eq!(ev.food_eaten, 1);
    assert_eq!(s.foods.len(), 2);
    assert_eq!(s.chain.segments.len(), 3);
    assert!(matches!(s.lifecycle, SessionLifecycle::Running));
}
