use vstd::prelude::*;

verus! {

// Positions and world bounds are measured in milliunits: 1000 per world unit.
// Directions are fixed-point unit vectors scaled by `DIR_ONE`.

/// Fixed-point scale of a unit direction vector.
pub const DIR_ONE: i64 = 1_000_000;

/// cos of the steering angle (0.15 rad), scaled by `DIR_ONE`.
pub const ROTATE_COS: i64 = 988_771;

/// sin of the steering angle (0.15 rad), scaled by `DIR_ONE`.
pub const ROTATE_SIN: i64 = 149_438;

/// A body segment within this distance of the head is bitten off (10 units).
pub const SNAKE_EAT_SELF_DISTANCE: i64 = 10_000;

/// A food item within this distance of the head is eaten (20 units).
pub const FOOD_PICKUP_DISTANCE: i64 = 20_000;

/// Food spawns at least this far from the vertical world edges (20 units).
pub const FOOD_OFFSET_X: i64 = 20_000;

/// Food spawns at least this far from the horizontal world edges (20 units).
pub const FOOD_OFFSET_Y: i64 = 20_000;

/// Speed gained per food eaten and lost per segment bitten off (0.05 units).
pub const SNAKE_SPEED_INCREMENT: i64 = 50;

/// Nominal distance between a segment and its predecessor (32.5 units).
pub const SNAKE_SEGMENT_GAP: i64 = 32_500;

/// Speed of a fresh snake (2 units per tick).
pub const SNAKE_DEFAULT_SPEED: i64 = 2_000;

/// A delta at least this close to a full world span is read as a wrap
/// discontinuity, not as true distance (50 units).
pub const WRAP_MARGIN: i64 = 50_000;

/// Number of food items requested at session start.
pub const STARTUP_FOOD_AMOUNT: usize = 50;

/// Upper bound on world width and height, so that squared distances and
/// scaled displacements stay well inside `i64`.
pub const WORLD_LIMIT: i64 = 1_000_000_000;

/// Upper bound on the shared speed; additions saturate here so that a tick
/// can never overflow, however long a session runs.
pub const SPEED_LIMIT: i64 = 1_000_000_000;

/// Upper bound on the chain length; growth stops here so that the speed
/// decrement on truncation can never overflow.
pub const CHAIN_LIMIT: usize = 100_000_000;

} // verus!
