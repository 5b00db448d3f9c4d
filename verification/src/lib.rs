//! Simulation core of a snake arcade game on a toroidal world: a chain of
//! jointed segments follows its steered head, eats food, grows, and ends
//! the session on self-collision.
//!
//! All geometry is exact fixed-point integer arithmetic: positions and
//! world bounds in milliunits (1000 per world unit), directions as unit
//! vectors scaled by `constants::DIR_ONE`. Every tick is fully specified:
//! steering, head advance, body follow, food pickup, growth, and collision
//! each carry a contract that pins the resulting state down, and
//! `session::tick` composes them in the fixed phase order.

pub mod chain;
pub mod constants;
pub mod follow;
pub mod food;
pub mod geometry;
pub mod session;
pub mod steering;
