//! Bookkeeping for a swarm of units that walk to tasks.
//!
//! Positions, velocities and unit statistics are IEEE-754 `f32` values; the
//! library carries them as their bit patterns ([`vec2::Vec2Bits`]) and leaves
//! the floating-point motion to its caller. What it proves is the rest: unit
//! and task identities, per-unit task queues, and how the world's operations
//! change them.
pub mod vec2;
pub mod slots;
pub mod unit;
pub mod world;
pub mod flocking;

pub use flocking::{Unit, UnitTask, UnitUpdateResult, World};
