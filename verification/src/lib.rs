use vstd::prelude::*;

pub mod cleanup;
pub mod combat;
pub mod command;
pub mod components;
pub mod creature;
pub mod destination;
pub mod equipment;
pub mod fov;
pub mod grid;
pub mod hunger;
pub mod log;
pub mod path;
pub mod position;
pub mod rect;
pub mod render;
pub mod rng;
pub mod scheduler;
pub mod world;

verus! {

/// Number of completed simulation ticks since the run began.
pub struct TickCount(pub i32);

/// Signal emitted when the count of distinct surviving creature types
/// drops to zero or one; the surrounding program reacts by shutting down.
pub struct EndGameEvent;

} // verus!
