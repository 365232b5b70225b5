//! Simulation core of a brick-breaking arcade game.
//!
//! Lengths are integers in a fixed sub-pixel unit, speeds are in units per
//! second and durations in microseconds. The whole game advances through
//! `World::tick`, a synchronous transition from state, input and elapsed time
//! to the next state.
//!
//! - `geometry`: vectors, boxes and the side on which two boxes meet.
//! - `steering`: rescaling a direction to a speed with integers.
//! - `components`, `config`: the data of entities and of a session.
//! - `wall`, `paddle`, `ball`, `timer`, `brick`: the game's rules.
//! - `world`: the state of a session and its tick.

pub mod geometry;
pub mod steering;
pub mod components;
pub mod config;
pub mod wall;
pub mod paddle;
pub mod ball;
pub mod timer;
pub mod brick;
pub mod world;
