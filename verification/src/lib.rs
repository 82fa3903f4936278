//! Server-authoritative simulation engine for a real-time multiplayer 2D
//! shooter: a binary wire-protocol codec, pixel-accurate collision against a
//! destructible terrain bitmap, fixed-point kinematics, a match registry, and
//! the per-tick engine state machine that drives a match from lobby to game
//! over.
//!
//! All world coordinates and velocities are fixed-point integers in units of
//! 1/10000 pixel; health is fixed-point in units of 1/1000 health point.
//! Wire-level 32-bit float fields travel as their IEEE-754 little-endian bit
//! patterns (`u32`); converting between bit patterns and fixed-point numbers
//! is left to the unverified rim around the library.

pub mod client;
pub mod engine;
pub mod etag;
pub mod events;
pub mod collision_system;
pub mod game_match;
pub mod game_matches;
pub mod player;
pub mod projectile;
pub mod proto;
mod rng;
pub mod server_tick;
pub mod terrain;
pub mod vel_system;
pub mod weapon;
