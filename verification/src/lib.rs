//! Tick-driven simulation core of a tower-defense mini-game.
//!
//! The crate owns an explicit entity/component `World` with a deferred
//! command queue, and the five per-tick systems that run over it: tower
//! targeting and firing, projectile kinematics, lifetime expiry, collision
//! resolution, and death handling with its economy listener.
//!
//! All geometry is integer fixed-point: lengths and coordinates are counted
//! in thousandths of a world unit, times in milliseconds.  Scene building,
//! rendering, input and camera control are external collaborators and are
//! not part of this crate.

pub mod components;
pub mod laws;
pub mod math;
pub mod systems;
pub mod world;
