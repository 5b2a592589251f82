//! Simulation core of a small top-down tank game: a player vehicle with
//! damped keyboard movement and a mouse-aimed turret, projectiles that fly
//! in straight lines and vanish outside the window, and a fixed-timestep
//! scheduler that drives the physics independently of the frame rate.
//!
//! All quantities are integers. Lengths are in thousandths of a world unit
//! (one world unit is one window pixel), velocities in millionths of a unit
//! per tick, time in nanoseconds.
pub mod geometry;
pub mod player;
pub mod projectile;
pub mod schedule;
pub mod world;
pub mod display;
