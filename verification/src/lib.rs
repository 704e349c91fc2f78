//! Simulation core of a top-down arena game, in fixed-point integer arithmetic.
//!
//! Time is counted in whole nanoseconds and distance in billionths of a world
//! unit, so that a speed in units per second times a time in nanoseconds is a
//! distance with no rounding.

pub mod ability;
pub mod collision;
pub mod enemy;
pub mod geometry;
pub mod mouse_position;
pub mod player;
pub mod roots;
pub mod ui;
