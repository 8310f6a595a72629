//! A verified simulation kernel for a two-dimensional primordial particle
//! system: self-propelled point particles on a toroidal plane, each turning
//! according to a weighted count of neighbors on its left and right.
//!
//! All quantities are held in fixed-point integers: positions and distances
//! in micro-units (one world unit is `UNIT` ticks), angles in micro-radians.

pub mod analyze;
pub mod count;
pub mod driver;
pub mod grid;
pub mod integrate;
pub mod laws;
pub mod soup;
pub mod torus;
pub mod trig;
