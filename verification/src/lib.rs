//! A verified fixed-point model of a ship-steering demo: a ship glides
//! toward a target marker, banking as it turns, while a camera follows it
//! and a debug overlay grades the frame rate.
//!
//! Everything is scaled integers — positions in micro-units, angles in
//! micro-radians, times in microseconds, one million subunits to the unit —
//! so every rule of the simulation is exact and proved: the ship never
//! overshoots its marker, one frame's displacement never exceeds the
//! velocity constant times the elapsed time, the banking angle never leaves
//! its envelope, and the direction-to-angle conversion keeps the quadrant
//! conventions of `atan2`.
//!
//! The host that drives the loop — rendering, input, diagnostics — stays
//! outside; it hands in plain values (a pick ray, a button state, a frame
//! time, an average frame rate) and applies the returned state.

pub mod angle;
pub mod camera;
pub mod cursor;
pub mod math;
pub mod overlay;
pub mod ship;
pub mod vec3;
