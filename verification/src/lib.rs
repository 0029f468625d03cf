//! A tick-driven simulation of pedestrian crowd flow in a bounded 2D world,
//! written in fixed-point integer arithmetic so that every rule of the model
//! can be stated and proved.
//!
//! Lengths, times, speeds and angles are whole numbers of millionths of a
//! metre, a second, a metre per second and a radian. Every stored quantity
//! lies in a band around zero, and arithmetic that would leave the band
//! stops at its edge.
//!
//! - [`fixed`] holds the arithmetic: rounding division, products, integer
//!   square roots.
//! - [`scale`] brings a vector to a given length, and holds what is proved
//!   of the result.
//! - [`angle`] holds headings: wrapping, the shortest rotation, nudging, and
//!   rational approximations of the sine, the cosine and the arc tangent.
//! - [`geometry`] holds walls, the distance and normal of a point, and the
//!   push away from a wall.
//! - [`clearance`] proves how far from a wall a point lies once it was
//!   pushed out.
//! - [`environment`] holds the world: walls, timing gates and waypoints.
//! - [`motion`] holds the rules by which one pedestrian moves in one tick.
//! - [`walker`] holds the pedestrian and its timing-gate bookkeeping.
//! - [`simulator`] holds the scheduler: pools, admission, ticks and full
//!   runs.
//! - [`random`] holds the calls into the random number generator.

pub mod angle;
pub mod clearance;
pub mod environment;
pub mod error;
pub mod etiquette;
pub mod fixed;
pub mod geometry;
pub mod motion;
pub mod random;
pub mod scale;
pub mod simulator;
pub mod walker;
