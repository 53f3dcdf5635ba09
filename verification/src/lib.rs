//! Verified core of a genetic-algorithm driving simulation: a fixed-point
//! neural controller, track geometry, vehicle physics and fitness scoring,
//! and the evolutionary generation lifecycle.
//!
//! All physical quantities are held in milli-units (one thousandth of a
//! pixel, radian, or unit weight), so every computation is exact integer
//! arithmetic with stated rounding.

pub mod car;
pub mod geom;
pub mod network;
pub mod population;
pub mod rng;
pub mod timer;
pub mod track;
