//! Core of a deep-zoom Mandelbrot renderer.
//!
//! Doubles are carried as IEEE 754 bit patterns, widened with an explicit
//! binary exponent where the zoom exceeds double range; the reference orbit
//! runs in fixed-point arbitrary precision. The decision logic — escape,
//! glitch detection, series-approximation skipping and the glitch-repair
//! loop — is verified; the rounding arithmetic itself is delegated to a
//! software float library under trusted contracts.


pub mod fp;
pub mod float_extended;
pub mod complex;
pub mod arb;
pub mod reference;
pub mod perturbation;
pub mod series;
pub mod renderer;
