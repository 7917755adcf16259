//! Geometric calibration and regression engine.
//!
//! An operator marks points on a captured screen image; the engine collects
//! them (deduplicated), fits least-squares lines through them, and calibrates
//! a similarity transform from screen coordinates to real-world coordinates
//! out of two point correspondences.  All geometry is carried out in exact
//! rational arithmetic over canonical `i64` fractions, so fitting and
//! calibration results are exact values with proved contracts.

use vstd::prelude::*;

mod gcd;
pub mod rational;
pub mod frac;
pub mod point_handling;
pub mod buffer;
pub mod fit;
pub mod calibrate;
pub mod segment;
pub mod format;
pub mod engine;

verus! {

/// Errors surfaced by the fitting and calibration engine.
///
/// `InsufficientPoints`: a fit was requested on fewer than two points.
/// `DegenerateFit`: the fit denominator is zero (all points share one x).
/// `DegenerateCalibration`: the two screen calibration points coincide.
/// `Overflow`: an exact rational result does not fit the `i64` fraction range.
#[derive(Clone, Copy, Debug, PartialEq, Eq, Structural)]
pub enum GeomError {
    InsufficientPoints,
    DegenerateFit,
    DegenerateCalibration,
    Overflow,
}

} // verus!
