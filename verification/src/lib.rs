//! Quadric-error-metric mesh simplification.
//!
//! The library reduces the triangle count of a 3-D surface mesh by
//! iteratively collapsing the cheapest candidate edges, where cost is
//! measured by each vertex's aggregate quadric. All geometry runs on an
//! exact, total, saturating fixed-point scalar, so every arithmetic step
//! and every structural step of the algorithm is verified.

pub mod fx;
pub mod mat;
pub mod mesh;
pub mod vct;
