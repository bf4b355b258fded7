//! Core of a grid-based first-person renderer: a ray caster against the
//! horizontal and vertical lines of a square occupancy grid, together with
//! the player movement model that drives it and the projection of ray hits
//! into on-screen wall slices.
//!
//! All world coordinates, distances and trigonometric values are Q16
//! fixed-point integers (one world unit is `fixed::FP_SCALE`); angles are
//! whole degrees. A host front end owns the window, input polling and
//! drawing, converts between floats and fixed point at the boundary, and
//! supplies the sine table that the caster reads.

pub mod angle;
pub mod fixed;
pub mod geom;
pub mod grid;
pub mod player;
pub mod project;
pub mod ray;
pub mod trig;
