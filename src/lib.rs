//! Verified core of a CPU ray tracer.
//!
//! Everything numeric about a scene (points, matrices, colors) is floating point and lives with
//! the caller. This library holds the decisions that the renderer takes on top of those numbers:
//! ordering intersections and picking the hit, the refractive container stack for nested
//! transparent volumes, the reflection recursion budget, the anti-aliasing stopping rules, and
//! the pixel buffer that a render fills.
//!
//! Intersection times are carried as the IEEE-754 bit patterns of `f64` values (`f64::to_bits`),
//! so that their order and their finiteness can be stated and proved over integers.
pub mod axis;
pub mod canvas;
pub mod error;
pub mod intersection;
pub mod refraction;
pub mod sampling;
pub mod shading;
