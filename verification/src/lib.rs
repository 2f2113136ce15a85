//! Geometry and shader parameters for soft drop-shadows behind rectangular
//! surfaces with rounded corners.
//!
//! The crate computes, for a surface rectangle, its corner radii, an output
//! scale and an opacity, the set of screen rectangles a blur shader must be
//! drawn on together with the uniform values the shader consumes, and caches
//! the result per surface until the surface dies or its parameters change.
//!
//! All coordinates are carried as exact integer multiples of `1 / scale.num`
//! logical units (see [`snap::Scale`]), so pixel-grid snapping and the
//! rectangle arithmetic are exact and free of rounding surprises.

pub mod area;
pub mod cache;
pub mod element;
pub mod geometry;
pub mod params;
pub mod rect;
pub mod registry;
pub mod snap;
pub mod subtract;
