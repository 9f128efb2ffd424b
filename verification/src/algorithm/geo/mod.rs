//! Measures of geometries.
//!
//! Measuring a geometry is arithmetic on doubles, which this crate leaves to its
//! callers. It fixes the interfaces, and it answers where the answer needs no
//! arithmetic: points and lines have no area, and points have no length.

pub mod area;
pub mod euclidean_length;
pub mod frechet_distance;
pub mod utils;
