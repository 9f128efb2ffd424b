//! Columnar geometry arrays in the Apache Arrow memory model.

pub mod algorithm;
pub mod array;
pub mod buffer;
pub mod coord;
pub mod datatypes;
pub mod error;
pub mod geo_traits;
pub mod geometry;
pub mod io;
pub mod offsets;
pub mod scalar;
pub mod test;
pub mod validity;
