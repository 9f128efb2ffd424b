//! Interchange with other representations of geometries.

pub mod display;
pub mod geo;
pub mod parquet;
pub mod postgis;
pub mod wkb;
