//! Scalars: single geometries read in place from the buffers of an array.
//!
//! A scalar borrows the buffers of the array that it comes from and remembers
//! its index. It copies nothing and lives no longer than the array.

pub mod binary;
pub mod geometry;
pub mod geometrycollection;
pub mod linestring;
pub mod multilinestring;
pub mod multipoint;
pub mod multipolygon;
pub mod owned;
pub mod point;
pub mod polygon;
