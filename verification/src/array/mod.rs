//! The typed geometry arrays and their builders.

pub mod binary;
pub mod geometrycollection;
pub mod linestring;
pub mod metadata;
pub mod mixed;
pub mod multilinestring;
pub mod multipoint;
pub mod multipoint_iterator;
pub mod multipolygon;
pub mod point;
pub mod polygon;
pub mod util;
