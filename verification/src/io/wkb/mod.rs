//! Well-known binary: the byte layout, its reader and its writer.
//!
//! A geometry opens with one byte that names the byte order (`0` big endian, `1`
//! little endian) and a 32-bit type code (`1` point to `7` geometry collection).
//! The extended dialect sets the three high bits of the code to flag a third
//! ordinate, a measure, or a 32-bit reference system identifier that follows the
//! code. Then comes the payload: two doubles for a point, a count and that many
//! coordinates for a line string, a count and that many rings for a polygon, and
//! a count and that many whole geometries for the multi shapes and collections.

pub mod api;
pub mod common;
pub mod reader;
pub mod writer;
