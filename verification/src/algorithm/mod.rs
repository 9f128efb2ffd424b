//! Operations on whole arrays.

pub mod geo;
pub mod native;
