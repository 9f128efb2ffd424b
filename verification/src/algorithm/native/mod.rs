//! Operations that work on the buffers of arrays alone.

pub mod cast;
pub mod eq;
