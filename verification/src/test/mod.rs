//! Small arrays with known contents, for examples and tests.

pub mod point;
