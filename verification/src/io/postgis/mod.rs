//! Taking over the rows of a PostGIS query.

pub mod reader;
