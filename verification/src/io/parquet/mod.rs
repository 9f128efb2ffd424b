//! What GeoParquet files say about their geometry columns.

pub mod metadata;
