//! Metadata that travels with an array.

use vstd::prelude::*;

verus! {

/// How the edges between the vertices of a geometry are to be read.
#[derive(Clone, Copy, Debug, PartialEq, Eq, Structural)]
pub enum Edges {
    /// Straight lines in the plane of the coordinates.
    Planar,
    /// Great-circle arcs on a sphere.
    Spherical,
}

/// The metadata of an array: its coordinate reference system and the reading of
/// its edges. Casting and slicing hand it on unchanged.
#[derive(Debug)]
pub struct ArrayMetadata {
    /// The coordinate reference system as JSON text, or `None` where none is
    /// declared.
    pub crs: Option<String>,
    /// The reading of edges.
    pub edges: Edges,
}

impl ArrayMetadata {
    /// The metadata of an array that declares nothing: no coordinate reference
    /// system, planar edges.
    pub fn new() -> (m: ArrayMetadata)
        ensures
            m.crs is None,
            m.edges == Edges::Planar,
    {
        ArrayMetadata { crs: None, edges: Edges::Planar }
    }

    /// A copy of this metadata.
    pub fn duplicate(&self) -> (m: ArrayMetadata)
        ensures
            m == *self,
    {
        let crs = match &self.crs {
            Some(text) => Some(text.clone()),
            None => None,
        };
        ArrayMetadata { crs, edges: self.edges }
    }

    /// Whether two arrays with this and that metadata can be merged: they name
    /// the same coordinate reference system, or both none, and read edges alike.
    pub fn is_compatible_with(&self, other: &ArrayMetadata) -> (ok: bool)
        ensures
            ok <==> self.edges == other.edges && (match (self.crs, other.crs) {
                (Some(a), Some(b)) => a@ == b@,
                (None, None) => true,
                _ => false,
            }),
    {
        let same_crs = match (&self.crs, &other.crs) {
            (Some(a), Some(b)) => *a == *b,
            (None, None) => true,
            _ => false,
        };
        same_crs && self.edges == other.edges
    }
}

} // verus!
