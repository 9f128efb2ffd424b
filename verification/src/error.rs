//! The failures that building, casting and decoding can report.

use vstd::prelude::*;

verus! {

/// Why an operation on geometry arrays failed. Every failure is returned to the
/// caller; none leaves a builder half changed.
#[derive(Clone, Copy, Debug, PartialEq, Eq, Structural)]
pub enum GeoArrowError {
    /// An offset would exceed what the chosen index width can hold.
    IndexOverflow,
    /// A geometry does not have the shape that the target asks for.
    ShapeMismatch,
    /// A binary geometry ends before the length it declares.
    TruncatedInput,
    /// A geometry collection is nested deeper than arrays can hold.
    UnsupportedNesting,
    /// Two pieces of metadata that must agree do not.
    IncompatibleMetadata,
    /// A binary geometry opens with a byte order or a type code that the format
    /// does not know.
    InvalidEncoding,
}

} // verus!
