//! Fréchet distance: how far apart two curves are when both are walked from
//! start to end without going back.

use vstd::prelude::*;

verus! {

/// The Fréchet distance between the line strings of an array and those of
/// another array, element by element.
pub trait FrechetDistance<Rhs = Self> {
    /// What the distances are returned as.
    type Output;

    /// The values are in a state in which they can be measured.
    spec fn measurable(&self, rhs: &Rhs) -> bool;

    /// The distance between each element and the element of `rhs` at the same
    /// position.
    fn frechet_distance(&self, rhs: &Rhs) -> Self::Output
        requires
            self.measurable(rhs),
    ;
}

/// The Fréchet distance between the line strings of an array and one line
/// string.
pub trait FrechetDistanceLineString<Rhs> {
    /// What the distances are returned as.
    type Output;

    /// The values are in a state in which they can be measured.
    spec fn measurable(&self, rhs: &Rhs) -> bool;

    /// The distance between each element and `rhs`.
    fn frechet_distance(&self, rhs: &Rhs) -> Self::Output
        requires
            self.measurable(rhs),
    ;
}

} // verus!
