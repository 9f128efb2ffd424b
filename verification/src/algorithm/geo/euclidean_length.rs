//! Euclidean length.

use vstd::prelude::*;
use crate::algorithm::geo::utils::{Float64Array, zeroes};
use crate::array::multipoint::MultiPointArray;
use crate::array::point::PointArray;

verus! {

/// The length of a geometry in the plane of its coordinates: the sum of the
/// lengths of its segments. Points have length zero.
pub trait EuclideanLength {
    /// What the lengths are returned as.
    type Output;

    /// The value is in a state in which it can be measured.
    spec fn measurable(&self) -> bool;

    /// The length of each element.
    fn euclidean_length(&self) -> Self::Output
        requires
            self.measurable(),
    ;
}

impl EuclideanLength for PointArray {
    type Output = Float64Array;

    open spec fn measurable(&self) -> bool {
        self.wf()
    }

    fn euclidean_length(&self) -> (r: Float64Array)
        ensures
            r.wf(),
            r.values() == Seq::new(self.values().len(), |i: int| 0u64),
            r.validity_bits() == self.validity_bits(),
    {
        let n = self.len();
        zeroes(n, self.validity())
    }
}

impl EuclideanLength for MultiPointArray {
    type Output = Float64Array;

    open spec fn measurable(&self) -> bool {
        self.wf()
    }

    fn euclidean_length(&self) -> (r: Float64Array)
        ensures
            r.wf(),
            r.values() == Seq::new(self.values().len(), |i: int| 0u64),
            r.validity_bits() == self.validity_bits(),
    {
        let n = self.len();
        zeroes(n, self.validity())
    }
}

} // verus!
