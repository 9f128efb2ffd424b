//! Planar area.

use vstd::prelude::*;
use crate::algorithm::geo::utils::{Float64Array, zeroes};
use crate::array::linestring::LineStringArray;
use crate::array::multilinestring::MultiLineStringArray;
use crate::array::multipoint::MultiPointArray;
use crate::array::point::PointArray;

verus! {

/// Signed and unsigned planar area of a geometry.
///
/// The area of a polygon is positive where its exterior ring winds
/// counterclockwise and negative where it winds clockwise; the unsigned area is
/// its magnitude. Points and lines have area zero.
pub trait Area {
    /// What the areas are returned as.
    type Output;

    /// The value is in a state in which it can be measured.
    spec fn measurable(&self) -> bool;

    /// The signed area of each element.
    fn signed_area(&self) -> Self::Output
        requires
            self.measurable(),
    ;

    /// The unsigned area of each element.
    fn unsigned_area(&self) -> Self::Output
        requires
            self.measurable(),
    ;
}

impl Area for PointArray {
    type Output = Float64Array;

    open spec fn measurable(&self) -> bool {
        self.wf()
    }

    fn signed_area(&self) -> (r: Float64Array)
        ensures
            r.wf(),
            r.values() == Seq::new(self.values().len(), |i: int| 0u64),
            r.validity_bits() == self.validity_bits(),
    {
        let n = self.len();
        zeroes(n, self.validity())
    }

    fn unsigned_area(&self) -> (r: Float64Array)
        ensures
            r.wf(),
            r.values() == Seq::new(self.values().len(), |i: int| 0u64),
            r.validity_bits() == self.validity_bits(),
    {
        let n = self.len();
        zeroes(n, self.validity())
    }
}

impl Area for LineStringArray {
    type Output = Float64Array;

    open spec fn measurable(&self) -> bool {
        self.wf()
    }

    fn signed_area(&self) -> (r: Float64Array)
        ensures
            r.wf(),
            r.values() == Seq::new(self.values().len(), |i: int| 0u64),
            r.validity_bits() == self.validity_bits(),
    {
        let n = self.len();
        zeroes(n, self.validity())
    }

    fn unsigned_area(&self) -> (r: Float64Array)
        ensures
            r.wf(),
            r.values() == Seq::new(self.values().len(), |i: int| 0u64),
            r.validity_bits() == self.validity_bits(),
    {
        let n = self.len();
        zeroes(n, self.validity())
    }
}

impl Area for MultiPointArray {
    type Output = Float64Array;

    open spec fn measurable(&self) -> bool {
        self.wf()
    }

    fn signed_area(&self) -> (r: Float64Array)
        ensures
            r.wf(),
            r.values() == Seq::new(self.values().len(), |i: int| 0u64),
            r.validity_bits() == self.validity_bits(),
    {
        let n = self.len();
        zeroes(n, self.validity())
    }

    fn unsigned_area(&self) -> (r: Float64Array)
        ensures
            r.wf(),
            r.values() == Seq::new(self.values().len(), |i: int| 0u64),
            r.validity_bits() == self.validity_bits(),
    {
        let n = self.len();
        zeroes(n, self.validity())
    }
}

impl Area for MultiLineStringArray {
    type Output = Float64Array;

    open spec fn measurable(&self) -> bool {
        self.wf()
    }

    fn signed_area(&self) -> (r: Float64Array)
        ensures
            r.wf(),
            r.values() == Seq::new(self.values().len(), |i: int| 0u64),
            r.validity_bits() == self.validity_bits(),
    {
        let n = self.len();
        zeroes(n, self.validity())
    }

    fn unsigned_area(&self) -> (r: Float64Array)
        ensures
            r.wf(),
            r.values() == Seq::new(self.values().len(), |i: int| 0u64),
            r.validity_bits() == self.validity_bits(),
    {
        let n = self.len();
        zeroes(n, self.validity())
    }
}

} // verus!
