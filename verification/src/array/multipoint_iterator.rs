//! Walking the values of an array of multi points.

use vstd::prelude::*;
use crate::array::multipoint::MultiPointArray;
use crate::geo_traits::MultiPointTrait;
use crate::scalar::multipoint::MultiPoint;

verus! {

/// A walk over the values of a [`MultiPointArray`] from both ends: the values
/// from `index` up to `end` are still to come.
pub struct MultiPointArrayValuesIter<'a> {
    array: &'a MultiPointArray,
    index: usize,
    end: usize,
}

impl<'a> MultiPointArrayValuesIter<'a> {
    /// The walk is inside a well-formed array.
    pub closed spec fn wf(&self) -> bool {
        self.array.wf() && self.index <= self.end <= self.array.values().len()
    }

    /// The array that is walked.
    pub closed spec fn spec_array(&self) -> &'a MultiPointArray {
        self.array
    }

    /// The position of the next value from the front.
    pub closed spec fn spec_index(&self) -> int {
        self.index as int
    }

    /// The position after the next value from the back.
    pub closed spec fn spec_end(&self) -> int {
        self.end as int
    }

    /// A walk over all values of `array`.
    pub fn new(array: &'a MultiPointArray) -> (it: MultiPointArrayValuesIter<'a>)
        requires
            array.wf(),
        ensures
            it.wf(),
            it.spec_array() == array,
            it.spec_index() == 0,
            it.spec_end() == array.values().len(),
    {
        MultiPointArrayValuesIter { array, index: 0, end: array.len() }
    }

    /// The next value from the front, or `None` where none is left.
    pub fn next(&mut self) -> (r: Option<MultiPoint<'a>>)
        requires
            old(self).wf(),
        ensures
            final(self).wf(),
            final(self).spec_array() == old(self).spec_array(),
            final(self).spec_end() == old(self).spec_end(),
            old(self).spec_index() == old(self).spec_end() ==> r is None && final(self).spec_index()
                == old(self).spec_index(),
            old(self).spec_index() < old(self).spec_end() ==> final(self).spec_index() == old(
                self,
            ).spec_index() + 1 && r is Some && r->0.wf() && r->0.model() == old(
                self,
            ).spec_array().values()[old(self).spec_index()],
    {
        if self.index == self.end {
            return None;
        }
        let old_index = self.index;
        self.index += 1;
        Some(self.array.value(old_index))
    }

    /// How many values are left, as a lower and an upper bound.
    pub fn size_hint(&self) -> (r: (usize, Option<usize>))
        requires
            self.wf(),
        ensures
            r.0 == self.spec_end() - self.spec_index(),
            r.1 == Some(r.0),
    {
        (self.end - self.index, Some(self.end - self.index))
    }

    /// The next value from the back, or `None` where none is left.
    pub fn next_back(&mut self) -> (r: Option<MultiPoint<'a>>)
        requires
            old(self).wf(),
        ensures
            final(self).wf(),
            final(self).spec_array() == old(self).spec_array(),
            final(self).spec_index() == old(self).spec_index(),
            old(self).spec_index() == old(self).spec_end() ==> r is None && final(self).spec_end()
                == old(self).spec_end(),
            old(self).spec_index() < old(self).spec_end() ==> final(self).spec_end() == old(
                self,
            ).spec_end() - 1 && r is Some && r->0.wf() && r->0.model() == old(
                self,
            ).spec_array().values()[old(self).spec_end() - 1],
    {
        if self.index == self.end {
            None
        } else {
            self.end -= 1;
            Some(self.array.value(self.end))
        }
    }
}

impl MultiPointArray {
    /// A walk over the values of the array, absent elements included.
    pub fn values_iter(&self) -> (it: MultiPointArrayValuesIter<'_>)
        requires
            self.wf(),
        ensures
            it.wf(),
            it.spec_array() == self,
            it.spec_index() == 0,
            it.spec_end() == self.values().len(),
    {
        MultiPointArrayValuesIter::new(self)
    }
}

} // verus!
