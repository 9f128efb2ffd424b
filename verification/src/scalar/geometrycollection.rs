//! The geometry collection scalar.

use vstd::prelude::*;
use crate::array::mixed::MixedGeometryArray;
use crate::geometry::{GeometryCollectionTrait, GeometryModel, GeometryTrait};
use crate::offsets::{OffsetBuffer, covers, run, run_count};
use crate::scalar::geometry::Geometry;

verus! {

/// One geometry collection of an array, read in place.
#[derive(Clone, Copy)]
pub struct GeometryCollection<'a> {
    array: &'a MixedGeometryArray,
    geom_offsets: &'a OffsetBuffer,
    geom_index: usize,
}

impl<'a> GeometryCollection<'a> {
    /// The index is inside well-formed buffers.
    pub closed spec fn wf(&self) -> bool {
        &&& self.array.wf()
        &&& self.geom_offsets.wf()
        &&& covers(self.geom_offsets@, self.array.values().len())
        &&& self.geom_index < run_count(self.geom_offsets@)
    }

    /// The members that the collection stands for, absent ones included.
    pub closed spec fn model(&self) -> Seq<GeometryModel> {
        run(self.array.values(), self.geom_offsets@, self.geom_index as int)
    }

    /// Which members are present.
    pub closed spec fn member_bits(&self) -> Seq<bool> {
        run(self.array.validity_bits(), self.geom_offsets@, self.geom_index as int)
    }

    /// The collection whose members are run `geom_index` of `geom_offsets` over
    /// `array`.
    pub fn new(array: &'a MixedGeometryArray, geom_offsets: &'a OffsetBuffer, geom_index: usize)
        -> (c: GeometryCollection<'a>)
        requires
            array.wf(),
            geom_offsets.wf(),
            covers(geom_offsets@, array.values().len()),
            geom_index < run_count(geom_offsets@),
        ensures
            c.wf(),
            c.model() == run(array.values(), geom_offsets@, geom_index as int),
            c.member_bits() == run(array.validity_bits(), geom_offsets@, geom_index as int),
    {
        GeometryCollection { array, geom_offsets, geom_index }
    }

    /// The number of members.
    pub fn num_geometries(&self) -> (n: usize)
        requires
            self.wf(),
        ensures
            n == self.model().len(),
            n == self.member_bits().len(),
    {
        let (start, end) = self.geom_offsets.start_end(self.geom_index);
        proof {
            assert(self.geom_offsets@[self.geom_index + 1] <= self.geom_offsets@.last());
            let all = self.array.len_facts();
        }
        end - start
    }

    /// Member `i`, or `None` where `i` is out of bounds.
    pub fn geometry(&self, i: usize) -> (g: Option<Geometry<'a>>)
        requires
            self.wf(),
        ensures
            i < self.model().len() ==> g is Some && g->0.wf() && g->0.model()
                == self.model()[i as int],
            i >= self.model().len() ==> g is None,
    {
        let (start, end) = self.geom_offsets.start_end(self.geom_index);
        proof {
            assert(self.geom_offsets@[self.geom_index + 1] <= self.geom_offsets@.last());
            let all = self.array.len_facts();
        }
        if i < end - start {
            Some(self.array.value(start + i))
        } else {
            None
        }
    }

    /// Whether member `i` is present.
    pub fn is_member_valid(&self, i: usize) -> (b: bool)
        requires
            self.wf(),
            i < self.model().len(),
        ensures
            b == self.member_bits()[i as int],
    {
        let (start, end) = self.geom_offsets.start_end(self.geom_index);
        proof {
            assert(self.geom_offsets@[self.geom_index + 1] <= self.geom_offsets@.last());
            let all = self.array.len_facts();
        }
        self.array.is_valid(start + i)
    }
}

impl<'a> GeometryCollectionTrait for GeometryCollection<'a> {
    type Item = Geometry<'a>;

    open spec fn wf(&self) -> bool {
        GeometryCollection::wf(self)
    }

    open spec fn model(&self) -> Seq<GeometryModel> {
        GeometryCollection::model(self)
    }

    fn num_geometries(&self) -> (n: usize) {
        GeometryCollection::num_geometries(self)
    }

    fn geometry(&self, i: usize) -> (g: Option<Geometry<'a>>) {
        GeometryCollection::geometry(self, i)
    }
}

} // verus!
