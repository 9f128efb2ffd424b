//! The multi point scalar.

use vstd::prelude::*;
use crate::coord::{Coord, CoordBuffer};
use crate::geo_traits::{MultiPointTrait, PointTrait};
use crate::offsets::{OffsetBuffer, covers, run, run_count};

verus! {

/// One multi point of an array, read in place.
#[derive(Clone, Copy)]
pub struct MultiPoint<'a> {
    coords: &'a CoordBuffer,
    geom_offsets: &'a OffsetBuffer,
    geom_index: usize,
}

impl<'a> MultiPoint<'a> {
    /// The multi point that run `geom_index` of `geom_offsets` cuts out of
    /// `coords`.
    pub fn new(coords: &'a CoordBuffer, geom_offsets: &'a OffsetBuffer, geom_index: usize) -> (m:
        MultiPoint<'a>)
        requires
            coords.wf(),
            geom_offsets.wf(),
            covers(geom_offsets@, coords@.len()),
            geom_index < run_count(geom_offsets@),
        ensures
            m.wf(),
            m.model() == run(coords@, geom_offsets@, geom_index as int),
    {
        MultiPoint { coords, geom_offsets, geom_index }
    }
}

impl<'a> MultiPointTrait for MultiPoint<'a> {
    type Item = Coord;

    closed spec fn wf(&self) -> bool {
        &&& self.coords.wf()
        &&& self.geom_offsets.wf()
        &&& covers(self.geom_offsets@, self.coords@.len())
        &&& self.geom_index < run_count(self.geom_offsets@)
    }

    closed spec fn model(&self) -> Seq<Coord> {
        run(self.coords@, self.geom_offsets@, self.geom_index as int)
    }

    fn num_points(&self) -> (n: usize) {
        let (start, end) = self.geom_offsets.start_end(self.geom_index);
        proof {
            assert(self.geom_offsets@[self.geom_index + 1] <= self.geom_offsets@.last());
            assert(self.model() == self.coords@.subrange(start as int, end as int));
        }
        end - start
    }

    fn point(&self, i: usize) -> (p: Option<Coord>) {
        let (start, end) = self.geom_offsets.start_end(self.geom_index);
        proof {
            assert(self.geom_offsets@[self.geom_index + 1] <= self.geom_offsets@.last());
            assert(self.model() == self.coords@.subrange(start as int, end as int));
            assert(self.model().len() == end - start);
        }
        if i < end - start {
            let c = self.coords.value(start + i);
            assert(c == self.model()[i as int]);
            assert(PointTrait::wf(&c));
            assert(PointTrait::model(&c) == c);
            Some(c)
        } else {
            None
        }
    }
}

} // verus!
