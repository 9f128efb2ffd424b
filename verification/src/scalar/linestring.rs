//! The line string scalar.

use vstd::prelude::*;
use crate::coord::{Coord, CoordBuffer};
use crate::geo_traits::LineStringTrait;
use crate::offsets::{OffsetBuffer, covers, run, run_count};

verus! {

/// One line string of an array, read in place.
#[derive(Clone, Copy)]
pub struct LineString<'a> {
    coords: &'a CoordBuffer,
    geom_offsets: &'a OffsetBuffer,
    geom_index: usize,
}

impl<'a> LineString<'a> {
    /// The line string that run `geom_index` of `geom_offsets` cuts out of
    /// `coords`.
    pub fn new(coords: &'a CoordBuffer, geom_offsets: &'a OffsetBuffer, geom_index: usize) -> (l:
        LineString<'a>)
        requires
            coords.wf(),
            geom_offsets.wf(),
            covers(geom_offsets@, coords@.len()),
            geom_index < run_count(geom_offsets@),
        ensures
            l.wf(),
            l.model() == run(coords@, geom_offsets@, geom_index as int),
    {
        LineString { coords, geom_offsets, geom_index }
    }
}

impl<'a> LineStringTrait for LineString<'a> {
    closed spec fn wf(&self) -> bool {
        &&& self.coords.wf()
        &&& self.geom_offsets.wf()
        &&& covers(self.geom_offsets@, self.coords@.len())
        &&& self.geom_index < run_count(self.geom_offsets@)
    }

    closed spec fn model(&self) -> Seq<Coord> {
        run(self.coords@, self.geom_offsets@, self.geom_index as int)
    }

    fn num_coords(&self) -> (n: usize) {
        let (start, end) = self.geom_offsets.start_end(self.geom_index);
        proof {
            assert(self.geom_offsets@[self.geom_index + 1] <= self.geom_offsets@.last());
            assert(self.model() == self.coords@.subrange(start as int, end as int));
        }
        end - start
    }

    fn coord(&self, i: usize) -> (c: Option<Coord>) {
        let (start, end) = self.geom_offsets.start_end(self.geom_index);
        proof {
            assert(self.geom_offsets@[self.geom_index + 1] <= self.geom_offsets@.last());
            assert(self.model() == self.coords@.subrange(start as int, end as int));
            assert(self.model().len() == end - start);
        }
        if i < end - start {
            let c = self.coords.value(start + i);
            assert(c == self.model()[i as int]);
            Some(c)
        } else {
            None
        }
    }
}

} // verus!
