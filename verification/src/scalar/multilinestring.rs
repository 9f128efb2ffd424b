//! The multi line string scalar.

use vstd::prelude::*;
use crate::coord::{Coord, CoordBuffer};
use crate::geo_traits::{LineStringTrait, MultiLineStringTrait};
use crate::offsets::{OffsetBuffer, covers, run, run_count, runs};
use crate::scalar::linestring::LineString;

verus! {

/// One multi line string of an array, read in place.
#[derive(Clone, Copy)]
pub struct MultiLineString<'a> {
    coords: &'a CoordBuffer,
    geom_offsets: &'a OffsetBuffer,
    ring_offsets: &'a OffsetBuffer,
    geom_index: usize,
}

impl<'a> MultiLineString<'a> {
    /// The multi line string whose parts are run `geom_index` of `geom_offsets`
    /// over the line strings that `ring_offsets` cut out of `coords`.
    pub fn new(
        coords: &'a CoordBuffer,
        geom_offsets: &'a OffsetBuffer,
        ring_offsets: &'a OffsetBuffer,
        geom_index: usize,
    ) -> (m: MultiLineString<'a>)
        requires
            coords.wf(),
            geom_offsets.wf(),
            ring_offsets.wf(),
            covers(ring_offsets@, coords@.len()),
            covers(geom_offsets@, run_count(ring_offsets@)),
            geom_index < run_count(geom_offsets@),
        ensures
            m.wf(),
            m.model() == run(runs(coords@, ring_offsets@), geom_offsets@, geom_index as int),
    {
        MultiLineString { coords, geom_offsets, ring_offsets, geom_index }
    }
}

impl<'a> MultiLineStringTrait for MultiLineString<'a> {
    type Item = LineString<'a>;

    closed spec fn wf(&self) -> bool {
        &&& self.coords.wf()
        &&& self.geom_offsets.wf()
        &&& self.ring_offsets.wf()
        &&& covers(self.ring_offsets@, self.coords@.len())
        &&& covers(self.geom_offsets@, run_count(self.ring_offsets@))
        &&& self.geom_index < run_count(self.geom_offsets@)
    }

    closed spec fn model(&self) -> Seq<Seq<Coord>> {
        run(runs(self.coords@, self.ring_offsets@), self.geom_offsets@, self.geom_index as int)
    }

    fn num_lines(&self) -> (n: usize) {
        let (start, end) = self.geom_offsets.start_end(self.geom_index);
        proof {
            assert(self.geom_offsets@[self.geom_index + 1] <= self.geom_offsets@.last());
        }
        end - start
    }

    fn line(&self, i: usize) -> (l: Option<LineString<'a>>) {
        let (start, end) = self.geom_offsets.start_end(self.geom_index);
        proof {
            assert(self.geom_offsets@[self.geom_index + 1] <= self.geom_offsets@.last());
        }
        if i < end - start {
            Some(LineString::new(self.coords, self.ring_offsets, start + i))
        } else {
            None
        }
    }
}

} // verus!
