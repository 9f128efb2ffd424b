//! The polygon scalar.

use vstd::prelude::*;
use crate::coord::{Coord, CoordBuffer};
use crate::geo_traits::{LineStringTrait, PolygonTrait};
use crate::offsets::{OffsetBuffer, covers, run, run_count, runs};
use crate::scalar::linestring::LineString;

verus! {

/// One polygon of an array, read in place.
#[derive(Clone, Copy)]
pub struct Polygon<'a> {
    coords: &'a CoordBuffer,
    geom_offsets: &'a OffsetBuffer,
    ring_offsets: &'a OffsetBuffer,
    geom_index: usize,
}

impl<'a> Polygon<'a> {
    /// The polygon whose rings are run `geom_index` of `geom_offsets` over the
    /// rings that `ring_offsets` cut out of `coords`.
    pub fn new(
        coords: &'a CoordBuffer,
        geom_offsets: &'a OffsetBuffer,
        ring_offsets: &'a OffsetBuffer,
        geom_index: usize,
    ) -> (p: Polygon<'a>)
        requires
            coords.wf(),
            geom_offsets.wf(),
            ring_offsets.wf(),
            covers(ring_offsets@, coords@.len()),
            covers(geom_offsets@, run_count(ring_offsets@)),
            geom_index < run_count(geom_offsets@),
        ensures
            p.wf(),
            p.model() == run(runs(coords@, ring_offsets@), geom_offsets@, geom_index as int),
    {
        Polygon { coords, geom_offsets, ring_offsets, geom_index }
    }

    /// Ring `i` of the polygon as a line string, `i` counted from the exterior.
    fn ring(&self, i: usize) -> (r: LineString<'a>)
        requires
            self.wf(),
            i < self.model().len(),
        ensures
            r.wf(),
            r.model() == self.model()[i as int],
    {
        let (start, end) = self.geom_offsets.start_end(self.geom_index);
        proof {
            assert(self.geom_offsets@[self.geom_index + 1] <= self.geom_offsets@.last());
        }
        LineString::new(self.coords, self.ring_offsets, start + i)
    }

    /// The number of rings, the exterior included.
    pub fn num_rings(&self) -> (n: usize)
        requires
            self.wf(),
        ensures
            n == self.model().len(),
    {
        let (start, end) = self.geom_offsets.start_end(self.geom_index);
        proof {
            assert(self.geom_offsets@[self.geom_index + 1] <= self.geom_offsets@.last());
        }
        end - start
    }
}

impl<'a> PolygonTrait for Polygon<'a> {
    type Ring = LineString<'a>;

    closed spec fn wf(&self) -> bool {
        &&& self.coords.wf()
        &&& self.geom_offsets.wf()
        &&& self.ring_offsets.wf()
        &&& covers(self.ring_offsets@, self.coords@.len())
        &&& covers(self.geom_offsets@, run_count(self.ring_offsets@))
        &&& self.geom_index < run_count(self.geom_offsets@)
    }

    closed spec fn model(&self) -> Seq<Seq<Coord>> {
        run(runs(self.coords@, self.ring_offsets@), self.geom_offsets@, self.geom_index as int)
    }

    fn exterior(&self) -> (r: Option<LineString<'a>>) {
        if self.num_rings() > 0 {
            Some(self.ring(0))
        } else {
            None
        }
    }

    fn num_interiors(&self) -> (n: usize) {
        let rings = self.num_rings();
        if rings > 0 {
            rings - 1
        } else {
            0
        }
    }

    fn interior(&self, i: usize) -> (r: Option<LineString<'a>>) {
        let rings = self.num_rings();
        if i < rings && i + 1 < rings {
            Some(self.ring(i + 1))
        } else {
            None
        }
    }
}

} // verus!
