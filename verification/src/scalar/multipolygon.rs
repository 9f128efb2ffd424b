//! The multi polygon scalar.

use vstd::prelude::*;
use crate::coord::{Coord, CoordBuffer};
use crate::geo_traits::{MultiPolygonTrait, PolygonTrait};
use crate::offsets::{OffsetBuffer, covers, lemma_window_wf, run, run_count, runs};
use crate::scalar::owned::OwnedMultiPolygon;
use crate::scalar::polygon::Polygon;

verus! {

/// One multi polygon of an array, read in place.
#[derive(Clone, Copy)]
pub struct MultiPolygon<'a> {
    coords: &'a CoordBuffer,
    geom_offsets: &'a OffsetBuffer,
    polygon_offsets: &'a OffsetBuffer,
    ring_offsets: &'a OffsetBuffer,
    geom_index: usize,
}

impl<'a> MultiPolygon<'a> {
    /// The multi polygon whose polygons are run `geom_index` of `geom_offsets`
    /// over the polygons that `polygon_offsets` cut out of the rings that
    /// `ring_offsets` cut out of `coords`.
    pub fn new_borrowed(
        coords: &'a CoordBuffer,
        geom_offsets: &'a OffsetBuffer,
        polygon_offsets: &'a OffsetBuffer,
        ring_offsets: &'a OffsetBuffer,
        geom_index: usize,
    ) -> (m: MultiPolygon<'a>)
        requires
            coords.wf(),
            geom_offsets.wf(),
            polygon_offsets.wf(),
            ring_offsets.wf(),
            covers(ring_offsets@, coords@.len()),
            covers(polygon_offsets@, run_count(ring_offsets@)),
            covers(geom_offsets@, run_count(polygon_offsets@)),
            geom_index < run_count(geom_offsets@),
        ensures
            m.wf(),
            m.model() == run(
                runs(runs(coords@, ring_offsets@), polygon_offsets@),
                geom_offsets@,
                geom_index as int,
            ),
    {
        MultiPolygon { coords, geom_offsets, polygon_offsets, ring_offsets, geom_index }
    }
}

impl<'a> MultiPolygon<'a> {
    /// The multi polygon at `geom_index` of the given buffers.
    pub fn new(
        coords: &'a CoordBuffer,
        geom_offsets: &'a OffsetBuffer,
        polygon_offsets: &'a OffsetBuffer,
        ring_offsets: &'a OffsetBuffer,
        geom_index: usize,
    ) -> (m: MultiPolygon<'a>)
        requires
            coords.wf(),
            geom_offsets.wf(),
            polygon_offsets.wf(),
            ring_offsets.wf(),
            covers(ring_offsets@, coords@.len()),
            covers(polygon_offsets@, run_count(ring_offsets@)),
            covers(geom_offsets@, run_count(polygon_offsets@)),
            geom_index < run_count(geom_offsets@),
        ensures
            m.wf(),
            m.model() == run(
                runs(runs(coords@, ring_offsets@), polygon_offsets@),
                geom_offsets@,
                geom_index as int,
            ),
    {
        MultiPolygon::new_borrowed(coords, geom_offsets, polygon_offsets, ring_offsets, geom_index)
    }

    /// The multi polygon at `geom_index` of buffers that it keeps for itself.
    pub fn new_owned(
        coords: CoordBuffer,
        geom_offsets: OffsetBuffer,
        polygon_offsets: OffsetBuffer,
        ring_offsets: OffsetBuffer,
        geom_index: usize,
    ) -> (m: OwnedMultiPolygon)
        requires
            coords.wf(),
            geom_offsets.wf(),
            polygon_offsets.wf(),
            ring_offsets.wf(),
            covers(ring_offsets@, coords@.len()),
            covers(polygon_offsets@, run_count(ring_offsets@)),
            covers(geom_offsets@, run_count(polygon_offsets@)),
            geom_index < run_count(geom_offsets@),
        ensures
            m.wf(),
            m.spec_index() == geom_index,
            m.model() == run(
                runs(runs(coords@, ring_offsets@), polygon_offsets@),
                geom_offsets@,
                geom_index as int,
            ),
    {
        OwnedMultiPolygon::new(coords, geom_offsets, polygon_offsets, ring_offsets, geom_index)
    }

    /// The same multi polygon with handles of its own on the buffers, as element
    /// `0` of offsets cut down to this one element. Nothing is copied.
    pub fn into_owned(self) -> (m: OwnedMultiPolygon)
        requires
            self.wf(),
        ensures
            m.wf(),
            m.spec_index() == 0,
            m.model() == self.model(),
    {
        let (coords, geom_offsets, polygon_offsets, ring_offsets, geom_index) =
            self.into_owned_inner();
        OwnedMultiPolygon::new(coords, geom_offsets, polygon_offsets, ring_offsets, geom_index)
    }

    /// Handles of their own on the buffers that this multi polygon is read from,
    /// with the offsets of the top level cut down to this one element, which is
    /// element `0` of what is returned. Nothing is copied.
    pub fn into_owned_inner(self) -> (parts: (
        CoordBuffer,
        OffsetBuffer,
        OffsetBuffer,
        OffsetBuffer,
        usize,
    ))
        requires
            self.wf(),
        ensures
            parts.0.wf(),
            parts.1.wf(),
            parts.2.wf(),
            parts.3.wf(),
            covers(parts.3@, parts.0@.len()),
            covers(parts.2@, run_count(parts.3@)),
            covers(parts.1@, run_count(parts.2@)),
            parts.4 == 0,
            run_count(parts.1@) == 1,
            run(runs(runs(parts.0@, parts.3@), parts.2@), parts.1@, 0) == self.model(),
    {
        let n = self.geom_offsets.len();
        proof {
            lemma_window_wf(self.geom_offsets@, self.geom_index as int, 1);
        }
        let geom_offsets = self.geom_offsets.slice(self.geom_index, 1);
        (
            self.coords.duplicate(),
            geom_offsets,
            self.polygon_offsets.duplicate(),
            self.ring_offsets.duplicate(),
            0,
        )
    }
}

impl<'a> MultiPolygonTrait for MultiPolygon<'a> {
    type Item = Polygon<'a>;

    closed spec fn wf(&self) -> bool {
        &&& self.coords.wf()
        &&& self.geom_offsets.wf()
        &&& self.polygon_offsets.wf()
        &&& self.ring_offsets.wf()
        &&& covers(self.ring_offsets@, self.coords@.len())
        &&& covers(self.polygon_offsets@, run_count(self.ring_offsets@))
        &&& covers(self.geom_offsets@, run_count(self.polygon_offsets@))
        &&& self.geom_index < run_count(self.geom_offsets@)
    }

    closed spec fn model(&self) -> Seq<Seq<Seq<Coord>>> {
        run(
            runs(runs(self.coords@, self.ring_offsets@), self.polygon_offsets@),
            self.geom_offsets@,
            self.geom_index as int,
        )
    }

    fn num_polygons(&self) -> (n: usize) {
        let (start, end) = self.geom_offsets.start_end(self.geom_index);
        proof {
            assert(self.geom_offsets@[self.geom_index + 1] <= self.geom_offsets@.last());
        }
        end - start
    }

    fn polygon(&self, i: usize) -> (p: Option<Polygon<'a>>) {
        let (start, end) = self.geom_offsets.start_end(self.geom_index);
        proof {
            assert(self.geom_offsets@[self.geom_index + 1] <= self.geom_offsets@.last());
        }
        if i < end - start {
            Some(Polygon::new(self.coords, self.polygon_offsets, self.ring_offsets, start + i))
        } else {
            None
        }
    }
}

} // verus!
