//! Scalars that own their buffers.

use vstd::prelude::*;
use crate::array::geometrycollection::GeometryCollectionArray;
use crate::array::metadata::ArrayMetadata;
use crate::array::mixed::MixedGeometryArray;
use crate::coord::{Coord, CoordBuffer};
use crate::datatypes::Dimension;
use crate::geo_traits::MultiPolygonTrait;
use crate::geometry::GeometryModel;
use crate::offsets::{OffsetBuffer, covers, run, run_count, runs};
use crate::scalar::geometrycollection::GeometryCollection;
use crate::scalar::multipolygon::MultiPolygon;
use crate::validity::Validity;

verus! {

/// A geometry collection that keeps the buffers it is read from alive.
pub struct OwnedGeometryCollection {
    array: MixedGeometryArray,
    geom_offsets: OffsetBuffer,
    geom_index: usize,
}

impl OwnedGeometryCollection {
    /// The index is inside well-formed buffers.
    pub closed spec fn wf(&self) -> bool {
        &&& self.array.wf()
        &&& self.geom_offsets.wf()
        &&& covers(self.geom_offsets@, self.array.values().len())
        &&& self.geom_index < run_count(self.geom_offsets@)
    }

    /// The position of the collection among those that the buffers hold.
    pub closed spec fn spec_index(&self) -> int {
        self.geom_index as int
    }

    /// The members that the collection stands for.
    pub closed spec fn model(&self) -> Seq<GeometryModel> {
        run(self.array.values(), self.geom_offsets@, self.geom_index as int)
    }

    /// The collection whose members are run `geom_index` of `geom_offsets` over
    /// `array`.
    pub fn new(array: MixedGeometryArray, geom_offsets: OffsetBuffer, geom_index: usize) -> (c:
        OwnedGeometryCollection)
        requires
            array.wf(),
            geom_offsets.wf(),
            covers(geom_offsets@, array.values().len()),
            geom_index < run_count(geom_offsets@),
        ensures
            c.wf(),
            c.model() == run(array.values(), geom_offsets@, geom_index as int),
    {
        OwnedGeometryCollection { array, geom_offsets, geom_index }
    }

    /// The collection, read in place.
    pub fn as_scalar(&self) -> (s: GeometryCollection<'_>)
        requires
            self.wf(),
        ensures
            s.wf(),
            s.model() == self.model(),
    {
        GeometryCollection::new(&self.array, &self.geom_offsets, self.geom_index)
    }

    /// The dimension of the coordinates.
    pub fn dim(&self) -> (d: Dimension)
        ensures
            d == Dimension::XY,
    {
        Dimension::XY
    }

    /// The number of members.
    pub fn num_geometries(&self) -> (n: usize)
        requires
            self.wf(),
        ensures
            n == self.model().len(),
    {
        self.as_scalar().num_geometries()
    }

    /// The array of collections that the buffers make, without a validity
    /// bitmap.
    pub fn into_array(self) -> (a: GeometryCollectionArray)
        requires
            self.wf(),
        ensures
            a.wf(),
            0 <= self.spec_index() < a.values().len(),
            a.values()[self.spec_index()] == self.model(),
            a.validity_bits() == Seq::new(a.values().len(), |i: int| true),
    {
        let a = GeometryCollectionArray::new(
            self.array,
            self.geom_offsets,
            Validity::all_valid(),
            ArrayMetadata::new(),
        );
        proof {
            a.lemma_values();
            assert(a.validity_bits() =~= Seq::new(a.values().len(), |i: int| true));
        }
        a
    }
}

/// A multi polygon that keeps the buffers it is read from alive.
pub struct OwnedMultiPolygon {
    coords: CoordBuffer,
    geom_offsets: OffsetBuffer,
    polygon_offsets: OffsetBuffer,
    ring_offsets: OffsetBuffer,
    geom_index: usize,
}

impl OwnedMultiPolygon {
    /// The index is inside well-formed buffers.
    pub closed spec fn wf(&self) -> bool {
        &&& self.coords.wf()
        &&& self.geom_offsets.wf()
        &&& self.polygon_offsets.wf()
        &&& self.ring_offsets.wf()
        &&& covers(self.ring_offsets@, self.coords@.len())
        &&& covers(self.polygon_offsets@, run_count(self.ring_offsets@))
        &&& covers(self.geom_offsets@, run_count(self.polygon_offsets@))
        &&& self.geom_index < run_count(self.geom_offsets@)
    }

    /// The position of the multi polygon among those that the buffers hold.
    pub closed spec fn spec_index(&self) -> int {
        self.geom_index as int
    }

    /// The polygons that the multi polygon stands for, each as its rings.
    pub closed spec fn model(&self) -> Seq<Seq<Seq<Coord>>> {
        run(
            runs(runs(self.coords@, self.ring_offsets@), self.polygon_offsets@),
            self.geom_offsets@,
            self.geom_index as int,
        )
    }

    /// The multi polygon whose polygons are run `geom_index` of `geom_offsets`
    /// over the polygons that `polygon_offsets` cut out of the rings that
    /// `ring_offsets` cut out of `coords`.
    pub fn new(
        coords: CoordBuffer,
        geom_offsets: OffsetBuffer,
        polygon_offsets: OffsetBuffer,
        ring_offsets: OffsetBuffer,
        geom_index: usize,
    ) -> (m: OwnedMultiPolygon)
        requires
            coords.wf(),
            geom_offsets.wf(),
            polygon_offsets.wf(),
            ring_offsets.wf(),
            covers(ring_offsets@, coords@.len()),
            covers(polygon_offsets@, run_count(ring_offsets@)),
            covers(geom_offsets@, run_count(polygon_offsets@)),
            geom_index < run_count(geom_offsets@),
        ensures
            m.wf(),
            m.spec_index() == geom_index,
            m.model() == run(
                runs(runs(coords@, ring_offsets@), polygon_offsets@),
                geom_offsets@,
                geom_index as int,
            ),
    {
        OwnedMultiPolygon { coords, geom_offsets, polygon_offsets, ring_offsets, geom_index }
    }

    /// The multi polygon, read in place.
    pub fn as_scalar(&self) -> (s: MultiPolygon<'_>)
        requires
            self.wf(),
        ensures
            s.wf(),
            s.model() == self.model(),
    {
        MultiPolygon::new_borrowed(
            &self.coords,
            &self.geom_offsets,
            &self.polygon_offsets,
            &self.ring_offsets,
            self.geom_index,
        )
    }

    /// The number of polygons.
    pub fn num_polygons(&self) -> (n: usize)
        requires
            self.wf(),
        ensures
            n == self.model().len(),
    {
        self.as_scalar().num_polygons()
    }
}

} // verus!
