//! Arrays of multi polygons and their builder.

use vstd::prelude::*;
use crate::array::metadata::ArrayMetadata;
use crate::array::util::{lemma_close_run, lemma_total_len2_one, lemma_total_len_one, level_wf,
    multi_polygon_counts, polygon_coord_count, push_multi_polygon_run, push_polygon_run, total_len,
    total_len2, total_len3};
use crate::array::util::{
    lemma_total_len2_prefix, lemma_total_len2_step, lemma_total_len3_prefix,
    lemma_total_len3_step, lemma_total_len_empty, lemma_total_len_prefix, lemma_total_len_step,
};
use crate::coord::{Coord, CoordBuffer, CoordBufferBuilder, CoordType};
use crate::datatypes::{GeoDataType, Shape};
use crate::error::GeoArrowError;
use crate::geo_traits::{MultiPolygonTrait, PolygonTrait, polygon_num_rings};
use crate::offsets::{
    OffsetBuffer, OffsetWidth, OffsetsBuilder, covers, covers_exactly, lemma_runs_window,
    lemma_window_wf, run_count, runs, window,
};
use crate::scalar::multipolygon::MultiPolygon;
use crate::validity::{Validity, ValidityBuilder, masked, has_null};
use crate::array::util::{flat, lemma_flat_runs, lemma_offsets_are_totals};

verus! {

/// How much room the buffers of an array of multi polygons need.
#[derive(Clone, Copy, Debug, PartialEq, Eq, Structural)]
pub struct MultiPolygonCapacity {
    /// The number of coordinates.
    pub coord_capacity: usize,
    /// The number of rings.
    pub ring_capacity: usize,
    /// The number of polygons.
    pub polygon_capacity: usize,
    /// The number of multi polygons.
    pub geom_capacity: usize,
}

impl MultiPolygonCapacity {
    /// Room for `coord_capacity` coordinates in `ring_capacity` rings in
    /// `polygon_capacity` polygons in `geom_capacity` multi polygons.
    pub fn new(
        coord_capacity: usize,
        ring_capacity: usize,
        polygon_capacity: usize,
        geom_capacity: usize,
    ) -> (c: MultiPolygonCapacity)
        ensures
            c.coord_capacity == coord_capacity,
            c.ring_capacity == ring_capacity,
            c.polygon_capacity == polygon_capacity,
            c.geom_capacity == geom_capacity,
    {
        MultiPolygonCapacity { coord_capacity, ring_capacity, polygon_capacity, geom_capacity }
    }

    /// No room at all.
    pub fn new_empty() -> (c: MultiPolygonCapacity)
        ensures
            c.coord_capacity == 0,
            c.ring_capacity == 0,
            c.polygon_capacity == 0,
            c.geom_capacity == 0,
    {
        MultiPolygonCapacity { coord_capacity: 0, ring_capacity: 0, polygon_capacity: 0, geom_capacity: 0 }
    }
}

/// An immutable array of multi polygons: a coordinate buffer, offsets that cut it into
/// rings, offsets that cut the rings into polygons, offsets that cut the polygons
/// into one run per element, and an optional validity bitmap.
pub struct MultiPolygonArray {
    coords: CoordBuffer,
    geom_offsets: OffsetBuffer,
    polygon_offsets: OffsetBuffer,
    ring_offsets: OffsetBuffer,
    validity: Validity,
    metadata: ArrayMetadata,
}

impl View for MultiPolygonArray {
    type V = Seq<Option<Seq<Seq<Seq<Coord>>>>>;

    open spec fn view(&self) -> Seq<Option<Seq<Seq<Seq<Coord>>>>> {
        masked(self.values(), self.validity_bits())
    }
}

impl MultiPolygonArray {
    /// The buffers are well formed, each level of offsets stays inside the level
    /// below, and the validity, if held, has one bit per element.
    pub closed spec fn wf(&self) -> bool {
        &&& self.coords.wf()
        &&& self.geom_offsets.wf()
        &&& self.polygon_offsets.wf()
        &&& self.ring_offsets.wf()
        &&& covers(self.ring_offsets@, self.coords@.len())
        &&& covers(self.polygon_offsets@, run_count(self.ring_offsets@))
        &&& covers(self.geom_offsets@, run_count(self.polygon_offsets@))
        &&& self.validity.covers(run_count(self.geom_offsets@))
    }

    /// The polygons stored for each element, absent elements included.
    pub closed spec fn values(&self) -> Seq<Seq<Seq<Seq<Coord>>>> {
        runs(
            runs(runs(self.coords@, self.ring_offsets@), self.polygon_offsets@),
            self.geom_offsets@,
        )
    }

    /// Which elements are present.
    pub closed spec fn validity_bits(&self) -> Seq<bool> {
        self.validity.bits(run_count(self.geom_offsets@))
    }

    /// The coordinates of the coordinate buffer.
    pub closed spec fn spec_coords(&self) -> Seq<Coord> {
        self.coords@
    }

    /// The offsets into the coordinate buffer, one run per ring.
    pub closed spec fn spec_ring_offsets(&self) -> Seq<int> {
        self.ring_offsets@
    }

    /// The offsets into the rings, one run per polygon.
    pub closed spec fn spec_polygon_offsets(&self) -> Seq<int> {
        self.polygon_offsets@
    }

    /// The offsets into the polygons, one run per element.
    pub closed spec fn spec_geom_offsets(&self) -> Seq<int> {
        self.geom_offsets@
    }

    /// Whether a validity bitmap is held.
    pub closed spec fn has_bitmap(&self) -> bool {
        self.validity.has_bitmap()
    }

    /// The array holds its values and nothing beside them: every level of offsets starts at zero and ends where the level below ends, and
    /// a validity bitmap is held only where some element is absent.
    pub open spec fn compact(&self) -> bool {
        &&& covers_exactly(self.spec_ring_offsets(), self.spec_coords().len())
        &&& covers_exactly(self.spec_polygon_offsets(), run_count(self.spec_ring_offsets()))
        &&& covers_exactly(self.spec_geom_offsets(), run_count(self.spec_polygon_offsets()))
        &&& self.has_bitmap() <==> has_null(self.validity_bits())
    }

    /// The layout of the coordinates.
    pub closed spec fn spec_coord_type(&self) -> CoordType {
        self.coords.spec_coord_type()
    }

    /// The width of the offsets.
    pub closed spec fn spec_width(&self) -> OffsetWidth {
        self.geom_offsets.spec_width()
    }

    /// The metadata of the array.
    pub closed spec fn spec_metadata(&self) -> ArrayMetadata {
        self.metadata
    }

    /// What the buffers mean: the values are the runs of the runs of the runs of
    /// the coordinates.
    pub proof fn lemma_values(&self)
        ensures
            self.values() == runs(
                runs(
                    runs(self.spec_coords(), self.spec_ring_offsets()),
                    self.spec_polygon_offsets(),
                ),
                self.spec_geom_offsets(),
            ),
            self.wf() ==> covers(self.spec_ring_offsets(), self.spec_coords().len()),
            self.wf() ==> covers(
                self.spec_polygon_offsets(),
                run_count(self.spec_ring_offsets()),
            ),
            self.wf() ==> covers(
                self.spec_geom_offsets(),
                run_count(self.spec_polygon_offsets()),
            ),
            self.values().len() == self.validity_bits().len(),
    {
    }

    /// Where the array holds nothing beside its values, the values fix the
    /// buffers: every offset is the number of items of the level below that the
    /// items before it hold, and the coordinate buffer holds as many coordinates
    /// as the elements together.
    pub proof fn lemma_compact(&self, k: int, j: int, m: int)
        requires
            self.wf(),
            self.compact(),
            0 <= k <= self.values().len(),
            0 <= j <= total_len(self.values()),
            0 <= m <= total_len(flat(self.values())),
        ensures
            self.spec_geom_offsets().len() == self.values().len() + 1,
            self.spec_geom_offsets()[k] == total_len(self.values().take(k)),
            self.spec_polygon_offsets().len() == total_len(self.values()) + 1,
            self.spec_polygon_offsets()[j] == total_len(flat(self.values()).take(j)),
            self.spec_ring_offsets().len() == total_len(flat(self.values())) + 1,
            self.spec_ring_offsets()[m] == total_len(flat(flat(self.values())).take(m)),
            self.spec_coords().len() == total_len(flat(flat(self.values()))),
    {
        let rings = runs(self.spec_coords(), self.spec_ring_offsets());
        let polygons = runs(rings, self.spec_polygon_offsets());
        lemma_offsets_are_totals(polygons, self.spec_geom_offsets(), k);
        lemma_flat_runs(polygons, self.spec_geom_offsets());
        lemma_offsets_are_totals(rings, self.spec_polygon_offsets(), j);
        lemma_flat_runs(rings, self.spec_polygon_offsets());
        lemma_offsets_are_totals(self.spec_coords(), self.spec_ring_offsets(), m);
    }

    /// An array from its parts.
    pub fn new(
        coords: CoordBuffer,
        geom_offsets: OffsetBuffer,
        polygon_offsets: OffsetBuffer,
        ring_offsets: OffsetBuffer,
        validity: Validity,
        metadata: ArrayMetadata,
    ) -> (a: MultiPolygonArray)
        requires
            MultiPolygonArray::parts_fit(coords, geom_offsets, polygon_offsets, ring_offsets, validity),
        ensures
            a.wf(),
            a.values() == runs(
                runs(runs(coords@, ring_offsets@), polygon_offsets@),
                geom_offsets@,
            ),
            a.validity_bits() == validity.bits(run_count(geom_offsets@)),
            a.has_bitmap() == validity.has_bitmap(),
            a.spec_coords() == coords@,
            a.spec_ring_offsets() == ring_offsets@,
            a.spec_polygon_offsets() == polygon_offsets@,
            a.spec_geom_offsets() == geom_offsets@,
            a.spec_coord_type() == coords.spec_coord_type(),
            a.spec_width() == geom_offsets.spec_width(),
            a.spec_metadata() == metadata,
    {
        MultiPolygonArray { coords, geom_offsets, polygon_offsets, ring_offsets, validity, metadata }
    }

    /// An array from its parts, or [`GeoArrowError::ShapeMismatch`] where a
    /// buffer is malformed, offsets point beyond the level below, or `validity`
    /// holds a bitmap of another length than the offsets delimit runs.
    pub fn try_new(
        coords: CoordBuffer,
        geom_offsets: OffsetBuffer,
        polygon_offsets: OffsetBuffer,
        ring_offsets: OffsetBuffer,
        validity: Validity,
        metadata: ArrayMetadata,
    ) -> (r: Result<MultiPolygonArray, GeoArrowError>)
        ensures
            MultiPolygonArray::parts_fit(coords, geom_offsets, polygon_offsets, ring_offsets, validity)
                ==> r is Ok,
            !MultiPolygonArray::parts_fit(coords, geom_offsets, polygon_offsets, ring_offsets, validity)
                ==> r == Err::<MultiPolygonArray, GeoArrowError>(GeoArrowError::ShapeMismatch),
            r matches Ok(a) ==> {
                &&& a.wf()
                &&& a.values() == runs(
                    runs(runs(coords@, ring_offsets@), polygon_offsets@),
                    geom_offsets@,
                )
                &&& a.validity_bits() == validity.bits(run_count(geom_offsets@))
                &&& a.has_bitmap() == validity.has_bitmap()
                &&& a.spec_coord_type() == coords.spec_coord_type()
                &&& a.spec_width() == geom_offsets.spec_width()
                &&& a.spec_metadata() == metadata
            },
    {
        if !coords.check() || !geom_offsets.check() || !polygon_offsets.check()
            || !ring_offsets.check() {
            return Err(GeoArrowError::ShapeMismatch);
        }
        if ring_offsets.last() > coords.len() || polygon_offsets.last() > ring_offsets.len()
            || geom_offsets.last() > polygon_offsets.len() {
            return Err(GeoArrowError::ShapeMismatch);
        }
        match validity.bitmap_len() {
            Some(n) => {
                if n != geom_offsets.len() {
                    return Err(GeoArrowError::ShapeMismatch);
                }
            },
            None => {},
        }
        Ok(MultiPolygonArray::new(coords, geom_offsets, polygon_offsets, ring_offsets, validity, metadata))
    }

    /// The parts can make an array.
    pub open spec fn parts_fit(
        coords: CoordBuffer,
        geom_offsets: OffsetBuffer,
        polygon_offsets: OffsetBuffer,
        ring_offsets: OffsetBuffer,
        validity: Validity,
    ) -> bool {
        &&& coords.wf()
        &&& geom_offsets.wf()
        &&& polygon_offsets.wf()
        &&& ring_offsets.wf()
        &&& covers(ring_offsets@, coords@.len())
        &&& covers(polygon_offsets@, run_count(ring_offsets@))
        &&& covers(geom_offsets@, run_count(polygon_offsets@))
        &&& validity.covers(run_count(geom_offsets@))
    }

    /// The number of elements.
    pub fn len(&self) -> (n: usize)
        requires
            self.wf(),
        ensures
            n == self@.len(),
            n == self.values().len(),
            n == self.validity_bits().len(),
            n == run_count(self.spec_geom_offsets()),
    {
        self.geom_offsets.len()
    }

    /// Whether element `i` is present.
    pub fn is_valid(&self, i: usize) -> (b: bool)
        requires
            self.wf(),
            i < self@.len(),
        ensures
            b == self.validity_bits()[i as int],
            b == (self@[i as int] is Some),
    {
        self.validity.is_valid(i)
    }

    /// Whether element `i` is absent.
    pub fn is_null(&self, i: usize) -> (b: bool)
        requires
            self.wf(),
            i < self@.len(),
        ensures
            b == !self.validity_bits()[i as int],
            b == (self@[i as int] is None),
    {
        !self.validity.is_valid(i)
    }

    /// The scalar at `i`, whether or not the element is present.
    pub fn value(&self, i: usize) -> (s: MultiPolygon<'_>)
        requires
            self.wf(),
            i < self@.len(),
        ensures
            s.wf(),
            s.model() == self.values()[i as int],
    {
        MultiPolygon::new_borrowed(
            &self.coords,
            &self.geom_offsets,
            &self.polygon_offsets,
            &self.ring_offsets,
            i,
        )
    }

    /// The scalar at `i`, or `None` where the element is absent.
    pub fn get(&self, i: usize) -> (s: Option<MultiPolygon<'_>>)
        requires
            self.wf(),
            i < self@.len(),
        ensures
            s is Some == (self@[i as int] is Some),
            s matches Some(scalar) ==> scalar.wf() && Some(scalar.model()) == self@[i as int],
    {
        if self.is_valid(i) {
            Some(self.value(i))
        } else {
            None
        }
    }

    /// The `length` elements that start at `offset`, sharing the buffers of this
    /// array.
    pub fn slice(&self, offset: usize, length: usize) -> (a: MultiPolygonArray)
        requires
            self.wf(),
            offset + length <= self@.len(),
        ensures
            a.wf(),
            a.values() == self.values().subrange(offset as int, offset + length),
            a.validity_bits() == self.validity_bits().subrange(offset as int, offset + length),
            a@ == self@.subrange(offset as int, offset + length),
            a.spec_coords() == self.spec_coords(),
            a.spec_ring_offsets() == self.spec_ring_offsets(),
            a.spec_polygon_offsets() == self.spec_polygon_offsets(),
            a.spec_geom_offsets() == window(self.spec_geom_offsets(), offset as int, length as int),
            a.has_bitmap() <==> has_null(a.validity_bits()),
            offset == 0 && length == self@.len() ==> a@ == self@ && a.values() == self.values(),
            a.spec_coord_type() == self.spec_coord_type(),
            a.spec_width() == self.spec_width(),
            a.spec_metadata() == self.spec_metadata(),
    {
        proof {
            lemma_window_wf(self.geom_offsets@, offset as int, length as int);
            lemma_runs_window(
                runs(runs(self.coords@, self.ring_offsets@), self.polygon_offsets@),
                self.geom_offsets@,
                offset as int,
                length as int,
            );
        }
        let geom_offsets = self.geom_offsets.slice(offset, length);
        let validity = self.validity.slice(offset, length);
        let a = MultiPolygonArray {
            coords: self.coords.duplicate(),
            geom_offsets,
            polygon_offsets: self.polygon_offsets.duplicate(),
            ring_offsets: self.ring_offsets.duplicate(),
            validity,
            metadata: self.metadata.duplicate(),
        };
        assert(a.validity_bits() =~= self.validity_bits().subrange(offset as int, offset + length));
        assert(a@ =~= self@.subrange(offset as int, offset + length));
        assert(offset == 0 && length == self@.len() ==> a@ =~= self@ && a.values() =~= self.values());
        a
    }

    /// How much room a builder needs to take these elements over: the
    /// coordinates, the rings and the polygons up to the last offset of their
    /// level, and one run per element.
    pub fn buffer_lengths(&self) -> (c: MultiPolygonCapacity)
        requires
            self.wf(),
        ensures
            c.coord_capacity == self.spec_ring_offsets().last(),
            c.ring_capacity == self.spec_polygon_offsets().last(),
            c.polygon_capacity == self.spec_geom_offsets().last(),
            c.geom_capacity == self.values().len(),
    {
        MultiPolygonCapacity::new(
            self.ring_offsets.last(),
            self.polygon_offsets.last(),
            self.geom_offsets.last(),
            self.geom_offsets.len(),
        )
    }

    /// The layout of the coordinates.
    pub fn coord_type(&self) -> (t: CoordType)
        ensures
            t == self.spec_coord_type(),
    {
        self.coords.coord_type()
    }

    /// The width of the offsets.
    pub fn width(&self) -> (w: OffsetWidth)
        ensures
            w == self.spec_width(),
    {
        self.geom_offsets.width()
    }

    /// The logical type of the array.
    pub fn data_type(&self) -> (t: GeoDataType)
        ensures
            t.spec_shape() == Some(Shape::MultiPolygon),
            t.spec_width() == self.spec_width(),
            t.spec_coord_type() == Some(self.spec_coord_type()),
    {
        GeoDataType::of(Shape::MultiPolygon, self.geom_offsets.width(), self.coords.coord_type())
    }

    /// The metadata of the array.
    pub fn metadata(&self) -> (m: &ArrayMetadata)
        ensures
            *m == self.spec_metadata(),
    {
        &self.metadata
    }

    /// A second handle on the validity of the elements.
    pub fn validity(&self) -> (v: Validity)
        requires
            self.wf(),
        ensures
            v.covers(self.values().len()),
            v.bits(self.values().len()) == self.validity_bits(),
            v.has_bitmap() == self.has_bitmap(),
    {
        self.validity.duplicate()
    }

    /// The coordinate buffer.
    pub fn coords(&self) -> (c: &CoordBuffer)
        requires
            self.wf(),
        ensures
            c.wf(),
            c@ == self.spec_coords(),
            c.spec_coord_type() == self.spec_coord_type(),
    {
        &self.coords
    }

    /// The offsets into the rings.
    pub fn polygon_offsets(&self) -> (o: &OffsetBuffer)
        requires
            self.wf(),
        ensures
            o.wf(),
            o@ == self.spec_polygon_offsets(),
    {
        &self.polygon_offsets
    }

    /// The offsets into the polygons.
    pub fn geom_offsets(&self) -> (o: &OffsetBuffer)
        requires
            self.wf(),
        ensures
            o.wf(),
            o@ == self.spec_geom_offsets(),
            o.spec_width() == self.spec_width(),
    {
        &self.geom_offsets
    }

    /// The offsets into the coordinate buffer.
    pub fn ring_offsets(&self) -> (o: &OffsetBuffer)
        requires
            self.wf(),
        ensures
            o.wf(),
            o@ == self.spec_ring_offsets(),
    {
        &self.ring_offsets
    }
}

/// A growing array of multi polygons.
pub struct MultiPolygonBuilder {
    coords: CoordBufferBuilder,
    geom_offsets: OffsetsBuilder,
    polygon_offsets: OffsetsBuilder,
    ring_offsets: OffsetsBuilder,
    validity: ValidityBuilder,
    metadata: ArrayMetadata,
}

impl MultiPolygonBuilder {
    /// Each level of offsets covers the level below exactly, all levels have the
    /// same width, and one validity bit has been appended per element.
    pub closed spec fn wf(&self) -> bool {
        &&& self.coords.wf()
        &&& level_wf(&self.ring_offsets, self.coords@.len())
        &&& level_wf(&self.polygon_offsets, run_count(self.ring_offsets@))
        &&& level_wf(&self.geom_offsets, run_count(self.polygon_offsets@))
        &&& self.ring_offsets.spec_width() == self.geom_offsets.spec_width()
        &&& self.polygon_offsets.spec_width() == self.geom_offsets.spec_width()
        &&& self.validity@.len() == run_count(self.geom_offsets@)
        &&& run_count(self.polygon_offsets@) == total_len(self.values())
        &&& run_count(self.ring_offsets@) == total_len2(self.values())
        &&& self.coords@.len() == total_len3(self.values())
    }

    /// The polygons stored for each element pushed; none for an absent one.
    pub closed spec fn values(&self) -> Seq<Seq<Seq<Seq<Coord>>>> {
        runs(
            runs(runs(self.coords@, self.ring_offsets@), self.polygon_offsets@),
            self.geom_offsets@,
        )
    }

    /// Which of the elements pushed are present.
    pub closed spec fn validity_bits(&self) -> Seq<bool> {
        self.validity@
    }

    /// The layout of the coordinates.
    pub closed spec fn spec_coord_type(&self) -> CoordType {
        self.coords.spec_coord_type()
    }

    /// The width of the offsets.
    pub closed spec fn spec_width(&self) -> OffsetWidth {
        self.geom_offsets.spec_width()
    }

    /// The metadata that the finished array will carry.
    pub closed spec fn spec_metadata(&self) -> ArrayMetadata {
        self.metadata
    }

    /// The elements pushed so far as a finished array will show them.
    pub open spec fn view(&self) -> Seq<Option<Seq<Seq<Seq<Coord>>>>> {
        masked(self.values(), self.validity_bits())
    }

    /// Whether one more element of `polygons` polygons with `rings` rings and
    /// `coords` coordinates in all can be pushed: on each level, what was pushed so
    /// far and the new together stay within what the offsets can hold.
    pub open spec fn fits(&self, polygons: nat, rings: nat, coords: nat) -> bool {
        &&& total_len(self.values()) + polygons <= self.spec_width().limit()
        &&& total_len2(self.values()) + rings <= self.spec_width().limit()
        &&& total_len3(self.values()) + coords <= self.spec_width().limit()
    }

    /// A builder holds as many values as validity bits.
    pub proof fn lemma_lengths(&self)
        requires
            self.wf(),
        ensures
            self.values().len() == self.validity_bits().len(),
    {
    }

    /// What was pushed so far stays, on each level, within what the offsets can
    /// hold.
    pub proof fn lemma_within_limit(&self)
        requires
            self.wf(),
        ensures
            total_len(self.values()) <= self.spec_width().limit(),
            total_len2(self.values()) <= self.spec_width().limit(),
            total_len3(self.values()) <= self.spec_width().limit(),
    {
    }

    /// An empty builder with room for `capacity`.
    pub fn with_capacity_and_options(
        width: OffsetWidth,
        capacity: MultiPolygonCapacity,
        coord_type: CoordType,
        metadata: ArrayMetadata,
    ) -> (b: MultiPolygonBuilder)
        ensures
            b.wf(),
            b.values() == Seq::<Seq<Seq<Seq<Coord>>>>::empty(),
            b.validity_bits() == Seq::<bool>::empty(),
            b.spec_coord_type() == coord_type,
            b.spec_width() == width,
            b.spec_metadata() == metadata,
    {
        let b = MultiPolygonBuilder {
            coords: CoordBufferBuilder::with_capacity(coord_type, capacity.coord_capacity),
            geom_offsets: OffsetsBuilder::with_capacity(width, capacity.geom_capacity),
            polygon_offsets: OffsetsBuilder::with_capacity(width, capacity.polygon_capacity),
            ring_offsets: OffsetsBuilder::with_capacity(width, capacity.ring_capacity),
            validity: ValidityBuilder::with_capacity(capacity.geom_capacity),
            metadata,
        };
        assert(b.values() =~= Seq::<Seq<Seq<Seq<Coord>>>>::empty());
        b
    }

    /// An empty builder with interleaved coordinates and no metadata.
    pub fn new(width: OffsetWidth) -> (b: MultiPolygonBuilder)
        ensures
            b.wf(),
            b.values() == Seq::<Seq<Seq<Seq<Coord>>>>::empty(),
            b.validity_bits() == Seq::<bool>::empty(),
            b.spec_coord_type() == CoordType::Interleaved,
            b.spec_width() == width,
    {
        MultiPolygonBuilder::with_capacity_and_options(
            width,
            MultiPolygonCapacity::new_empty(),
            CoordType::Interleaved,
            ArrayMetadata::new(),
        )
    }

    /// The layout of the coordinates.
    pub fn coord_type(&self) -> (t: CoordType)
        ensures
            t == self.spec_coord_type(),
    {
        self.coords.coord_type()
    }

    /// The width of the offsets.
    pub fn width(&self) -> (w: OffsetWidth)
        ensures
            w == self.spec_width(),
    {
        self.geom_offsets.width()
    }

    /// Makes room for `additional` more.
    pub fn reserve(&mut self, additional: MultiPolygonCapacity)
        ensures
            final(self).wf() == old(self).wf(),
            final(self).values() == old(self).values(),
            final(self).validity_bits() == old(self).validity_bits(),
            final(self).spec_coord_type() == old(self).spec_coord_type(),
            final(self).spec_width() == old(self).spec_width(),
            final(self).spec_metadata() == old(self).spec_metadata(),
    {
        self.coords.reserve(additional.coord_capacity);
        self.ring_offsets.reserve(additional.ring_capacity);
        self.polygon_offsets.reserve(additional.polygon_capacity);
        self.geom_offsets.reserve(additional.geom_capacity);
    }

    /// How much the builder holds: the coordinates, the rings, the polygons and
    /// the elements pushed so far.
    pub fn buffer_lengths(&self) -> (c: MultiPolygonCapacity)
        requires
            self.wf(),
        ensures
            c.coord_capacity == total_len3(self.values()),
            c.ring_capacity == total_len2(self.values()),
            c.polygon_capacity == total_len(self.values()),
            c.geom_capacity == self.values().len(),
    {
        MultiPolygonCapacity::new(
            self.coords.len(),
            self.ring_offsets.len(),
            self.polygon_offsets.len(),
            self.geom_offsets.len(),
        )
    }

    /// The number of elements pushed so far.
    pub fn len(&self) -> (n: usize)
        requires
            self.wf(),
        ensures
            n == self.values().len(),
            n == self.validity_bits().len(),
            n < usize::MAX,
    {
        self.geom_offsets.len()
    }

    /// Appends an absent element: an empty run and an unset validity bit. Neither
    /// the coordinate buffer nor the offsets below grow.
    pub fn push_null(&mut self)
        requires
            old(self).wf(),
        ensures
            final(self).wf(),
            final(self).values() == old(self).values().push(Seq::<Seq<Seq<Coord>>>::empty()),
            final(self).validity_bits() == old(self).validity_bits().push(false),
            final(self).spec_coord_type() == old(self).spec_coord_type(),
            final(self).spec_width() == old(self).spec_width(),
            final(self).spec_metadata() == old(self).spec_metadata(),
    {
        let n = self.geom_offsets.len();
        let pushed = self.geom_offsets.try_push_usize(0);
        self.validity.append(false);
        proof {
            let parts = runs(
                runs(old(self).coords@, old(self).ring_offsets@),
                old(self).polygon_offsets@,
            );
            lemma_close_run(parts, Seq::<Seq<Seq<Coord>>>::empty(), old(self).geom_offsets@);
            assert(parts + Seq::<Seq<Seq<Coord>>>::empty() =~= parts);
            assert(self.values().drop_last() =~= old(self).values());
        }
    }

    /// Appends one element: the multi polygon `value`, or an absent element for
    /// `None`. Where its polygons, its rings or its coordinates no longer fit the
    /// offsets' width the push fails with [`GeoArrowError::IndexOverflow`] and
    /// changes nothing.
    #[verifier::rlimit(40)]
    pub fn push_multi_polygon<M: MultiPolygonTrait>(&mut self, value: Option<&M>) -> (r: Result<
        (),
        GeoArrowError,
    >)
        requires
            old(self).wf(),
            value matches Some(polygons) ==> polygons.wf(),
        ensures
            final(self).spec_coord_type() == old(self).spec_coord_type(),
            final(self).spec_width() == old(self).spec_width(),
            final(self).spec_metadata() == old(self).spec_metadata(),
            final(self).wf(),
            match value {
                Some(polygons) => if old(self).fits(
                    polygons.model().len(),
                    total_len(polygons.model()),
                    total_len2(polygons.model()),
                ) {
                    &&& r is Ok
                    &&& final(self).values() == old(self).values().push(polygons.model())
                    &&& final(self).validity_bits() == old(self).validity_bits().push(true)
                } else {
                    &&& r == Err::<(), GeoArrowError>(GeoArrowError::IndexOverflow)
                    &&& *final(self) == *old(self)
                },
                None => {
                    &&& r is Ok
                    &&& final(self).values() == old(self).values().push(
                        Seq::<Seq<Seq<Coord>>>::empty(),
                    )
                    &&& final(self).validity_bits() == old(self).validity_bits().push(false)
                },
            },
    {
        match value {
            Some(polygons) => {
                let n = self.geom_offsets.len();
                let parts = polygons.num_polygons();
                let fits = match multi_polygon_counts(polygons) {
                    Some((rings, coords)) => self.ring_offsets.fits(coords)
                        && self.polygon_offsets.fits(rings) && self.geom_offsets.fits(parts),
                    None => false,
                };
                if !fits {
                    return Err(GeoArrowError::IndexOverflow);
                }
                push_multi_polygon_run(
                    &mut self.coords,
                    &mut self.ring_offsets,
                    &mut self.polygon_offsets,
                    &mut self.geom_offsets,
                    polygons,
                );
                self.validity.append(true);
                proof {
                    let before = old(self).values();
                    let m = polygons.model();
                    assert(self.values() == before.push(m));
                    assert(self.values().drop_last() =~= before);
                    assert(self.values().last() == m);
                    assert(total_len(self.values()) == total_len(before) + m.len());
                    assert(total_len2(self.values()) == total_len2(before) + total_len(m));
                    assert(total_len3(self.values()) == total_len3(before) + total_len2(m));
                    assert(run_count(self.geom_offsets@) == run_count(old(self).geom_offsets@) + 1);
                }
                Ok(())
            },
            None => {
                self.push_null();
                Ok(())
            },
        }
    }

    /// Appends one element: the polygon `value` as a multi polygon of one polygon,
    /// or an absent element for `None`. Where it no longer fits the offsets' width
    /// the push fails with [`GeoArrowError::IndexOverflow`] and changes nothing.
    #[verifier::rlimit(40)]
    pub fn push_polygon<P: PolygonTrait>(&mut self, value: Option<&P>) -> (r: Result<
        (),
        GeoArrowError,
    >)
        requires
            old(self).wf(),
            value matches Some(polygon) ==> polygon.wf(),
        ensures
            final(self).spec_coord_type() == old(self).spec_coord_type(),
            final(self).spec_width() == old(self).spec_width(),
            final(self).spec_metadata() == old(self).spec_metadata(),
            final(self).wf(),
            match value {
                Some(polygon) => if old(self).fits(
                    1,
                    polygon.model().len(),
                    total_len(polygon.model()),
                ) {
                    &&& r is Ok
                    &&& final(self).values() == old(self).values().push(seq![polygon.model()])
                    &&& final(self).validity_bits() == old(self).validity_bits().push(true)
                } else {
                    &&& r == Err::<(), GeoArrowError>(GeoArrowError::IndexOverflow)
                    &&& *final(self) == *old(self)
                },
                None => {
                    &&& r is Ok
                    &&& final(self).values() == old(self).values().push(
                        Seq::<Seq<Seq<Coord>>>::empty(),
                    )
                    &&& final(self).validity_bits() == old(self).validity_bits().push(false)
                },
            },
    {
        match value {
            Some(polygon) => {
                let n = self.geom_offsets.len();
                let rings = polygon_num_rings(polygon);
                let fits = match polygon_coord_count(polygon) {
                    Some(coords) => self.ring_offsets.fits(coords) && self.polygon_offsets.fits(
                        rings,
                    ) && self.geom_offsets.fits(1),
                    None => false,
                };
                if !fits {
                    return Err(GeoArrowError::IndexOverflow);
                }
                push_polygon_run(
                    &mut self.coords,
                    &mut self.ring_offsets,
                    &mut self.polygon_offsets,
                    polygon,
                );
                let pushed = self.geom_offsets.try_push_usize(1);
                self.validity.append(true);
                proof {
                    let parts = runs(
                        runs(old(self).coords@, old(self).ring_offsets@),
                        old(self).polygon_offsets@,
                    );
                    lemma_close_run(parts, seq![polygon.model()], old(self).geom_offsets@);
                    assert(parts + seq![polygon.model()] =~= parts.push(polygon.model()));
                    assert(self.values().drop_last() =~= old(self).values());
                    lemma_total_len_one(polygon.model());
                    lemma_total_len2_one(polygon.model());
                    assert(runs(self.coords@, self.ring_offsets@).len() == runs(
                        old(self).coords@,
                        old(self).ring_offsets@,
                    ).len() + polygon.model().len());
                }
                Ok(())
            },
            None => {
                self.push_null();
                Ok(())
            },
        }
    }


    /// The elements pushed, as an immutable array. On each level its offsets start
    /// at zero and end at the number of items pushed on the level below; it holds a
    /// validity bitmap only where some element is absent.
    pub fn finish(self) -> (a: MultiPolygonArray)
        requires
            self.wf(),
        ensures
            a.wf(),
            a.values() == self.values(),
            a.validity_bits() == self.validity_bits(),
            a@ == self.view(),
            a.compact(),
            covers_exactly(a.spec_ring_offsets(), a.spec_coords().len()),
            covers_exactly(a.spec_polygon_offsets(), run_count(a.spec_ring_offsets())),
            covers_exactly(a.spec_geom_offsets(), run_count(a.spec_polygon_offsets())),
            run_count(a.spec_polygon_offsets()) == total_len(self.values()),
            run_count(a.spec_ring_offsets()) == total_len2(self.values()),
            a.spec_coords().len() == total_len3(self.values()),
            a.spec_coord_type() == self.spec_coord_type(),
            a.spec_width() == self.spec_width(),
            a.spec_metadata() == self.spec_metadata(),
    {
        let coords = self.coords.finish();
        let geom_offsets = self.geom_offsets.finish();
        let polygon_offsets = self.polygon_offsets.finish();
        let ring_offsets = self.ring_offsets.finish();
        let validity = self.validity.finish();
        MultiPolygonArray::new(coords, geom_offsets, polygon_offsets, ring_offsets, validity, self.metadata)
    }
}

/// What `geoms` stand for, element by element: the value of a present element,
/// nothing for an absent one.
pub open spec fn multi_polygon_models<G: MultiPolygonTrait>(geoms: Seq<Option<G>>) -> Seq<Seq<Seq<Seq<Coord>>>> {
    Seq::new(
        geoms.len(),
        |i: int|
            match geoms[i] {
                Some(g) => g.model(),
                None => Seq::empty(),
            },
    )
}

/// Which of `geoms` are present.
pub open spec fn multi_polygon_presence<G: MultiPolygonTrait>(geoms: Seq<Option<G>>) -> Seq<bool> {
    Seq::new(geoms.len(), |i: int| geoms[i] is Some)
}

/// Every present element of `geoms` can be read.
pub open spec fn multi_polygons_wf<G: MultiPolygonTrait>(geoms: Seq<Option<G>>) -> bool {
    forall|i: int| 0 <= i < geoms.len() ==> (#[trigger] geoms[i] matches Some(g) ==> g.wf())
}

impl MultiPolygonCapacity {
    /// The first pass over the input: how much room `geoms` need, or `None`
    /// where the machine cannot count that much.
    pub fn from_multi_polygons<G: MultiPolygonTrait>(geoms: &[Option<G>]) -> (r: Option<MultiPolygonCapacity>)
        requires
            multi_polygons_wf(geoms@),
        ensures
            (total_len3(multi_polygon_models(geoms@)) <= usize::MAX && total_len2(multi_polygon_models(geoms@)) <= usize::MAX && total_len(multi_polygon_models(geoms@)) <= usize::MAX) ==> {
                &&& r matches Some(c)
                &&& c.coord_capacity == total_len3(multi_polygon_models(geoms@))
                &&& c.ring_capacity == total_len2(multi_polygon_models(geoms@))
                &&& c.polygon_capacity == total_len(multi_polygon_models(geoms@))
                &&& c.geom_capacity == geoms@.len()
            },
            !(total_len3(multi_polygon_models(geoms@)) <= usize::MAX && total_len2(multi_polygon_models(geoms@)) <= usize::MAX && total_len(multi_polygon_models(geoms@)) <= usize::MAX) ==> r is None,
    {
        let ghost target = multi_polygon_models(geoms@);
        let n = geoms.len();
        let mut coords: usize = 0;
        let mut rings: usize = 0;
        let mut polygons: usize = 0;
        let mut i: usize = 0;
        proof {
            assert(target.take(0) =~= Seq::empty());
            lemma_total_len_empty::<Coord>();
        }
        while i < n
            invariant
                multi_polygons_wf(geoms@),
                n == geoms@.len(),
                target == multi_polygon_models(geoms@),
                i <= n,
                coords == total_len3(target.take(i as int)),
                rings == total_len2(target.take(i as int)),
                polygons == total_len(target.take(i as int)),
            decreases n - i,
        {
            proof {
                lemma_total_len3_step(target, i as int);
                lemma_total_len3_prefix(target, i + 1);
                lemma_total_len2_step(target, i as int);
                lemma_total_len2_prefix(target, i + 1);
                lemma_total_len_step(target, i as int);
                lemma_total_len_prefix(target, i + 1);
                lemma_total_len_empty::<Coord>();
            }
            match &geoms[i] {
                Some(g) => {
                    let (more_rings, more_coords) = match multi_polygon_counts(g) {
                        Some(m) => m,
                        None => {
                            return None;
                        },
                    };
                    coords = match coords.checked_add(more_coords) {
                        Some(sum) => sum,
                        None => {
                            return None;
                        },
                    };
                    rings = match rings.checked_add(more_rings) {
                        Some(sum) => sum,
                        None => {
                            return None;
                        },
                    };
                    polygons = match polygons.checked_add(g.num_polygons()) {
                        Some(sum) => sum,
                        None => {
                            return None;
                        },
                    };
                },
                None => {},
            }
            i += 1;
        }
        proof {
            assert(target.take(n as int) =~= target);
        }
        Some(MultiPolygonCapacity::new(coords, rings, polygons, n))
    }
}

impl MultiPolygonBuilder {
    /// A builder filled with `geoms`, in two passes: the first counts what the
    /// buffers must hold, the second fills them. Where the elements do not fit
    /// offsets of `width` the result is [`GeoArrowError::IndexOverflow`].
    pub fn from_nullable_multi_polygons<G: MultiPolygonTrait>(
        geoms: &[Option<G>],
        width: OffsetWidth,
        coord_type: CoordType,
        metadata: ArrayMetadata,
    ) -> (r: Result<MultiPolygonBuilder, GeoArrowError>)
        requires
            multi_polygons_wf(geoms@),
        ensures
            ({
                let target = multi_polygon_models(geoms@);
                if total_len(target) <= width.limit() && total_len2(target) <= width.limit()
                && total_len3(target) <= width.limit() {
                    &&& r matches Ok(b)
                    &&& b.wf()
                    &&& b.values() == target
                    &&& b.validity_bits() == multi_polygon_presence(geoms@)
                    &&& b.spec_width() == width
                    &&& b.spec_coord_type() == coord_type
                    &&& b.spec_metadata() == metadata
                } else {
                    r == Err::<MultiPolygonBuilder, GeoArrowError>(GeoArrowError::IndexOverflow)
                }
            }),
    {
        let ghost target = multi_polygon_models(geoms@);
        let ghost bits = multi_polygon_presence(geoms@);
        let capacity = match MultiPolygonCapacity::from_multi_polygons(geoms) {
            Some(c) => c,
            None => {
                return Err(GeoArrowError::IndexOverflow);
            },
        };
        let mut builder = MultiPolygonBuilder::with_capacity_and_options(
            width,
            capacity,
            coord_type,
            metadata,
        );
        let n = geoms.len();
        let mut i: usize = 0;
        proof {
            assert(target.take(0) =~= Seq::<Seq<Seq<Seq<Coord>>>>::empty());
            assert(bits.take(0) =~= Seq::<bool>::empty());
        }
        while i < n
            invariant
                multi_polygons_wf(geoms@),
                n == geoms@.len(),
                target == multi_polygon_models(geoms@),
                bits == multi_polygon_presence(geoms@),
                i <= n,
                builder.wf(),
                builder.values() == target.take(i as int),
                builder.validity_bits() == bits.take(i as int),
                builder.spec_width() == width,
                builder.spec_coord_type() == coord_type,
                builder.spec_metadata() == metadata,
            decreases n - i,
        {
            proof {
                assert(target.take(i + 1) =~= target.take(i as int).push(target[i as int]));
                assert(bits.take(i + 1) =~= bits.take(i as int).push(bits[i as int]));
                lemma_total_len_step(target, i as int);
                lemma_total_len_prefix(target, i + 1);
                lemma_total_len_empty::<Coord>();
                lemma_total_len2_step(target, i as int);
                lemma_total_len2_prefix(target, i + 1);
                lemma_total_len3_step(target, i as int);
                lemma_total_len3_prefix(target, i + 1);
            }
            let pushed = match &geoms[i] {
                Some(g) => builder.push_multi_polygon(Some(g)),
                None => builder.push_multi_polygon::<G>(None),
            };
            match pushed {
                Ok(()) => {},
                Err(e) => {
                    return Err(e);
                },
            }
            i += 1;
        }
        proof {
            assert(target.take(n as int) =~= target);
            assert(bits.take(n as int) =~= bits);
            builder.lemma_within_limit();
        }
        Ok(builder)
    }
}

} // verus!
