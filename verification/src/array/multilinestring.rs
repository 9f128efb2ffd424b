//! Arrays of multi line strings and their builder.

use vstd::prelude::*;
use crate::array::metadata::ArrayMetadata;
use crate::array::util::{lemma_close_run, lemma_total_len_one, level_wf, multi_line_string_coord_count,
    push_line_string_run, push_multi_line_string_run, total_len, total_len2};
use crate::array::util::{lemma_runs_total, lemma_runs_total2};
use crate::array::util::{
    lemma_total_len2_prefix, lemma_total_len2_step, lemma_total_len_empty,
    lemma_total_len_prefix, lemma_total_len_step,
};
use crate::coord::{Coord, CoordBuffer, CoordBufferBuilder, CoordType};
use crate::datatypes::{GeoDataType, Shape};
use crate::error::GeoArrowError;
use crate::geo_traits::{LineStringTrait, MultiLineStringTrait};
use crate::offsets::{
    OffsetBuffer, OffsetWidth, OffsetsBuilder, covers, covers_exactly, lemma_runs_window,
    lemma_window_wf, run_count, runs, window,
};
use crate::scalar::multilinestring::MultiLineString;
use crate::validity::{Validity, ValidityBuilder, masked, has_null};
use crate::array::util::{flat, lemma_flat_runs, lemma_offsets_are_totals};

verus! {

/// How much room the buffers of an array of multi line strings need.
#[derive(Clone, Copy, Debug, PartialEq, Eq, Structural)]
pub struct MultiLineStringCapacity {
    /// The number of coordinates.
    pub coord_capacity: usize,
    /// The number of line strings.
    pub ring_capacity: usize,
    /// The number of multi line strings.
    pub geom_capacity: usize,
}

impl MultiLineStringCapacity {
    /// Room for `coord_capacity` coordinates in `ring_capacity` line strings in
    /// `geom_capacity` multi line strings.
    pub fn new(coord_capacity: usize, ring_capacity: usize, geom_capacity: usize) -> (c:
        MultiLineStringCapacity)
        ensures
            c.coord_capacity == coord_capacity,
            c.ring_capacity == ring_capacity,
            c.geom_capacity == geom_capacity,
    {
        MultiLineStringCapacity { coord_capacity, ring_capacity, geom_capacity }
    }

    /// No room at all.
    pub fn new_empty() -> (c: MultiLineStringCapacity)
        ensures
            c.coord_capacity == 0,
            c.ring_capacity == 0,
            c.geom_capacity == 0,
    {
        MultiLineStringCapacity { coord_capacity: 0, ring_capacity: 0, geom_capacity: 0 }
    }
}

/// An immutable array of multi line strings: a coordinate buffer, offsets that cut it into
/// line strings, offsets that cut the line strings into one run per element, and an optional
/// validity bitmap.
pub struct MultiLineStringArray {
    coords: CoordBuffer,
    geom_offsets: OffsetBuffer,
    ring_offsets: OffsetBuffer,
    validity: Validity,
    metadata: ArrayMetadata,
}

impl View for MultiLineStringArray {
    type V = Seq<Option<Seq<Seq<Coord>>>>;

    open spec fn view(&self) -> Seq<Option<Seq<Seq<Coord>>>> {
        masked(self.values(), self.validity_bits())
    }
}

impl MultiLineStringArray {
    /// The buffers are well formed, each level of offsets stays inside the level
    /// below, and the validity, if held, has one bit per element.
    pub closed spec fn wf(&self) -> bool {
        &&& self.coords.wf()
        &&& self.geom_offsets.wf()
        &&& self.ring_offsets.wf()
        &&& covers(self.ring_offsets@, self.coords@.len())
        &&& covers(self.geom_offsets@, run_count(self.ring_offsets@))
        &&& self.validity.covers(run_count(self.geom_offsets@))
    }

    /// The line strings stored for each element, absent elements included.
    pub closed spec fn values(&self) -> Seq<Seq<Seq<Coord>>> {
        runs(runs(self.coords@, self.ring_offsets@), self.geom_offsets@)
    }

    /// Which elements are present.
    pub closed spec fn validity_bits(&self) -> Seq<bool> {
        self.validity.bits(run_count(self.geom_offsets@))
    }

    /// The coordinates of the coordinate buffer.
    pub closed spec fn spec_coords(&self) -> Seq<Coord> {
        self.coords@
    }

    /// The offsets into the coordinate buffer, one run per part.
    pub closed spec fn spec_ring_offsets(&self) -> Seq<int> {
        self.ring_offsets@
    }

    /// The offsets into the line strings, one run per element.
    pub closed spec fn spec_geom_offsets(&self) -> Seq<int> {
        self.geom_offsets@
    }

    /// Whether a validity bitmap is held.
    pub closed spec fn has_bitmap(&self) -> bool {
        self.validity.has_bitmap()
    }

    /// The array holds its values and nothing beside them: every level of offsets starts at zero and ends where the level below ends, and
    /// a validity bitmap is held only where some element is absent.
    pub open spec fn compact(&self) -> bool {
        &&& covers_exactly(self.spec_ring_offsets(), self.spec_coords().len())
        &&& covers_exactly(self.spec_geom_offsets(), run_count(self.spec_ring_offsets()))
        &&& self.has_bitmap() <==> has_null(self.validity_bits())
    }

    /// The layout of the coordinates.
    pub closed spec fn spec_coord_type(&self) -> CoordType {
        self.coords.spec_coord_type()
    }

    /// The width of the offsets.
    pub closed spec fn spec_width(&self) -> OffsetWidth {
        self.geom_offsets.spec_width()
    }

    /// The metadata of the array.
    pub closed spec fn spec_metadata(&self) -> ArrayMetadata {
        self.metadata
    }

    /// What the buffers mean: the values are the runs of the runs of the
    /// coordinates.
    pub proof fn lemma_values(&self)
        ensures
            self.values() == runs(
                runs(self.spec_coords(), self.spec_ring_offsets()),
                self.spec_geom_offsets(),
            ),
            self.wf() ==> covers(self.spec_ring_offsets(), self.spec_coords().len()),
            self.wf() ==> covers(self.spec_geom_offsets(), run_count(self.spec_ring_offsets())),
            self.values().len() == self.validity_bits().len(),
    {
    }

    /// Where the array holds nothing beside its values, the values fix the
    /// buffers: every offset of the upper level is the number of parts of the
    /// elements before it, every offset of the lower level is the number of
    /// coordinates of the parts before it, and the buffers hold as many parts and
    /// coordinates as the elements together.
    pub proof fn lemma_compact(&self, k: int, j: int)
        requires
            self.wf(),
            self.compact(),
            0 <= k <= self.values().len(),
            0 <= j <= total_len(self.values()),
        ensures
            self.spec_geom_offsets().len() == self.values().len() + 1,
            self.spec_geom_offsets()[k] == total_len(self.values().take(k)),
            self.spec_ring_offsets().len() == total_len(self.values()) + 1,
            self.spec_ring_offsets()[j] == total_len(flat(self.values()).take(j)),
            self.spec_coords().len() == total_len2(self.values()),
    {
        let parts = runs(self.spec_coords(), self.spec_ring_offsets());
        lemma_offsets_are_totals(parts, self.spec_geom_offsets(), k);
        lemma_flat_runs(parts, self.spec_geom_offsets());
        lemma_offsets_are_totals(self.spec_coords(), self.spec_ring_offsets(), j);
        lemma_runs_total2(parts, self.spec_geom_offsets());
        assert(parts.subrange(0, parts.len() as int) =~= parts);
    }

    /// An array from its parts.
    pub fn new(
        coords: CoordBuffer,
        geom_offsets: OffsetBuffer,
        ring_offsets: OffsetBuffer,
        validity: Validity,
        metadata: ArrayMetadata,
    ) -> (a: MultiLineStringArray)
        requires
            MultiLineStringArray::parts_fit(coords, geom_offsets, ring_offsets, validity),
        ensures
            a.wf(),
            a.values() == runs(runs(coords@, ring_offsets@), geom_offsets@),
            a.validity_bits() == validity.bits(run_count(geom_offsets@)),
            a.has_bitmap() == validity.has_bitmap(),
            a.spec_coords() == coords@,
            a.spec_ring_offsets() == ring_offsets@,
            a.spec_geom_offsets() == geom_offsets@,
            a.spec_coord_type() == coords.spec_coord_type(),
            a.spec_width() == geom_offsets.spec_width(),
            a.spec_metadata() == metadata,
    {
        MultiLineStringArray { coords, geom_offsets, ring_offsets, validity, metadata }
    }

    /// An array from its parts, or [`GeoArrowError::ShapeMismatch`] where a
    /// buffer is malformed, offsets point beyond the level below, or `validity`
    /// holds a bitmap of another length than the offsets delimit runs.
    pub fn try_new(
        coords: CoordBuffer,
        geom_offsets: OffsetBuffer,
        ring_offsets: OffsetBuffer,
        validity: Validity,
        metadata: ArrayMetadata,
    ) -> (r: Result<MultiLineStringArray, GeoArrowError>)
        ensures
            MultiLineStringArray::parts_fit(coords, geom_offsets, ring_offsets, validity) ==> r is Ok,
            !MultiLineStringArray::parts_fit(coords, geom_offsets, ring_offsets, validity) ==> r == Err::<
                MultiLineStringArray,
                GeoArrowError,
            >(GeoArrowError::ShapeMismatch),
            r matches Ok(a) ==> {
                &&& a.wf()
                &&& a.values() == runs(runs(coords@, ring_offsets@), geom_offsets@)
                &&& a.validity_bits() == validity.bits(run_count(geom_offsets@))
                &&& a.has_bitmap() == validity.has_bitmap()
                &&& a.spec_coord_type() == coords.spec_coord_type()
                &&& a.spec_width() == geom_offsets.spec_width()
                &&& a.spec_metadata() == metadata
            },
    {
        if !coords.check() || !geom_offsets.check() || !ring_offsets.check() {
            return Err(GeoArrowError::ShapeMismatch);
        }
        if ring_offsets.last() > coords.len() || geom_offsets.last() > ring_offsets.len() {
            return Err(GeoArrowError::ShapeMismatch);
        }
        match validity.bitmap_len() {
            Some(n) => {
                if n != geom_offsets.len() {
                    return Err(GeoArrowError::ShapeMismatch);
                }
            },
            None => {},
        }
        Ok(MultiLineStringArray::new(coords, geom_offsets, ring_offsets, validity, metadata))
    }

    /// The parts can make an array.
    pub open spec fn parts_fit(
        coords: CoordBuffer,
        geom_offsets: OffsetBuffer,
        ring_offsets: OffsetBuffer,
        validity: Validity,
    ) -> bool {
        &&& coords.wf()
        &&& geom_offsets.wf()
        &&& ring_offsets.wf()
        &&& covers(ring_offsets@, coords@.len())
        &&& covers(geom_offsets@, run_count(ring_offsets@))
        &&& validity.covers(run_count(geom_offsets@))
    }

    /// The number of elements.
    pub fn len(&self) -> (n: usize)
        requires
            self.wf(),
        ensures
            n == self@.len(),
            n == self.values().len(),
            n == self.validity_bits().len(),
            n == run_count(self.spec_geom_offsets()),
    {
        self.geom_offsets.len()
    }

    /// Whether element `i` is present.
    pub fn is_valid(&self, i: usize) -> (b: bool)
        requires
            self.wf(),
            i < self@.len(),
        ensures
            b == self.validity_bits()[i as int],
            b == (self@[i as int] is Some),
    {
        self.validity.is_valid(i)
    }

    /// Whether element `i` is absent.
    pub fn is_null(&self, i: usize) -> (b: bool)
        requires
            self.wf(),
            i < self@.len(),
        ensures
            b == !self.validity_bits()[i as int],
            b == (self@[i as int] is None),
    {
        !self.validity.is_valid(i)
    }

    /// The scalar at `i`, whether or not the element is present.
    pub fn value(&self, i: usize) -> (s: MultiLineString<'_>)
        requires
            self.wf(),
            i < self@.len(),
        ensures
            s.wf(),
            s.model() == self.values()[i as int],
    {
        MultiLineString::new(&self.coords, &self.geom_offsets, &self.ring_offsets, i)
    }

    /// The scalar at `i`, or `None` where the element is absent.
    pub fn get(&self, i: usize) -> (s: Option<MultiLineString<'_>>)
        requires
            self.wf(),
            i < self@.len(),
        ensures
            s is Some == (self@[i as int] is Some),
            s matches Some(scalar) ==> scalar.wf() && Some(scalar.model()) == self@[i as int],
    {
        if self.is_valid(i) {
            Some(self.value(i))
        } else {
            None
        }
    }

    /// The `length` elements that start at `offset`, sharing the buffers of this
    /// array.
    pub fn slice(&self, offset: usize, length: usize) -> (a: MultiLineStringArray)
        requires
            self.wf(),
            offset + length <= self@.len(),
        ensures
            a.wf(),
            a.values() == self.values().subrange(offset as int, offset + length),
            a.validity_bits() == self.validity_bits().subrange(offset as int, offset + length),
            a@ == self@.subrange(offset as int, offset + length),
            a.spec_coords() == self.spec_coords(),
            a.spec_ring_offsets() == self.spec_ring_offsets(),
            a.spec_geom_offsets() == window(self.spec_geom_offsets(), offset as int, length as int),
            a.has_bitmap() <==> has_null(a.validity_bits()),
            offset == 0 && length == self@.len() ==> a@ == self@ && a.values() == self.values(),
            a.spec_coord_type() == self.spec_coord_type(),
            a.spec_width() == self.spec_width(),
            a.spec_metadata() == self.spec_metadata(),
    {
        proof {
            lemma_window_wf(self.geom_offsets@, offset as int, length as int);
            lemma_runs_window(
                runs(self.coords@, self.ring_offsets@),
                self.geom_offsets@,
                offset as int,
                length as int,
            );
        }
        let geom_offsets = self.geom_offsets.slice(offset, length);
        let validity = self.validity.slice(offset, length);
        let a = MultiLineStringArray {
            coords: self.coords.duplicate(),
            geom_offsets,
            ring_offsets: self.ring_offsets.duplicate(),
            validity,
            metadata: self.metadata.duplicate(),
        };
        assert(a.validity_bits() =~= self.validity_bits().subrange(offset as int, offset + length));
        assert(a@ =~= self@.subrange(offset as int, offset + length));
        assert(offset == 0 && length == self@.len() ==> a@ =~= self@ && a.values() =~= self.values());
        a
    }

    /// How much room a builder needs to take these elements over: the
    /// coordinates and the line strings up to the last offset of their level, and one run
    /// per element.
    pub fn buffer_lengths(&self) -> (c: MultiLineStringCapacity)
        requires
            self.wf(),
        ensures
            c.coord_capacity == self.spec_ring_offsets().last(),
            c.ring_capacity == self.spec_geom_offsets().last(),
            c.geom_capacity == self.values().len(),
    {
        MultiLineStringCapacity::new(
            self.ring_offsets.last(),
            self.geom_offsets.last(),
            self.geom_offsets.len(),
        )
    }

    /// The layout of the coordinates.
    pub fn coord_type(&self) -> (t: CoordType)
        ensures
            t == self.spec_coord_type(),
    {
        self.coords.coord_type()
    }

    /// The width of the offsets.
    pub fn width(&self) -> (w: OffsetWidth)
        ensures
            w == self.spec_width(),
    {
        self.geom_offsets.width()
    }

    /// The logical type of the array.
    pub fn data_type(&self) -> (t: GeoDataType)
        ensures
            t.spec_shape() == Some(Shape::MultiLineString),
            t.spec_width() == self.spec_width(),
            t.spec_coord_type() == Some(self.spec_coord_type()),
    {
        GeoDataType::of(Shape::MultiLineString, self.geom_offsets.width(), self.coords.coord_type())
    }

    /// The metadata of the array.
    pub fn metadata(&self) -> (m: &ArrayMetadata)
        ensures
            *m == self.spec_metadata(),
    {
        &self.metadata
    }

    /// A second handle on the validity of the elements.
    pub fn validity(&self) -> (v: Validity)
        requires
            self.wf(),
        ensures
            v.covers(self.values().len()),
            v.bits(self.values().len()) == self.validity_bits(),
            v.has_bitmap() == self.has_bitmap(),
    {
        self.validity.duplicate()
    }

    /// The coordinate buffer.
    pub fn coords(&self) -> (c: &CoordBuffer)
        requires
            self.wf(),
        ensures
            c.wf(),
            c@ == self.spec_coords(),
            c.spec_coord_type() == self.spec_coord_type(),
    {
        &self.coords
    }

    /// The offsets into the line strings.
    pub fn geom_offsets(&self) -> (o: &OffsetBuffer)
        requires
            self.wf(),
        ensures
            o.wf(),
            o@ == self.spec_geom_offsets(),
            o.spec_width() == self.spec_width(),
    {
        &self.geom_offsets
    }

    /// The offsets into the coordinate buffer.
    pub fn ring_offsets(&self) -> (o: &OffsetBuffer)
        requires
            self.wf(),
        ensures
            o.wf(),
            o@ == self.spec_ring_offsets(),
    {
        &self.ring_offsets
    }
}

/// A growing array of multi line strings.
pub struct MultiLineStringBuilder {
    coords: CoordBufferBuilder,
    geom_offsets: OffsetsBuilder,
    ring_offsets: OffsetsBuilder,
    validity: ValidityBuilder,
    metadata: ArrayMetadata,
}

impl MultiLineStringBuilder {
    /// Each level of offsets covers the level below exactly, both levels have the
    /// same width, and one validity bit has been appended per element.
    pub closed spec fn wf(&self) -> bool {
        &&& self.coords.wf()
        &&& level_wf(&self.ring_offsets, self.coords@.len())
        &&& level_wf(&self.geom_offsets, run_count(self.ring_offsets@))
        &&& self.ring_offsets.spec_width() == self.geom_offsets.spec_width()
        &&& self.validity@.len() == run_count(self.geom_offsets@)
        &&& run_count(self.ring_offsets@) == total_len(self.values())
        &&& self.coords@.len() == total_len2(self.values())
    }

    /// The line strings stored for each element pushed; none for an absent one.
    pub closed spec fn values(&self) -> Seq<Seq<Seq<Coord>>> {
        runs(runs(self.coords@, self.ring_offsets@), self.geom_offsets@)
    }

    /// Which of the elements pushed are present.
    pub closed spec fn validity_bits(&self) -> Seq<bool> {
        self.validity@
    }

    /// The layout of the coordinates.
    pub closed spec fn spec_coord_type(&self) -> CoordType {
        self.coords.spec_coord_type()
    }

    /// The width of the offsets.
    pub closed spec fn spec_width(&self) -> OffsetWidth {
        self.geom_offsets.spec_width()
    }

    /// The metadata that the finished array will carry.
    pub closed spec fn spec_metadata(&self) -> ArrayMetadata {
        self.metadata
    }

    /// The elements pushed so far as a finished array will show them.
    pub open spec fn view(&self) -> Seq<Option<Seq<Seq<Coord>>>> {
        masked(self.values(), self.validity_bits())
    }

    /// Whether one more element of `parts` line strings with `coords` coordinates in all
    /// can be pushed: on each level, what was pushed so far and the new together
    /// stay within what the offsets can hold.
    pub open spec fn fits(&self, parts: nat, coords: nat) -> bool {
        &&& total_len(self.values()) + parts <= self.spec_width().limit()
        &&& total_len2(self.values()) + coords <= self.spec_width().limit()
    }

    /// A builder holds as many values as validity bits.
    pub proof fn lemma_lengths(&self)
        requires
            self.wf(),
        ensures
            self.values().len() == self.validity_bits().len(),
    {
    }

    /// What was pushed so far stays, on each level, within what the offsets can
    /// hold.
    pub proof fn lemma_within_limit(&self)
        requires
            self.wf(),
        ensures
            total_len(self.values()) <= self.spec_width().limit(),
            total_len2(self.values()) <= self.spec_width().limit(),
    {
    }

    /// An empty builder with room for `capacity`.
    pub fn with_capacity_and_options(
        width: OffsetWidth,
        capacity: MultiLineStringCapacity,
        coord_type: CoordType,
        metadata: ArrayMetadata,
    ) -> (b: MultiLineStringBuilder)
        ensures
            b.wf(),
            b.values() == Seq::<Seq<Seq<Coord>>>::empty(),
            b.validity_bits() == Seq::<bool>::empty(),
            b.spec_coord_type() == coord_type,
            b.spec_width() == width,
            b.spec_metadata() == metadata,
    {
        let b = MultiLineStringBuilder {
            coords: CoordBufferBuilder::with_capacity(coord_type, capacity.coord_capacity),
            geom_offsets: OffsetsBuilder::with_capacity(width, capacity.geom_capacity),
            ring_offsets: OffsetsBuilder::with_capacity(width, capacity.ring_capacity),
            validity: ValidityBuilder::with_capacity(capacity.geom_capacity),
            metadata,
        };
        assert(b.values() =~= Seq::<Seq<Seq<Coord>>>::empty());
        b
    }

    /// An empty builder with room for `coord_capacity` coordinates in
    /// `ring_capacity` line strings in `geom_capacity` multi line strings, interleaved coordinates and
    /// no metadata.
    pub fn with_capacities(
        width: OffsetWidth,
        coord_capacity: usize,
        geom_capacity: usize,
        ring_capacity: usize,
    ) -> (b: MultiLineStringBuilder)
        ensures
            b.wf(),
            b.values() == Seq::<Seq<Seq<Coord>>>::empty(),
            b.validity_bits() == Seq::<bool>::empty(),
            b.spec_coord_type() == CoordType::Interleaved,
            b.spec_width() == width,
    {
        MultiLineStringBuilder::with_capacity_and_options(
            width,
            MultiLineStringCapacity::new(coord_capacity, ring_capacity, geom_capacity),
            CoordType::Interleaved,
            ArrayMetadata::new(),
        )
    }

    /// A builder that goes on from the given buffers, or
    /// [`GeoArrowError::ShapeMismatch`] where they do not belong together: a buffer
    /// is out of order, the offsets of a level do not end where the level below
    /// ends, the two levels differ in width, or the validity has another length
    /// than there are elements.
    pub fn try_new(
        coords: CoordBufferBuilder,
        geom_offsets: OffsetsBuilder,
        ring_offsets: OffsetsBuilder,
        validity: ValidityBuilder,
    ) -> (r: Result<MultiLineStringBuilder, GeoArrowError>)
        ensures
            MultiLineStringBuilder::parts_fit(coords, geom_offsets, ring_offsets, validity) ==> r is Ok,
            !MultiLineStringBuilder::parts_fit(coords, geom_offsets, ring_offsets, validity) ==> r == Err::<
                MultiLineStringBuilder,
                GeoArrowError,
            >(GeoArrowError::ShapeMismatch),
            r matches Ok(b) ==> {
                &&& b.wf()
                &&& b.values() == runs(runs(coords@, ring_offsets@), geom_offsets@)
                &&& b.validity_bits() == validity@
                &&& b.spec_coord_type() == coords.spec_coord_type()
                &&& b.spec_width() == geom_offsets.spec_width()
            },
    {
        if !coords.check() || !geom_offsets.check() || !ring_offsets.check() {
            return Err(GeoArrowError::ShapeMismatch);
        }
        if ring_offsets.width() != geom_offsets.width() || ring_offsets.last() != coords.len() || geom_offsets.last()
            != ring_offsets.len() || validity.len() != geom_offsets.len() {
            return Err(GeoArrowError::ShapeMismatch);
        }
        proof {
            let parts = runs(coords@, ring_offsets@);
            lemma_runs_total(parts, geom_offsets@);
            lemma_runs_total2(parts, geom_offsets@);
            lemma_runs_total(coords@, ring_offsets@);
            assert(parts.subrange(0, parts.len() as int) =~= parts);
        }
        Ok(MultiLineStringBuilder { coords, geom_offsets, ring_offsets, validity, metadata: ArrayMetadata::new() })
    }

    /// The buffers can make a builder.
    pub open spec fn parts_fit(
        coords: CoordBufferBuilder,
        geom_offsets: OffsetsBuilder,
        ring_offsets: OffsetsBuilder,
        validity: ValidityBuilder,
    ) -> bool {
        &&& coords.wf()
        &&& level_wf(&ring_offsets, coords@.len())
        &&& level_wf(&geom_offsets, run_count(ring_offsets@))
        &&& ring_offsets.spec_width() == geom_offsets.spec_width()
        &&& validity@.len() == run_count(geom_offsets@)
    }

    /// The buffers of the builder: the coordinates, the offsets into the line strings,
    /// the offsets into the coordinates, and the validity.
    pub fn into_inner(self) -> (parts: (
        CoordBufferBuilder,
        OffsetsBuilder,
        OffsetsBuilder,
        ValidityBuilder,
    ))
        requires
            self.wf(),
        ensures
            parts.0.wf(),
            parts.1.wf(),
            parts.2.wf(),
            self.values() == runs(runs(parts.0@, parts.2@), parts.1@),
            self.validity_bits() == parts.3@,
            covers_exactly(parts.2@, parts.0@.len()),
            covers_exactly(parts.1@, run_count(parts.2@)),
    {
        (self.coords, self.geom_offsets, self.ring_offsets, self.validity)
    }

    /// An empty builder with interleaved coordinates and no metadata.
    pub fn new(width: OffsetWidth) -> (b: MultiLineStringBuilder)
        ensures
            b.wf(),
            b.values() == Seq::<Seq<Seq<Coord>>>::empty(),
            b.validity_bits() == Seq::<bool>::empty(),
            b.spec_coord_type() == CoordType::Interleaved,
            b.spec_width() == width,
    {
        MultiLineStringBuilder::with_capacity_and_options(
            width,
            MultiLineStringCapacity::new_empty(),
            CoordType::Interleaved,
            ArrayMetadata::new(),
        )
    }

    /// The layout of the coordinates.
    pub fn coord_type(&self) -> (t: CoordType)
        ensures
            t == self.spec_coord_type(),
    {
        self.coords.coord_type()
    }

    /// The width of the offsets.
    pub fn width(&self) -> (w: OffsetWidth)
        ensures
            w == self.spec_width(),
    {
        self.geom_offsets.width()
    }

    /// Makes room for `additional` more.
    pub fn reserve(&mut self, additional: MultiLineStringCapacity)
        ensures
            final(self).wf() == old(self).wf(),
            final(self).values() == old(self).values(),
            final(self).validity_bits() == old(self).validity_bits(),
            final(self).spec_coord_type() == old(self).spec_coord_type(),
            final(self).spec_width() == old(self).spec_width(),
            final(self).spec_metadata() == old(self).spec_metadata(),
    {
        self.coords.reserve(additional.coord_capacity);
        self.ring_offsets.reserve(additional.ring_capacity);
        self.geom_offsets.reserve(additional.geom_capacity);
    }

    /// How much the builder holds: the coordinates, the line strings and the
    /// elements pushed so far.
    pub fn buffer_lengths(&self) -> (c: MultiLineStringCapacity)
        requires
            self.wf(),
        ensures
            c.coord_capacity == total_len2(self.values()),
            c.ring_capacity == total_len(self.values()),
            c.geom_capacity == self.values().len(),
    {
        MultiLineStringCapacity::new(
            self.coords.len(),
            self.ring_offsets.len(),
            self.geom_offsets.len(),
        )
    }

    /// The number of elements pushed so far.
    pub fn len(&self) -> (n: usize)
        requires
            self.wf(),
        ensures
            n == self.values().len(),
            n == self.validity_bits().len(),
            n < usize::MAX,
    {
        self.geom_offsets.len()
    }

    /// Appends an absent element: an empty run and an unset validity bit. Neither
    /// the coordinate buffer nor the offsets below grow.
    pub fn push_null(&mut self)
        requires
            old(self).wf(),
        ensures
            final(self).wf(),
            final(self).values() == old(self).values().push(Seq::<Seq<Coord>>::empty()),
            final(self).validity_bits() == old(self).validity_bits().push(false),
            final(self).spec_coord_type() == old(self).spec_coord_type(),
            final(self).spec_width() == old(self).spec_width(),
            final(self).spec_metadata() == old(self).spec_metadata(),
    {
        let n = self.geom_offsets.len();
        let pushed = self.geom_offsets.try_push_usize(0);
        self.validity.append(false);
        proof {
            let parts = runs(old(self).coords@, old(self).ring_offsets@);
            lemma_close_run(parts, Seq::<Seq<Coord>>::empty(), old(self).geom_offsets@);
            assert(parts + Seq::<Seq<Coord>>::empty() =~= parts);
            assert(self.values().drop_last() =~= old(self).values());
        }
    }

    /// Appends one element: the multi line string `value`, or an absent element
    /// for `None`. Where its line strings or its coordinates no longer fit the
    /// offsets' width the push fails with [`GeoArrowError::IndexOverflow`] and
    /// changes nothing.
    #[verifier::rlimit(40)]
    pub fn push_multi_line_string<M: MultiLineStringTrait>(&mut self, value: Option<&M>) -> (r:
        Result<(), GeoArrowError>)
        requires
            old(self).wf(),
            value matches Some(lines) ==> lines.wf(),
        ensures
            final(self).spec_coord_type() == old(self).spec_coord_type(),
            final(self).spec_width() == old(self).spec_width(),
            final(self).spec_metadata() == old(self).spec_metadata(),
            final(self).wf(),
            match value {
                Some(lines) => if old(self).fits(lines.model().len(), total_len(lines.model())) {
                    &&& r is Ok
                    &&& final(self).values() == old(self).values().push(lines.model())
                    &&& final(self).validity_bits() == old(self).validity_bits().push(true)
                } else {
                    &&& r == Err::<(), GeoArrowError>(GeoArrowError::IndexOverflow)
                    &&& *final(self) == *old(self)
                },
                None => {
                    &&& r is Ok
                    &&& final(self).values() == old(self).values().push(
                        Seq::<Seq<Coord>>::empty(),
                    )
                    &&& final(self).validity_bits() == old(self).validity_bits().push(false)
                },
            },
    {
        match value {
            Some(lines) => {
                let n = self.geom_offsets.len();
                let parts = lines.num_lines();
                let fits = match multi_line_string_coord_count(lines) {
                    Some(coords) => self.ring_offsets.fits(coords) && self.geom_offsets.fits(parts),
                    None => false,
                };
                if !fits {
                    return Err(GeoArrowError::IndexOverflow);
                }
                push_multi_line_string_run(
                    &mut self.coords,
                    &mut self.ring_offsets,
                    &mut self.geom_offsets,
                    lines,
                );
                self.validity.append(true);
                proof {
                    let before = old(self).values();
                    let m = lines.model();
                    assert(self.values() == before.push(m));
                    assert(self.values().drop_last() =~= before);
                    assert(self.values().last() == m);
                    assert(total_len(self.values()) == total_len(before) + m.len());
                    assert(total_len2(self.values()) == total_len2(before) + total_len(m));
                    assert(runs(self.coords@, self.ring_offsets@).len() == runs(
                        old(self).coords@,
                        old(self).ring_offsets@,
                    ).len() + m.len());
                    assert(run_count(self.ring_offsets@) == run_count(old(self).ring_offsets@) + m.len());
                    assert(run_count(self.geom_offsets@) == run_count(old(self).geom_offsets@) + 1);
                }
                Ok(())
            },
            None => {
                self.push_null();
                Ok(())
            },
        }
    }

    /// Appends one element: the line string `value` as a multi line string of one
    /// part, or an absent element for `None`. Where it no longer fits the offsets'
    /// width the push fails with [`GeoArrowError::IndexOverflow`] and changes
    /// nothing.
    #[verifier::rlimit(40)]
    pub fn push_line_string<L: LineStringTrait>(&mut self, value: Option<&L>) -> (r: Result<
        (),
        GeoArrowError,
    >)
        requires
            old(self).wf(),
            value matches Some(line) ==> line.wf(),
        ensures
            final(self).spec_coord_type() == old(self).spec_coord_type(),
            final(self).spec_width() == old(self).spec_width(),
            final(self).spec_metadata() == old(self).spec_metadata(),
            final(self).wf(),
            match value {
                Some(line) => if old(self).fits(1, line.model().len()) {
                    &&& r is Ok
                    &&& final(self).values() == old(self).values().push(seq![line.model()])
                    &&& final(self).validity_bits() == old(self).validity_bits().push(true)
                } else {
                    &&& r == Err::<(), GeoArrowError>(GeoArrowError::IndexOverflow)
                    &&& *final(self) == *old(self)
                },
                None => {
                    &&& r is Ok
                    &&& final(self).values() == old(self).values().push(
                        Seq::<Seq<Coord>>::empty(),
                    )
                    &&& final(self).validity_bits() == old(self).validity_bits().push(false)
                },
            },
    {
        match value {
            Some(line) => {
                let n = self.geom_offsets.len();
                if !(self.ring_offsets.fits(line.num_coords()) && self.geom_offsets.fits(1)) {
                    return Err(GeoArrowError::IndexOverflow);
                }
                push_line_string_run(&mut self.coords, &mut self.ring_offsets, line);
                let pushed = self.geom_offsets.try_push_usize(1);
                self.validity.append(true);
                proof {
                    let parts = runs(old(self).coords@, old(self).ring_offsets@);
                    lemma_close_run(parts, seq![line.model()], old(self).geom_offsets@);
                    assert(parts + seq![line.model()] =~= parts.push(line.model()));
                    assert(self.values().drop_last() =~= old(self).values());
                    lemma_total_len_one(line.model());
                }
                Ok(())
            },
            None => {
                self.push_null();
                Ok(())
            },
        }
    }


    /// The elements pushed, as an immutable array. On each level its offsets start
    /// at zero and end at the number of items pushed on the level below; it holds a
    /// validity bitmap only where some element is absent.
    pub fn finish(self) -> (a: MultiLineStringArray)
        requires
            self.wf(),
        ensures
            a.wf(),
            a.values() == self.values(),
            a.validity_bits() == self.validity_bits(),
            a@ == self.view(),
            a.compact(),
            covers_exactly(a.spec_ring_offsets(), a.spec_coords().len()),
            covers_exactly(a.spec_geom_offsets(), run_count(a.spec_ring_offsets())),
            run_count(a.spec_ring_offsets()) == total_len(self.values()),
            a.spec_coords().len() == total_len2(self.values()),
            a.spec_coord_type() == self.spec_coord_type(),
            a.spec_width() == self.spec_width(),
            a.spec_metadata() == self.spec_metadata(),
    {
        let coords = self.coords.finish();
        let geom_offsets = self.geom_offsets.finish();
        let ring_offsets = self.ring_offsets.finish();
        let validity = self.validity.finish();
        MultiLineStringArray::new(coords, geom_offsets, ring_offsets, validity, self.metadata)
    }
}

/// What `geoms` stand for, element by element: the value of a present element,
/// nothing for an absent one.
pub open spec fn multi_line_string_models<G: MultiLineStringTrait>(geoms: Seq<Option<G>>) -> Seq<Seq<Seq<Coord>>> {
    Seq::new(
        geoms.len(),
        |i: int|
            match geoms[i] {
                Some(g) => g.model(),
                None => Seq::empty(),
            },
    )
}

/// Which of `geoms` are present.
pub open spec fn multi_line_string_presence<G: MultiLineStringTrait>(geoms: Seq<Option<G>>) -> Seq<bool> {
    Seq::new(geoms.len(), |i: int| geoms[i] is Some)
}

/// Every present element of `geoms` can be read.
pub open spec fn multi_line_strings_wf<G: MultiLineStringTrait>(geoms: Seq<Option<G>>) -> bool {
    forall|i: int| 0 <= i < geoms.len() ==> (#[trigger] geoms[i] matches Some(g) ==> g.wf())
}

impl MultiLineStringCapacity {
    /// The first pass over the input: how much room `geoms` need, or `None`
    /// where the machine cannot count that much.
    pub fn from_multi_line_strings<G: MultiLineStringTrait>(geoms: &[Option<G>]) -> (r: Option<MultiLineStringCapacity>)
        requires
            multi_line_strings_wf(geoms@),
        ensures
            (total_len2(multi_line_string_models(geoms@)) <= usize::MAX && total_len(multi_line_string_models(geoms@)) <= usize::MAX) ==> {
                &&& r matches Some(c)
                &&& c.coord_capacity == total_len2(multi_line_string_models(geoms@))
                &&& c.ring_capacity == total_len(multi_line_string_models(geoms@))
                &&& c.geom_capacity == geoms@.len()
            },
            !(total_len2(multi_line_string_models(geoms@)) <= usize::MAX && total_len(multi_line_string_models(geoms@)) <= usize::MAX) ==> r is None,
    {
        let ghost target = multi_line_string_models(geoms@);
        let n = geoms.len();
        let mut coords: usize = 0;
        let mut rings: usize = 0;
        let mut i: usize = 0;
        proof {
            assert(target.take(0) =~= Seq::empty());
            lemma_total_len_empty::<Coord>();
        }
        while i < n
            invariant
                multi_line_strings_wf(geoms@),
                n == geoms@.len(),
                target == multi_line_string_models(geoms@),
                i <= n,
                coords == total_len2(target.take(i as int)),
                rings == total_len(target.take(i as int)),
            decreases n - i,
        {
            proof {
                lemma_total_len2_step(target, i as int);
                lemma_total_len2_prefix(target, i + 1);
                lemma_total_len_step(target, i as int);
                lemma_total_len_prefix(target, i + 1);
                lemma_total_len_empty::<Coord>();
            }
            match &geoms[i] {
                Some(g) => {
                    let more = match multi_line_string_coord_count(g) {
                        Some(m) => m,
                        None => {
                            return None;
                        },
                    };
                    coords = match coords.checked_add(more) {
                        Some(sum) => sum,
                        None => {
                            return None;
                        },
                    };
                    rings = match rings.checked_add(g.num_lines()) {
                        Some(sum) => sum,
                        None => {
                            return None;
                        },
                    };
                },
                None => {},
            }
            i += 1;
        }
        proof {
            assert(target.take(n as int) =~= target);
        }
        Some(MultiLineStringCapacity::new(coords, rings, n))
    }
}

impl MultiLineStringBuilder {
    /// A builder filled with `geoms`, in two passes: the first counts what the
    /// buffers must hold, the second fills them. Where the elements do not fit
    /// offsets of `width` the result is [`GeoArrowError::IndexOverflow`].
    pub fn from_nullable_multi_line_strings<G: MultiLineStringTrait>(
        geoms: &[Option<G>],
        width: OffsetWidth,
        coord_type: CoordType,
        metadata: ArrayMetadata,
    ) -> (r: Result<MultiLineStringBuilder, GeoArrowError>)
        requires
            multi_line_strings_wf(geoms@),
        ensures
            ({
                let target = multi_line_string_models(geoms@);
                if total_len(target) <= width.limit() && total_len2(target) <= width.limit() {
                    &&& r matches Ok(b)
                    &&& b.wf()
                    &&& b.values() == target
                    &&& b.validity_bits() == multi_line_string_presence(geoms@)
                    &&& b.spec_width() == width
                    &&& b.spec_coord_type() == coord_type
                    &&& b.spec_metadata() == metadata
                } else {
                    r == Err::<MultiLineStringBuilder, GeoArrowError>(GeoArrowError::IndexOverflow)
                }
            }),
    {
        let ghost target = multi_line_string_models(geoms@);
        let ghost bits = multi_line_string_presence(geoms@);
        let capacity = match MultiLineStringCapacity::from_multi_line_strings(geoms) {
            Some(c) => c,
            None => {
                return Err(GeoArrowError::IndexOverflow);
            },
        };
        let mut builder = MultiLineStringBuilder::with_capacity_and_options(
            width,
            capacity,
            coord_type,
            metadata,
        );
        let n = geoms.len();
        let mut i: usize = 0;
        proof {
            assert(target.take(0) =~= Seq::<Seq<Seq<Coord>>>::empty());
            assert(bits.take(0) =~= Seq::<bool>::empty());
        }
        while i < n
            invariant
                multi_line_strings_wf(geoms@),
                n == geoms@.len(),
                target == multi_line_string_models(geoms@),
                bits == multi_line_string_presence(geoms@),
                i <= n,
                builder.wf(),
                builder.values() == target.take(i as int),
                builder.validity_bits() == bits.take(i as int),
                builder.spec_width() == width,
                builder.spec_coord_type() == coord_type,
                builder.spec_metadata() == metadata,
            decreases n - i,
        {
            proof {
                assert(target.take(i + 1) =~= target.take(i as int).push(target[i as int]));
                assert(bits.take(i + 1) =~= bits.take(i as int).push(bits[i as int]));
                lemma_total_len_step(target, i as int);
                lemma_total_len_prefix(target, i + 1);
                lemma_total_len_empty::<Coord>();
                lemma_total_len2_step(target, i as int);
                lemma_total_len2_prefix(target, i + 1);
            }
            let pushed = match &geoms[i] {
                Some(g) => builder.push_multi_line_string(Some(g)),
                None => builder.push_multi_line_string::<G>(None),
            };
            match pushed {
                Ok(()) => {},
                Err(e) => {
                    return Err(e);
                },
            }
            i += 1;
        }
        proof {
            assert(target.take(n as int) =~= target);
            assert(bits.take(n as int) =~= bits);
            builder.lemma_within_limit();
        }
        Ok(builder)
    }
}

/// Another name of [`MultiLineStringBuilder`].
pub type MutableMultiLineStringArray = MultiLineStringBuilder;

} // verus!
