//! Arrays of geometry collections and their builder.

use vstd::prelude::*;
use crate::array::metadata::ArrayMetadata;
use crate::array::mixed::{
    MixedCapacity, MixedGeometryArray, MixedGeometryBuilder, all_fit, children_of,
    geometry_element, lemma_all_fit_prefix, lemma_all_fit_within, lemma_children_push,
    line_string_element, point_element, polygon_element,
};
use crate::array::util::{lemma_close_run, level_wf};
use crate::coord::{Coord, CoordType};
use crate::datatypes::{GeoDataType, Shape};
use crate::error::GeoArrowError;
use crate::geo_traits::{
    LineStringTrait, MultiLineStringTrait, MultiPointTrait, MultiPolygonTrait, PointTrait,
    PolygonTrait,
};
use crate::geometry::{GeometryCollectionTrait, GeometryModel, GeometryTrait, GeometryType};
use crate::offsets::{
    OffsetBuffer, OffsetWidth, OffsetsBuilder, covers, covers_exactly, lemma_runs_window,
    lemma_window_wf, run_count, runs, window,
};
use crate::scalar::geometrycollection::GeometryCollection;
use crate::validity::{Validity, ValidityBuilder, has_null, masked};
use crate::array::util::{flat, lemma_flat_runs, lemma_offsets_are_totals, total_len};

verus! {

/// How much room the buffers of an array of geometry collections need.
#[derive(Clone, Copy, Debug, PartialEq, Eq, Structural)]
pub struct GeometryCollectionCapacity {
    /// The room for the members.
    pub mixed_capacity: MixedCapacity,
    /// The number of collections.
    pub geom_capacity: usize,
}

impl GeometryCollectionCapacity {
    /// Room for `geom_capacity` collections whose members need `mixed_capacity`.
    pub fn new(mixed_capacity: MixedCapacity, geom_capacity: usize) -> (c:
        GeometryCollectionCapacity)
        ensures
            c.mixed_capacity == mixed_capacity,
            c.geom_capacity == geom_capacity,
    {
        GeometryCollectionCapacity { mixed_capacity, geom_capacity }
    }

    /// No room at all.
    pub fn new_empty() -> (c: GeometryCollectionCapacity)
        ensures
            c.geom_capacity == 0,
    {
        GeometryCollectionCapacity { mixed_capacity: MixedCapacity::new_empty(), geom_capacity: 0 }
    }
}

/// An immutable array of geometry collections: an array of mixed shape that
/// holds the members, offsets that cut it into one run per collection, and an
/// optional validity bitmap.
pub struct GeometryCollectionArray {
    array: MixedGeometryArray,
    geom_offsets: OffsetBuffer,
    validity: Validity,
    metadata: ArrayMetadata,
}

impl View for GeometryCollectionArray {
    type V = Seq<Option<Seq<Option<GeometryModel>>>>;

    open spec fn view(&self) -> Seq<Option<Seq<Option<GeometryModel>>>> {
        masked(
            Seq::new(
                self.values().len(),
                |i: int| masked(self.values()[i], self.member_bits()[i]),
            ),
            self.validity_bits(),
        )
    }
}

impl GeometryCollectionArray {
    /// The buffers are well formed, the offsets stay inside the members, and the
    /// validity, if held, has one bit per collection.
    pub closed spec fn wf(&self) -> bool {
        &&& self.array.wf()
        &&& self.geom_offsets.wf()
        &&& covers(self.geom_offsets@, self.array.values().len())
        &&& self.validity.covers(run_count(self.geom_offsets@))
    }

    /// The members stored for each collection, absent members and the members of
    /// absent collections included.
    pub closed spec fn values(&self) -> Seq<Seq<GeometryModel>> {
        runs(self.array.values(), self.geom_offsets@)
    }

    /// Which members of each collection are present.
    pub closed spec fn member_bits(&self) -> Seq<Seq<bool>> {
        runs(self.array.validity_bits(), self.geom_offsets@)
    }

    /// Which collections are present.
    pub closed spec fn validity_bits(&self) -> Seq<bool> {
        self.validity.bits(run_count(self.geom_offsets@))
    }

    /// Whether a validity bitmap is held.
    pub closed spec fn has_bitmap(&self) -> bool {
        self.validity.has_bitmap()
    }

    /// The array holds its collections and nothing beside them: the members are
    /// held without anything beside them, the offsets start at zero and end where
    /// the members end, and a validity bitmap is held only where some collection
    /// is absent.
    pub open spec fn compact(&self) -> bool {
        &&& self.spec_members().compact()
        &&& covers_exactly(self.spec_geom_offsets(), self.spec_members().values().len())
        &&& self.has_bitmap() <==> has_null(self.validity_bits())
    }

    /// The array that holds the members.
    pub closed spec fn spec_members(&self) -> MixedGeometryArray {
        self.array
    }

    /// The offsets into the members, one run per collection.
    pub closed spec fn spec_geom_offsets(&self) -> Seq<int> {
        self.geom_offsets@
    }

    /// The layout of the coordinates.
    pub closed spec fn spec_coord_type(&self) -> CoordType {
        self.array.spec_coord_type()
    }

    /// The width of the offsets.
    pub closed spec fn spec_width(&self) -> OffsetWidth {
        self.geom_offsets.spec_width()
    }

    /// The metadata of the array.
    pub closed spec fn spec_metadata(&self) -> ArrayMetadata {
        self.metadata
    }

    /// What the buffers mean: the values are the runs of the members.
    pub proof fn lemma_values(&self)
        ensures
            self.values() == runs(self.spec_members().values(), self.spec_geom_offsets()),
            self.member_bits() == runs(
                self.spec_members().validity_bits(),
                self.spec_geom_offsets(),
            ),
            self.wf() ==> self.spec_members().wf() && covers(
                self.spec_geom_offsets(),
                self.spec_members().values().len(),
            ),
            self.values().len() == self.validity_bits().len(),
            self.values().len() == self.member_bits().len(),
    {
    }

    /// Where the array holds nothing beside its collections, the collections fix
    /// the offsets: every offset is the number of members of the collections
    /// before it, and the members are those of all collections, in order.
    pub proof fn lemma_compact(&self, k: int)
        requires
            self.wf(),
            self.compact(),
            0 <= k <= self.values().len(),
        ensures
            self.spec_geom_offsets().len() == self.values().len() + 1,
            self.spec_geom_offsets()[k] == total_len(self.values().take(k)),
            self.spec_members().values() == flat(self.values()),
    {
        lemma_offsets_are_totals(self.spec_members().values(), self.spec_geom_offsets(), k);
        lemma_flat_runs(self.spec_members().values(), self.spec_geom_offsets());
    }

    /// An array from its parts.
    pub fn new(
        array: MixedGeometryArray,
        geom_offsets: OffsetBuffer,
        validity: Validity,
        metadata: ArrayMetadata,
    ) -> (a: GeometryCollectionArray)
        requires
            array.wf(),
            geom_offsets.wf(),
            covers(geom_offsets@, array.values().len()),
            validity.covers(run_count(geom_offsets@)),
        ensures
            a.wf(),
            a.values() == runs(array.values(), geom_offsets@),
            a.member_bits() == runs(array.validity_bits(), geom_offsets@),
            a.validity_bits() == validity.bits(run_count(geom_offsets@)),
            a.has_bitmap() == validity.has_bitmap(),
            a.spec_members() == array,
            a.spec_geom_offsets() == geom_offsets@,
            a.spec_coord_type() == array.spec_coord_type(),
            a.spec_width() == geom_offsets.spec_width(),
            a.spec_metadata() == metadata,
    {
        GeometryCollectionArray { array, geom_offsets, validity, metadata }
    }

    /// The number of elements.
    pub fn len(&self) -> (n: usize)
        requires
            self.wf(),
        ensures
            n == self@.len(),
            n == self.values().len(),
            n == self.member_bits().len(),
            n == self.validity_bits().len(),
    {
        self.geom_offsets.len()
    }

    /// Whether element `i` is present.
    pub fn is_valid(&self, i: usize) -> (b: bool)
        requires
            self.wf(),
            i < self@.len(),
        ensures
            b == self.validity_bits()[i as int],
            b == (self@[i as int] is Some),
    {
        self.validity.is_valid(i)
    }

    /// Whether element `i` is absent.
    pub fn is_null(&self, i: usize) -> (b: bool)
        requires
            self.wf(),
            i < self@.len(),
        ensures
            b == !self.validity_bits()[i as int],
            b == (self@[i as int] is None),
    {
        !self.validity.is_valid(i)
    }

    /// The scalar at `i`, whether or not the element is present.
    pub fn value(&self, i: usize) -> (s: GeometryCollection<'_>)
        requires
            self.wf(),
            i < self@.len(),
        ensures
            s.wf(),
            s.model() == self.values()[i as int],
            s.member_bits() == self.member_bits()[i as int],
    {
        GeometryCollection::new(&self.array, &self.geom_offsets, i)
    }

    /// The `length` elements that start at `offset`, sharing the buffers of this
    /// array.
    pub fn slice(&self, offset: usize, length: usize) -> (a: GeometryCollectionArray)
        requires
            self.wf(),
            offset + length <= self@.len(),
        ensures
            a.wf(),
            a.values() == self.values().subrange(offset as int, offset + length),
            a.member_bits() == self.member_bits().subrange(offset as int, offset + length),
            a.validity_bits() == self.validity_bits().subrange(offset as int, offset + length),
            a@ == self@.subrange(offset as int, offset + length),
            a.spec_members().values() == self.spec_members().values(),
            a.spec_members().validity_bits() == self.spec_members().validity_bits(),
            a.spec_geom_offsets() == window(self.spec_geom_offsets(), offset as int, length as int),
            a.has_bitmap() <==> has_null(a.validity_bits()),
            offset == 0 && length == self@.len() ==> a@ == self@ && a.values() == self.values(),
            a.spec_coord_type() == self.spec_coord_type(),
            a.spec_width() == self.spec_width(),
            a.spec_metadata() == self.spec_metadata(),
    {
        proof {
            lemma_window_wf(self.geom_offsets@, offset as int, length as int);
            lemma_runs_window(self.array.values(), self.geom_offsets@, offset as int, length as int);
            lemma_runs_window(
                self.array.validity_bits(),
                self.geom_offsets@,
                offset as int,
                length as int,
            );
        }
        let geom_offsets = self.geom_offsets.slice(offset, length);
        let validity = self.validity.slice(offset, length);
        let members = self.array.len();
        let array = self.array.slice(0, members);
        proof {
            assert(array.values() =~= self.array.values());
            assert(array.validity_bits() =~= self.array.validity_bits());
        }
        let a = GeometryCollectionArray {
            array,
            geom_offsets,
            validity,
            metadata: self.metadata.duplicate(),
        };
        assert(a.validity_bits() =~= self.validity_bits().subrange(offset as int, offset + length));
        assert(a@ =~= self@.subrange(offset as int, offset + length));
        assert(offset == 0 && length == self@.len() ==> a@ =~= self@ && a.values() =~= self.values());
        a
    }

    /// How much room a builder needs to take these elements over.
    pub fn buffer_lengths(&self) -> (c: GeometryCollectionCapacity)
        requires
            self.wf(),
        ensures
            c.geom_capacity == self.values().len(),
            self.spec_members().room(c.mixed_capacity),
    {
        GeometryCollectionCapacity::new(self.array.buffer_lengths(), self.geom_offsets.len())
    }

    /// The layout of the coordinates.
    pub fn coord_type(&self) -> (t: CoordType)
        ensures
            t == self.spec_coord_type(),
    {
        self.array.coord_type()
    }

    /// The width of the offsets.
    pub fn width(&self) -> (w: OffsetWidth)
        ensures
            w == self.spec_width(),
    {
        self.geom_offsets.width()
    }

    /// The logical type of the array.
    pub fn data_type(&self) -> (t: GeoDataType)
        ensures
            t.spec_shape() == Some(Shape::GeometryCollection),
            t.spec_width() == self.spec_width(),
            t.spec_coord_type() == Some(self.spec_coord_type()),
    {
        GeoDataType::of(Shape::GeometryCollection, self.geom_offsets.width(), self.array.coord_type())
    }

    /// The metadata of the array.
    pub fn metadata(&self) -> (m: &ArrayMetadata)
        ensures
            *m == self.spec_metadata(),
    {
        &self.metadata
    }

    /// A second handle on the validity of the collections.
    pub fn validity(&self) -> (v: Validity)
        requires
            self.wf(),
        ensures
            v.covers(self.values().len()),
            v.bits(self.values().len()) == self.validity_bits(),
            v.has_bitmap() == self.has_bitmap(),
    {
        self.validity.duplicate()
    }

    /// The array that holds the members.
    pub fn members(&self) -> (m: &MixedGeometryArray)
        requires
            self.wf(),
        ensures
            m.wf(),
            *m == self.spec_members(),
    {
        &self.array
    }

    /// The offsets into the members.
    pub fn geom_offsets(&self) -> (o: &OffsetBuffer)
        requires
            self.wf(),
        ensures
            o.wf(),
            o@ == self.spec_geom_offsets(),
            o.spec_width() == self.spec_width(),
    {
        &self.geom_offsets
    }
}

/// What is stored for the members of a collection: each as pushing it stores
/// it, a single geometry as its multi shape where multi shapes are preferred.
pub open spec fn collection_elements(members: Seq<GeometryModel>, prefer_multi: bool) -> Seq<
    GeometryModel,
> {
    Seq::new(members.len(), |j: int| geometry_element(Some(members[j]), prefer_multi))
}

/// A growing array of geometry collections.
pub struct GeometryCollectionBuilder {
    geoms: MixedGeometryBuilder,
    geom_offsets: OffsetsBuilder,
    validity: ValidityBuilder,
    metadata: ArrayMetadata,
}

impl GeometryCollectionBuilder {
    /// The offsets cover the members exactly, members and offsets have the same
    /// width, and one validity bit has been appended per collection.
    pub closed spec fn wf(&self) -> bool {
        &&& self.geoms.wf()
        &&& level_wf(&self.geom_offsets, self.geoms.values().len())
        &&& self.geoms.spec_width() == self.geom_offsets.spec_width()
        &&& self.validity@.len() == run_count(self.geom_offsets@)
    }

    /// The members stored for each collection pushed; none for an absent one.
    pub closed spec fn values(&self) -> Seq<Seq<GeometryModel>> {
        runs(self.geoms.values(), self.geom_offsets@)
    }

    /// Which members of each collection pushed are present.
    pub closed spec fn member_bits(&self) -> Seq<Seq<bool>> {
        runs(self.geoms.validity_bits(), self.geom_offsets@)
    }

    /// Which of the collections pushed are present.
    pub closed spec fn validity_bits(&self) -> Seq<bool> {
        self.validity@
    }

    /// The members of all collections pushed, in order.
    pub closed spec fn members(&self) -> Seq<GeometryModel> {
        self.geoms.values()
    }

    /// The layout of the coordinates.
    pub closed spec fn spec_coord_type(&self) -> CoordType {
        self.geoms.spec_coord_type()
    }

    /// The width of the offsets.
    pub closed spec fn spec_width(&self) -> OffsetWidth {
        self.geom_offsets.spec_width()
    }

    /// The metadata that the finished array will carry.
    pub closed spec fn spec_metadata(&self) -> ArrayMetadata {
        self.metadata
    }

    /// Whether a collection of the one member `g` can still be pushed: `g` fits
    /// among the members, and one more member stays within what the offsets can
    /// hold.
    pub open spec fn fits(&self, g: GeometryModel) -> bool {
        &&& children_of(self.members()).fits(g, self.spec_width())
        &&& self.members().len() + 1 <= self.spec_width().limit()
    }

    /// What a push that succeeded has done: one more collection with the one
    /// member `g`, and nothing else changed.
    pub open spec fn pushed(&self, before: &GeometryCollectionBuilder, g: GeometryModel) -> bool {
        &&& self.wf()
        &&& self.values() == before.values().push(seq![g])
        &&& self.member_bits() == before.member_bits().push(seq![true])
        &&& self.validity_bits() == before.validity_bits().push(true)
        &&& self.members() == before.members().push(g)
        &&& self.unchanged_options(before)
    }

    /// What a push of an absent collection has done: one more collection without
    /// members, an unset validity bit, and nothing else changed.
    pub open spec fn pushed_null(&self, before: &GeometryCollectionBuilder) -> bool {
        &&& self.wf()
        &&& self.values() == before.values().push(Seq::<GeometryModel>::empty())
        &&& self.member_bits() == before.member_bits().push(Seq::<bool>::empty())
        &&& self.validity_bits() == before.validity_bits().push(false)
        &&& self.members() == before.members()
        &&& self.unchanged_options(before)
    }

    /// Layout, width and metadata are as before.
    pub open spec fn unchanged_options(&self, before: &GeometryCollectionBuilder) -> bool {
        &&& self.spec_coord_type() == before.spec_coord_type()
        &&& self.spec_width() == before.spec_width()
        &&& self.spec_metadata() == before.spec_metadata()
    }

    /// What a push has done. An absent value was pushed as an absent collection.
    /// A present one, where its element `g` fitted, is the one member of the last
    /// collection now; where it did not, the push failed with
    /// [`GeoArrowError::IndexOverflow`] and the builder is as before.
    pub open spec fn push_result(
        &self,
        before: &GeometryCollectionBuilder,
        g: GeometryModel,
        present: bool,
        r: Result<(), GeoArrowError>,
    ) -> bool {
        if !present {
            r is Ok && self.pushed_null(before)
        } else if before.fits(g) {
            r is Ok && self.pushed(before, g)
        } else {
            r == Err::<(), GeoArrowError>(GeoArrowError::IndexOverflow) && *self == *before
        }
    }

    /// A builder holds as many validity bits as collections.
    pub proof fn lemma_lengths(&self)
        requires
            self.wf(),
        ensures
            self.values().len() == self.validity_bits().len(),
            self.values().len() == self.member_bits().len(),
            self.members().len() <= self.spec_width().limit(),
    {
    }

    /// An empty builder with room for `capacity`.
    pub fn with_capacity_and_options(
        width: OffsetWidth,
        capacity: GeometryCollectionCapacity,
        coord_type: CoordType,
        metadata: ArrayMetadata,
    ) -> (b: GeometryCollectionBuilder)
        ensures
            b.wf(),
            b.values() == Seq::<Seq<GeometryModel>>::empty(),
            b.member_bits() == Seq::<Seq<bool>>::empty(),
            b.validity_bits() == Seq::<bool>::empty(),
            b.members() == Seq::<GeometryModel>::empty(),
            b.spec_coord_type() == coord_type,
            b.spec_width() == width,
            b.spec_metadata() == metadata,
    {
        let b = GeometryCollectionBuilder {
            geoms: MixedGeometryBuilder::with_capacity_and_options(
                width,
                capacity.mixed_capacity,
                coord_type,
                ArrayMetadata::new(),
                false,
            ),
            geom_offsets: OffsetsBuilder::with_capacity(width, capacity.geom_capacity),
            validity: ValidityBuilder::with_capacity(capacity.geom_capacity),
            metadata,
        };
        assert(b.values() =~= Seq::<Seq<GeometryModel>>::empty());
        assert(b.member_bits() =~= Seq::<Seq<bool>>::empty());
        b
    }

    /// An empty builder with interleaved coordinates and no metadata.
    pub fn new(width: OffsetWidth) -> (b: GeometryCollectionBuilder)
        ensures
            b.wf(),
            b.values() == Seq::<Seq<GeometryModel>>::empty(),
            b.member_bits() == Seq::<Seq<bool>>::empty(),
            b.validity_bits() == Seq::<bool>::empty(),
            b.members() == Seq::<GeometryModel>::empty(),
            b.spec_coord_type() == CoordType::Interleaved,
            b.spec_width() == width,
    {
        GeometryCollectionBuilder::with_capacity_and_options(
            width,
            GeometryCollectionCapacity::new_empty(),
            CoordType::Interleaved,
            ArrayMetadata::new(),
        )
    }

    /// The number of collections pushed so far.
    pub fn len(&self) -> (n: usize)
        requires
            self.wf(),
        ensures
            n == self.values().len(),
            n == self.validity_bits().len(),
            n < usize::MAX,
    {
        self.geom_offsets.len()
    }

    /// Appends an absent collection: an empty run and an unset validity bit. The
    /// members do not grow.
    pub fn push_null(&mut self)
        requires
            old(self).wf(),
        ensures
            final(self).pushed_null(old(self)),
    {
        let n = self.geom_offsets.len();
        let pushed = self.geom_offsets.try_push_usize(0);
        self.validity.append(false);
        proof {
            let members = old(self).geoms.values();
            let bits = old(self).geoms.validity_bits();
            old(self).geoms.lemma_fitted();
            lemma_close_run(members, Seq::<GeometryModel>::empty(), old(self).geom_offsets@);
            lemma_close_run(bits, Seq::<bool>::empty(), old(self).geom_offsets@);
            assert(members + Seq::<GeometryModel>::empty() =~= members);
            assert(bits + Seq::<bool>::empty() =~= bits);
        }
    }

    /// Closes the collection of the one member that the members have just taken.
    fn close_one(&mut self, Ghost(before): Ghost<GeometryCollectionBuilder>, Ghost(g): Ghost<
        GeometryModel,
    >)
        requires
            before.wf(),
            before.members().len() + 1 <= before.spec_width().limit(),
            old(self).geoms.pushed(&before.geoms, g, true),
            old(self).geom_offsets == before.geom_offsets,
            old(self).validity == before.validity,
            old(self).metadata == before.metadata,
        ensures
            final(self).pushed(&before, g),
    {
        let n = self.geom_offsets.len();
        let pushed = self.geom_offsets.try_push_usize(1);
        self.validity.append(true);
        proof {
            let members = before.geoms.values();
            let bits = before.geoms.validity_bits();
            before.geoms.lemma_fitted();
            lemma_close_run(members, seq![g], before.geom_offsets@);
            lemma_close_run(bits, seq![true], before.geom_offsets@);
            assert(members + seq![g] =~= members.push(g));
            assert(bits + seq![true] =~= bits.push(true));
        }
    }

    /// Appends one collection: the point `value` as its one member, or an absent
    /// collection for `None`. The point is stored as a multi point of one point
    /// where `prefer_multi` says so.
    pub fn push_point<P: PointTrait>(&mut self, value: Option<&P>, prefer_multi: bool) -> (r:
        Result<(), GeoArrowError>)
        requires
            old(self).wf(),
            value matches Some(g) ==> g.wf(),
        ensures
            final(self).push_result(
                old(self),
                point_element(
                    match value {
                        Some(g) => Some(g.model()),
                        None => None,
                    },
                    prefer_multi,
                ),
                value is Some,
                r,
            ),
    {
        if value.is_none() {
            self.push_null();
            return Ok(());
        }
        if !self.geom_offsets.fits(1) {
            return Err(GeoArrowError::IndexOverflow);
        }
        let ghost before = *self;
        let pushed = if prefer_multi {
            self.geoms.point_to_multi_points(value)
        } else {
            self.geoms.point_to_points(value)
        };
        match pushed {
            Ok(()) => {},
            Err(e) => {
                return Err(e);
            },
        }
        self.close_one(
            Ghost(before),
            Ghost(
                point_element(
                    match value {
                        Some(g) => Some(g.model()),
                        None => None,
                    },
                    prefer_multi,
                ),
            ),
        );
        Ok(())
    }

    /// Appends one collection: the line string `value` as its one member, or an
    /// absent collection for `None`. The line string is stored as a multi line
    /// string of one part where `prefer_multi` says so.
    pub fn push_line_string<L: LineStringTrait>(&mut self, value: Option<&L>, prefer_multi: bool)
        -> (r: Result<(), GeoArrowError>)
        requires
            old(self).wf(),
            value matches Some(g) ==> g.wf(),
        ensures
            final(self).push_result(
                old(self),
                line_string_element(
                    match value {
                        Some(g) => Some(g.model()),
                        None => None,
                    },
                    prefer_multi,
                ),
                value is Some,
                r,
            ),
    {
        if value.is_none() {
            self.push_null();
            return Ok(());
        }
        if !self.geom_offsets.fits(1) {
            return Err(GeoArrowError::IndexOverflow);
        }
        let ghost before = *self;
        let pushed = if prefer_multi {
            self.geoms.line_string_to_multi_line_strings(value)
        } else {
            self.geoms.line_string_to_line_strings(value)
        };
        match pushed {
            Ok(()) => {},
            Err(e) => {
                return Err(e);
            },
        }
        self.close_one(
            Ghost(before),
            Ghost(
                line_string_element(
                    match value {
                        Some(g) => Some(g.model()),
                        None => None,
                    },
                    prefer_multi,
                ),
            ),
        );
        Ok(())
    }

    /// Appends one collection: the polygon `value` as its one member, or an absent
    /// collection for `None`. The polygon is stored as a multi polygon of one
    /// polygon where `prefer_multi` says so.
    pub fn push_polygon<P: PolygonTrait>(&mut self, value: Option<&P>, prefer_multi: bool) -> (r:
        Result<(), GeoArrowError>)
        requires
            old(self).wf(),
            value matches Some(g) ==> g.wf(),
        ensures
            final(self).push_result(
                old(self),
                polygon_element(
                    match value {
                        Some(g) => Some(g.model()),
                        None => None,
                    },
                    prefer_multi,
                ),
                value is Some,
                r,
            ),
    {
        if value.is_none() {
            self.push_null();
            return Ok(());
        }
        if !self.geom_offsets.fits(1) {
            return Err(GeoArrowError::IndexOverflow);
        }
        let ghost before = *self;
        let pushed = if prefer_multi {
            self.geoms.polygon_to_multi_polygons(value)
        } else {
            self.geoms.polygon_to_polygons(value)
        };
        match pushed {
            Ok(()) => {},
            Err(e) => {
                return Err(e);
            },
        }
        self.close_one(
            Ghost(before),
            Ghost(
                polygon_element(
                    match value {
                        Some(g) => Some(g.model()),
                        None => None,
                    },
                    prefer_multi,
                ),
            ),
        );
        Ok(())
    }

    /// Appends one collection: the multi point `value` as its one member, or an
    /// absent collection for `None`.
    pub fn push_multi_point<M: MultiPointTrait>(&mut self, value: Option<&M>) -> (r: Result<
        (),
        GeoArrowError,
    >)
        requires
            old(self).wf(),
            value matches Some(g) ==> g.wf(),
        ensures
            final(self).push_result(
                old(self),
                GeometryModel::MultiPoint(
                    match value {
                        Some(g) => g.model(),
                        None => Seq::empty(),
                    },
                ),
                value is Some,
                r,
            ),
    {
        if value.is_none() {
            self.push_null();
            return Ok(());
        }
        if !self.geom_offsets.fits(1) {
            return Err(GeoArrowError::IndexOverflow);
        }
        let ghost before = *self;
        match self.geoms.push_multi_point(value) {
            Ok(()) => {},
            Err(e) => {
                return Err(e);
            },
        }
        self.close_one(
            Ghost(before),
            Ghost(
                GeometryModel::MultiPoint(
                    match value {
                        Some(g) => g.model(),
                        None => Seq::empty(),
                    },
                ),
            ),
        );
        Ok(())
    }

    /// Appends one collection: the multi line string `value` as its one member,
    /// or an absent collection for `None`.
    pub fn push_multi_line_string<M: MultiLineStringTrait>(&mut self, value: Option<&M>) -> (r:
        Result<(), GeoArrowError>)
        requires
            old(self).wf(),
            value matches Some(g) ==> g.wf(),
        ensures
            final(self).push_result(
                old(self),
                GeometryModel::MultiLineString(
                    match value {
                        Some(g) => g.model(),
                        None => Seq::empty(),
                    },
                ),
                value is Some,
                r,
            ),
    {
        if value.is_none() {
            self.push_null();
            return Ok(());
        }
        if !self.geom_offsets.fits(1) {
            return Err(GeoArrowError::IndexOverflow);
        }
        let ghost before = *self;
        match self.geoms.push_multi_line_string(value) {
            Ok(()) => {},
            Err(e) => {
                return Err(e);
            },
        }
        self.close_one(
            Ghost(before),
            Ghost(
                GeometryModel::MultiLineString(
                    match value {
                        Some(g) => g.model(),
                        None => Seq::empty(),
                    },
                ),
            ),
        );
        Ok(())
    }

    /// Appends one collection: the multi polygon `value` as its one member, or an
    /// absent collection for `None`.
    pub fn push_multi_polygon<M: MultiPolygonTrait>(&mut self, value: Option<&M>) -> (r: Result<
        (),
        GeoArrowError,
    >)
        requires
            old(self).wf(),
            value matches Some(g) ==> g.wf(),
        ensures
            final(self).push_result(
                old(self),
                GeometryModel::MultiPolygon(
                    match value {
                        Some(g) => g.model(),
                        None => Seq::empty(),
                    },
                ),
                value is Some,
                r,
            ),
    {
        if value.is_none() {
            self.push_null();
            return Ok(());
        }
        if !self.geom_offsets.fits(1) {
            return Err(GeoArrowError::IndexOverflow);
        }
        let ghost before = *self;
        match self.geoms.push_multi_polygon(value) {
            Ok(()) => {},
            Err(e) => {
                return Err(e);
            },
        }
        self.close_one(
            Ghost(before),
            Ghost(
                GeometryModel::MultiPolygon(
                    match value {
                        Some(g) => g.model(),
                        None => Seq::empty(),
                    },
                ),
            ),
        );
        Ok(())
    }

    /// Appends one collection: the geometry `value` as its one member, through
    /// the function of its shape, or an absent collection for `None`.
    pub fn push_geometry<G: GeometryTrait>(&mut self, value: Option<&G>, prefer_multi: bool) -> (r:
        Result<(), GeoArrowError>)
        requires
            old(self).wf(),
            value matches Some(g) ==> g.wf(),
        ensures
            final(self).push_result(
                old(self),
                geometry_element(
                    match value {
                        Some(g) => Some(g.model()),
                        None => None,
                    },
                    prefer_multi,
                ),
                value is Some,
                r,
            ),
    {
        match value {
            Some(geom) => match geom.as_type() {
                GeometryType::Point(g) => self.push_point(Some(&g), prefer_multi),
                GeometryType::LineString(g) => self.push_line_string(Some(&g), prefer_multi),
                GeometryType::Polygon(g) => self.push_polygon(Some(&g), prefer_multi),
                GeometryType::MultiPoint(g) => self.push_multi_point(Some(&g)),
                GeometryType::MultiLineString(g) => self.push_multi_line_string(Some(&g)),
                GeometryType::MultiPolygon(g) => self.push_multi_polygon(Some(&g)),
            },
            None => {
                self.push_null();
                Ok(())
            },
        }
    }

    /// Whether a collection of the members `more` can still be pushed: they fit
    /// among the members, each in its turn, and all members together stay within
    /// what the offsets can hold.
    pub open spec fn fits_all(&self, more: Seq<GeometryModel>) -> bool {
        &&& all_fit(self.members() + more, self.spec_width())
        &&& self.members().len() + more.len() <= self.spec_width().limit()
    }

    /// What a push of a collection that succeeded has done: one more collection
    /// with the members `more`, all present, and nothing else changed.
    pub open spec fn pushed_collection(
        &self,
        before: &GeometryCollectionBuilder,
        more: Seq<GeometryModel>,
    ) -> bool {
        &&& self.wf()
        &&& self.values() == before.values().push(more)
        &&& self.member_bits() == before.member_bits().push(Seq::new(more.len(), |j: int| true))
        &&& self.validity_bits() == before.validity_bits().push(true)
        &&& self.members() == before.members() + more
        &&& self.unchanged_options(before)
    }

    /// The first pass over a collection: whether its members can all be pushed.
    fn can_take<C: GeometryCollectionTrait>(&self, collection: &C, prefer_multi: bool) -> (ok: bool)
        requires
            self.wf(),
            collection.wf(),
        ensures
            ok == self.fits_all(collection_elements(collection.model(), prefer_multi)),
    {
        let ghost more = collection_elements(collection.model(), prefer_multi);
        let ghost members = self.geoms.values();
        let ghost width = self.spec_width();
        let n = collection.num_geometries();
        if !self.geom_offsets.fits(n) {
            return false;
        }
        let mut c = self.geoms.buffer_lengths();
        let mut j: usize = 0;
        proof {
            assert(members + more.take(0) =~= members);
        }
        while j < n
            invariant
                collection.wf(),
                n == collection.model().len(),
                j <= n,
                more == collection_elements(collection.model(), prefer_multi),
                members == self.members(),
                width == self.spec_width(),
                children_of(members + more.take(j as int)).room(c),
            decreases n - j,
        {
            let ghost so_far = members + more.take(j as int);
            proof {
                lemma_children_push(so_far, more[j as int], width);
                assert(so_far.push(more[j as int]) =~= members + more.take(j + 1));
            }
            let member = match collection.geometry(j) {
                Some(g) => g,
                None => {
                    return false;
                },
            };
            match c.add_geometry(Some(&member), prefer_multi, Ghost(children_of(so_far))) {
                Some(next) => {
                    c = next;
                },
                None => {
                    proof {
                        let grown = members + more.take(j + 1);
                        lemma_all_fit_within(grown, width);
                        if children_of(grown).within(width) {
                            children_of(grown).lemma_within_countable(width);
                        }
                        if all_fit(members + more, width) {
                            lemma_all_fit_prefix(members + more, width, members.len() + j + 1);
                            assert((members + more).take(members.len() + j + 1) =~= members
                                + more.take(j + 1));
                        }
                    }
                    return false;
                },
            }
            j += 1;
        }
        proof {
            assert(more.take(n as int) =~= more);
            lemma_all_fit_within(members + more, width);
        }
        c.within(self.geom_offsets.width())
    }

    /// Appends one collection with the members of `value`, all present, or an
    /// absent collection for `None`. A single geometry among the members is
    /// stored as its multi shape where `prefer_multi` says so.
    ///
    /// The members are counted before any of them is stored: where they do not
    /// all fit, the push fails with [`GeoArrowError::IndexOverflow`] and the
    /// builder is as before.
    pub fn push_geometry_collection<C: GeometryCollectionTrait>(
        &mut self,
        value: Option<&C>,
        prefer_multi: bool,
    ) -> (r: Result<(), GeoArrowError>)
        requires
            old(self).wf(),
            value matches Some(c) ==> c.wf(),
        ensures
            match value {
                None => r is Ok && final(self).pushed_null(old(self)),
                Some(c) => {
                    let more = collection_elements(c.model(), prefer_multi);
                    if old(self).fits_all(more) {
                        r is Ok && final(self).pushed_collection(old(self), more)
                    } else {
                        r == Err::<(), GeoArrowError>(GeoArrowError::IndexOverflow) && *final(self)
                            == *old(self)
                    }
                },
            },
    {
        let collection = match value {
            Some(c) => c,
            None => {
                self.push_null();
                return Ok(());
            },
        };
        if !self.can_take(collection, prefer_multi) {
            return Err(GeoArrowError::IndexOverflow);
        }
        let ghost before = *self;
        let ghost more = collection_elements(collection.model(), prefer_multi);
        let ghost members = self.geoms.values();
        let ghost bits = self.geoms.validity_bits();
        let ghost width = self.spec_width();
        let n = collection.num_geometries();
        let mut j: usize = 0;
        proof {
            assert(members + more.take(0) =~= members);
            assert(bits + Seq::new(0, |k: int| true) =~= bits);
        }
        while j < n
            invariant
                before.wf(),
                collection.wf(),
                n == collection.model().len(),
                j <= n,
                more == collection_elements(collection.model(), prefer_multi),
                members == before.geoms.values(),
                bits == before.geoms.validity_bits(),
                width == before.geoms.spec_width(),
                all_fit(members + more, width),
                self.geoms.wf(),
                self.geoms.values() == members + more.take(j as int),
                self.geoms.validity_bits() == bits + Seq::new(j as nat, |k: int| true),
                self.geoms.spec_width() == before.geoms.spec_width(),
                self.geoms.spec_coord_type() == before.geoms.spec_coord_type(),
                self.geoms.spec_metadata() == before.geoms.spec_metadata(),
                self.geoms.spec_prefer_multi() == before.geoms.spec_prefer_multi(),
                self.geom_offsets == before.geom_offsets,
                self.validity == before.validity,
                self.metadata == before.metadata,
            decreases n - j,
        {
            let ghost so_far = members + more.take(j as int);
            proof {
                lemma_children_push(so_far, more[j as int], width);
                assert(so_far.push(more[j as int]) =~= members + more.take(j + 1));
                lemma_all_fit_prefix(members + more, width, members.len() + j + 1);
                assert((members + more).take(members.len() + j + 1) =~= members + more.take(
                    j + 1,
                ));
                assert((bits + Seq::new(j as nat, |k: int| true)).push(true) =~= bits + Seq::new(
                    (j + 1) as nat,
                    |k: int| true,
                ));
            }
            // the first pass has counted every member: none is missing, and each
            // fits
            let member = match collection.geometry(j) {
                Some(g) => g,
                None => {
                    return Err(GeoArrowError::IndexOverflow);
                },
            };
            match self.geoms.push_geometry_as(&member, prefer_multi) {
                Ok(()) => {},
                Err(e) => {
                    return Err(e);
                },
            }
            j += 1;
        }
        let count = self.geom_offsets.len();
        let pushed = self.geom_offsets.try_push_usize(n);
        self.validity.append(true);
        proof {
            assert(more.take(n as int) =~= more);
            before.geoms.lemma_fitted();
            lemma_close_run(members, more, before.geom_offsets@);
            lemma_close_run(bits, Seq::new(n as nat, |k: int| true), before.geom_offsets@);
        }
        Ok(())
    }

    /// The collections pushed, as an immutable array. Its offsets start at zero
    /// and end at the number of members pushed; it holds a validity bitmap only
    /// where some collection is absent.
    pub fn finish(self) -> (a: GeometryCollectionArray)
        requires
            self.wf(),
        ensures
            a.wf(),
            a.values() == self.values(),
            a.member_bits() == self.member_bits(),
            a.validity_bits() == self.validity_bits(),
            a.compact(),
            covers_exactly(a.spec_geom_offsets(), a.spec_members().values().len()),
            a.spec_coord_type() == self.spec_coord_type(),
            a.spec_width() == self.spec_width(),
            a.spec_metadata() == self.spec_metadata(),
    {
        let array = self.geoms.finish();
        let geom_offsets = self.geom_offsets.finish();
        let validity = self.validity.finish();
        GeometryCollectionArray::new(array, geom_offsets, validity, self.metadata)
    }
}

} // verus!
