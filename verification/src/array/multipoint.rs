//! Arrays of multi points and their builder.

use vstd::prelude::*;
use crate::array::metadata::ArrayMetadata;
use crate::array::util::{lemma_close_run, lemma_offsets_are_totals, level_wf, push_multi_point_run, total_len};
use crate::array::util::{
    lemma_total_len_empty, lemma_total_len_prefix, lemma_total_len_step,
};
use crate::coord::{Coord, CoordBuffer, CoordBufferBuilder, CoordType};
use crate::datatypes::{GeoDataType, Shape};
use crate::error::GeoArrowError;
use crate::geo_traits::{MultiPointTrait, PointTrait};
use crate::offsets::{
    OffsetBuffer, OffsetWidth, OffsetsBuilder, covers, covers_exactly, lemma_runs_window,
    lemma_window_wf, run_count, runs, window,
};
use crate::scalar::multipoint::MultiPoint;
use crate::validity::{Validity, ValidityBuilder, masked, has_null};

verus! {

/// How much room the buffers of an array of multi points need.
#[derive(Clone, Copy, Debug, PartialEq, Eq, Structural)]
pub struct MultiPointCapacity {
    /// The number of coordinates.
    pub coord_capacity: usize,
    /// The number of multi points.
    pub geom_capacity: usize,
}

impl MultiPointCapacity {
    /// Room for `coord_capacity` coordinates in `geom_capacity` multi points.
    pub fn new(coord_capacity: usize, geom_capacity: usize) -> (c: MultiPointCapacity)
        ensures
            c.coord_capacity == coord_capacity,
            c.geom_capacity == geom_capacity,
    {
        MultiPointCapacity { coord_capacity, geom_capacity }
    }

    /// No room at all.
    pub fn new_empty() -> (c: MultiPointCapacity)
        ensures
            c.coord_capacity == 0,
            c.geom_capacity == 0,
    {
        MultiPointCapacity { coord_capacity: 0, geom_capacity: 0 }
    }
}

/// An immutable array of multi points: a coordinate buffer, offsets that cut it into
/// one run per element, and an optional validity bitmap.
pub struct MultiPointArray {
    coords: CoordBuffer,
    geom_offsets: OffsetBuffer,
    validity: Validity,
    metadata: ArrayMetadata,
}

impl View for MultiPointArray {
    type V = Seq<Option<Seq<Coord>>>;

    open spec fn view(&self) -> Seq<Option<Seq<Coord>>> {
        masked(self.values(), self.validity_bits())
    }
}

impl MultiPointArray {
    /// The buffers are well formed, the offsets stay inside the coordinate buffer,
    /// and the validity, if held, has one bit per element.
    pub closed spec fn wf(&self) -> bool {
        &&& self.coords.wf()
        &&& self.geom_offsets.wf()
        &&& covers(self.geom_offsets@, self.coords@.len())
        &&& self.validity.covers(run_count(self.geom_offsets@))
    }

    /// The coordinates stored for each element, absent elements included.
    pub closed spec fn values(&self) -> Seq<Seq<Coord>> {
        runs(self.coords@, self.geom_offsets@)
    }

    /// Which elements are present.
    pub closed spec fn validity_bits(&self) -> Seq<bool> {
        self.validity.bits(run_count(self.geom_offsets@))
    }

    /// The coordinates of the coordinate buffer.
    pub closed spec fn spec_coords(&self) -> Seq<Coord> {
        self.coords@
    }

    /// The offsets into the coordinate buffer, one run per element.
    pub closed spec fn spec_geom_offsets(&self) -> Seq<int> {
        self.geom_offsets@
    }

    /// Whether a validity bitmap is held.
    pub closed spec fn has_bitmap(&self) -> bool {
        self.validity.has_bitmap()
    }

    /// The array holds its values and nothing beside them: the offsets start at zero and end where the coordinates end, and
    /// a validity bitmap is held only where some element is absent.
    pub open spec fn compact(&self) -> bool {
        &&& covers_exactly(self.spec_geom_offsets(), self.spec_coords().len())
        &&& self.has_bitmap() <==> has_null(self.validity_bits())
    }

    /// The layout of the coordinates.
    pub closed spec fn spec_coord_type(&self) -> CoordType {
        self.coords.spec_coord_type()
    }

    /// The width of the offsets.
    pub closed spec fn spec_width(&self) -> OffsetWidth {
        self.geom_offsets.spec_width()
    }

    /// The metadata of the array.
    pub closed spec fn spec_metadata(&self) -> ArrayMetadata {
        self.metadata
    }

    /// What the buffers mean: the values are the runs of the coordinates.
    pub proof fn lemma_values(&self)
        ensures
            self.values() == runs(self.spec_coords(), self.spec_geom_offsets()),
            self.wf() ==> covers(self.spec_geom_offsets(), self.spec_coords().len()),
            self.values().len() == self.validity_bits().len(),
    {
    }

    /// Where the array holds nothing beside its values, the values fix the
    /// buffers: every offset is the number of coordinates of the elements before
    /// it, and the coordinate buffer holds as many coordinates as the elements
    /// together.
    pub proof fn lemma_compact(&self, k: int)
        requires
            self.wf(),
            self.compact(),
            0 <= k <= self.values().len(),
        ensures
            self.spec_geom_offsets().len() == self.values().len() + 1,
            self.spec_geom_offsets()[k] == total_len(self.values().take(k)),
            self.spec_coords().len() == total_len(self.values()),
    {
        lemma_offsets_are_totals(self.spec_coords(), self.spec_geom_offsets(), k);
    }

    /// An array from its parts.
    pub fn new(
        coords: CoordBuffer,
        geom_offsets: OffsetBuffer,
        validity: Validity,
        metadata: ArrayMetadata,
    ) -> (a: MultiPointArray)
        requires
            coords.wf(),
            geom_offsets.wf(),
            covers(geom_offsets@, coords@.len()),
            validity.covers(run_count(geom_offsets@)),
        ensures
            a.wf(),
            a.values() == runs(coords@, geom_offsets@),
            a.validity_bits() == validity.bits(run_count(geom_offsets@)),
            a.has_bitmap() == validity.has_bitmap(),
            a.spec_coords() == coords@,
            a.spec_geom_offsets() == geom_offsets@,
            a.spec_coord_type() == coords.spec_coord_type(),
            a.spec_width() == geom_offsets.spec_width(),
            a.spec_metadata() == metadata,
    {
        MultiPointArray { coords, geom_offsets, validity, metadata }
    }

    /// An array from its parts, or [`GeoArrowError::ShapeMismatch`] where a
    /// buffer is malformed, the offsets point beyond the coordinates, or
    /// `validity` holds a bitmap of another length than the offsets delimit runs.
    pub fn try_new(
        coords: CoordBuffer,
        geom_offsets: OffsetBuffer,
        validity: Validity,
        metadata: ArrayMetadata,
    ) -> (r: Result<MultiPointArray, GeoArrowError>)
        ensures
            MultiPointArray::parts_fit(coords, geom_offsets, validity) ==> r is Ok,
            !MultiPointArray::parts_fit(coords, geom_offsets, validity) ==> r == Err::<
                MultiPointArray,
                GeoArrowError,
            >(GeoArrowError::ShapeMismatch),
            r matches Ok(a) ==> {
                &&& a.wf()
                &&& a.values() == runs(coords@, geom_offsets@)
                &&& a.validity_bits() == validity.bits(run_count(geom_offsets@))
                &&& a.has_bitmap() == validity.has_bitmap()
                &&& a.spec_coord_type() == coords.spec_coord_type()
                &&& a.spec_width() == geom_offsets.spec_width()
                &&& a.spec_metadata() == metadata
            },
    {
        if !coords.check() || !geom_offsets.check() {
            return Err(GeoArrowError::ShapeMismatch);
        }
        if geom_offsets.last() > coords.len() {
            return Err(GeoArrowError::ShapeMismatch);
        }
        match validity.bitmap_len() {
            Some(n) => {
                if n != geom_offsets.len() {
                    return Err(GeoArrowError::ShapeMismatch);
                }
            },
            None => {},
        }
        Ok(MultiPointArray::new(coords, geom_offsets, validity, metadata))
    }

    /// The parts can make an array.
    pub open spec fn parts_fit(
        coords: CoordBuffer,
        geom_offsets: OffsetBuffer,
        validity: Validity,
    ) -> bool {
        &&& coords.wf()
        &&& geom_offsets.wf()
        &&& covers(geom_offsets@, coords@.len())
        &&& validity.covers(run_count(geom_offsets@))
    }

    /// The number of elements.
    pub fn len(&self) -> (n: usize)
        requires
            self.wf(),
        ensures
            n == self@.len(),
            n == self.values().len(),
            n == self.validity_bits().len(),
            n == run_count(self.spec_geom_offsets()),
    {
        self.geom_offsets.len()
    }

    /// Whether element `i` is present.
    pub fn is_valid(&self, i: usize) -> (b: bool)
        requires
            self.wf(),
            i < self@.len(),
        ensures
            b == self.validity_bits()[i as int],
            b == (self@[i as int] is Some),
    {
        self.validity.is_valid(i)
    }

    /// Whether element `i` is absent.
    pub fn is_null(&self, i: usize) -> (b: bool)
        requires
            self.wf(),
            i < self@.len(),
        ensures
            b == !self.validity_bits()[i as int],
            b == (self@[i as int] is None),
    {
        !self.validity.is_valid(i)
    }

    /// The scalar at `i`, whether or not the element is present.
    pub fn value(&self, i: usize) -> (s: MultiPoint<'_>)
        requires
            self.wf(),
            i < self@.len(),
        ensures
            s.wf(),
            s.model() == self.values()[i as int],
    {
        MultiPoint::new(&self.coords, &self.geom_offsets, i)
    }

    /// The scalar at `i`, or `None` where the element is absent.
    pub fn get(&self, i: usize) -> (s: Option<MultiPoint<'_>>)
        requires
            self.wf(),
            i < self@.len(),
        ensures
            s is Some == (self@[i as int] is Some),
            s matches Some(scalar) ==> scalar.wf() && Some(scalar.model()) == self@[i as int],
    {
        if self.is_valid(i) {
            Some(self.value(i))
        } else {
            None
        }
    }

    /// The `length` elements that start at `offset`, sharing the buffers of this
    /// array.
    pub fn slice(&self, offset: usize, length: usize) -> (a: MultiPointArray)
        requires
            self.wf(),
            offset + length <= self@.len(),
        ensures
            a.wf(),
            a.values() == self.values().subrange(offset as int, offset + length),
            a.validity_bits() == self.validity_bits().subrange(offset as int, offset + length),
            a@ == self@.subrange(offset as int, offset + length),
            a.spec_coords() == self.spec_coords(),
            a.spec_geom_offsets() == window(self.spec_geom_offsets(), offset as int, length as int),
            a.has_bitmap() <==> has_null(a.validity_bits()),
            offset == 0 && length == self@.len() ==> a@ == self@ && a.values() == self.values(),
            a.spec_coord_type() == self.spec_coord_type(),
            a.spec_width() == self.spec_width(),
            a.spec_metadata() == self.spec_metadata(),
    {
        proof {
            lemma_window_wf(self.geom_offsets@, offset as int, length as int);
            lemma_runs_window(self.coords@, self.geom_offsets@, offset as int, length as int);
        }
        let geom_offsets = self.geom_offsets.slice(offset, length);
        let validity = self.validity.slice(offset, length);
        let a = MultiPointArray {
            coords: self.coords.duplicate(),
            geom_offsets,
            validity,
            metadata: self.metadata.duplicate(),
        };
        assert(a.validity_bits() =~= self.validity_bits().subrange(offset as int, offset + length));
        assert(a@ =~= self@.subrange(offset as int, offset + length));
        assert(offset == 0 && length == self@.len() ==> a@ =~= self@ && a.values() =~= self.values());
        a
    }

    /// How much room a builder needs to take these elements over: the
    /// coordinates up to the last offset, and one run per element.
    pub fn buffer_lengths(&self) -> (c: MultiPointCapacity)
        requires
            self.wf(),
        ensures
            c.coord_capacity == self.spec_geom_offsets().last(),
            c.geom_capacity == self.values().len(),
    {
        MultiPointCapacity::new(self.geom_offsets.last(), self.geom_offsets.len())
    }

    /// The layout of the coordinates.
    pub fn coord_type(&self) -> (t: CoordType)
        ensures
            t == self.spec_coord_type(),
    {
        self.coords.coord_type()
    }

    /// The width of the offsets.
    pub fn width(&self) -> (w: OffsetWidth)
        ensures
            w == self.spec_width(),
    {
        self.geom_offsets.width()
    }

    /// The logical type of the array.
    pub fn data_type(&self) -> (t: GeoDataType)
        ensures
            t.spec_shape() == Some(Shape::MultiPoint),
            t.spec_width() == self.spec_width(),
            t.spec_coord_type() == Some(self.spec_coord_type()),
    {
        GeoDataType::of(Shape::MultiPoint, self.geom_offsets.width(), self.coords.coord_type())
    }

    /// The metadata of the array.
    pub fn metadata(&self) -> (m: &ArrayMetadata)
        ensures
            *m == self.spec_metadata(),
    {
        &self.metadata
    }

    /// A second handle on the validity of the elements.
    pub fn validity(&self) -> (v: Validity)
        requires
            self.wf(),
        ensures
            v.covers(self.values().len()),
            v.bits(self.values().len()) == self.validity_bits(),
            v.has_bitmap() == self.has_bitmap(),
    {
        self.validity.duplicate()
    }

    /// The coordinate buffer.
    pub fn coords(&self) -> (c: &CoordBuffer)
        requires
            self.wf(),
        ensures
            c.wf(),
            c@ == self.spec_coords(),
            c.spec_coord_type() == self.spec_coord_type(),
    {
        &self.coords
    }

    /// The offsets into the coordinate buffer.
    pub fn geom_offsets(&self) -> (o: &OffsetBuffer)
        requires
            self.wf(),
        ensures
            o.wf(),
            o@ == self.spec_geom_offsets(),
            o.spec_width() == self.spec_width(),
    {
        &self.geom_offsets
    }
}

/// A growing array of multi points.
pub struct MultiPointBuilder {
    coords: CoordBufferBuilder,
    geom_offsets: OffsetsBuilder,
    validity: ValidityBuilder,
    metadata: ArrayMetadata,
}

impl MultiPointBuilder {
    /// The offsets cover the coordinates exactly, and one validity bit has been
    /// appended per element.
    pub closed spec fn wf(&self) -> bool {
        &&& self.coords.wf()
        &&& level_wf(&self.geom_offsets, self.coords@.len())
        &&& self.validity@.len() == run_count(self.geom_offsets@)
        &&& self.coords@.len() == total_len(self.values())
    }

    /// The coordinates stored for each element pushed; none for an absent one.
    pub closed spec fn values(&self) -> Seq<Seq<Coord>> {
        runs(self.coords@, self.geom_offsets@)
    }

    /// Which of the elements pushed are present.
    pub closed spec fn validity_bits(&self) -> Seq<bool> {
        self.validity@
    }

    /// The layout of the coordinates.
    pub closed spec fn spec_coord_type(&self) -> CoordType {
        self.coords.spec_coord_type()
    }

    /// The width of the offsets.
    pub closed spec fn spec_width(&self) -> OffsetWidth {
        self.geom_offsets.spec_width()
    }

    /// The metadata that the finished array will carry.
    pub closed spec fn spec_metadata(&self) -> ArrayMetadata {
        self.metadata
    }

    /// The elements pushed so far as a finished array will show them.
    pub open spec fn view(&self) -> Seq<Option<Seq<Coord>>> {
        masked(self.values(), self.validity_bits())
    }

    /// Whether one more element of `coords` coordinates can be pushed: the
    /// coordinates pushed so far and the new ones together stay within what the
    /// offsets can hold.
    pub open spec fn fits(&self, coords: nat) -> bool {
        total_len(self.values()) + coords <= self.spec_width().limit()
    }

    /// A builder holds as many values as validity bits.
    pub proof fn lemma_lengths(&self)
        requires
            self.wf(),
        ensures
            self.values().len() == self.validity_bits().len(),
    {
    }

    /// What was pushed so far stays within what the offsets can hold.
    pub proof fn lemma_within_limit(&self)
        requires
            self.wf(),
        ensures
            total_len(self.values()) <= self.spec_width().limit(),
    {
    }

    /// An empty builder with room for `capacity`.
    pub fn with_capacity_and_options(
        width: OffsetWidth,
        capacity: MultiPointCapacity,
        coord_type: CoordType,
        metadata: ArrayMetadata,
    ) -> (b: MultiPointBuilder)
        ensures
            b.wf(),
            b.values() == Seq::<Seq<Coord>>::empty(),
            b.validity_bits() == Seq::<bool>::empty(),
            b.spec_coord_type() == coord_type,
            b.spec_width() == width,
            b.spec_metadata() == metadata,
    {
        let b = MultiPointBuilder {
            coords: CoordBufferBuilder::with_capacity(coord_type, capacity.coord_capacity),
            geom_offsets: OffsetsBuilder::with_capacity(width, capacity.geom_capacity),
            validity: ValidityBuilder::with_capacity(capacity.geom_capacity),
            metadata,
        };
        assert(b.values() =~= Seq::<Seq<Coord>>::empty());
        b
    }

    /// An empty builder with interleaved coordinates and no metadata.
    pub fn new(width: OffsetWidth) -> (b: MultiPointBuilder)
        ensures
            b.wf(),
            b.values() == Seq::<Seq<Coord>>::empty(),
            b.validity_bits() == Seq::<bool>::empty(),
            b.spec_coord_type() == CoordType::Interleaved,
            b.spec_width() == width,
    {
        MultiPointBuilder::with_capacity_and_options(
            width,
            MultiPointCapacity::new_empty(),
            CoordType::Interleaved,
            ArrayMetadata::new(),
        )
    }

    /// The layout of the coordinates.
    pub fn coord_type(&self) -> (t: CoordType)
        ensures
            t == self.spec_coord_type(),
    {
        self.coords.coord_type()
    }

    /// The width of the offsets.
    pub fn width(&self) -> (w: OffsetWidth)
        ensures
            w == self.spec_width(),
    {
        self.geom_offsets.width()
    }

    /// Makes room for `additional` more.
    pub fn reserve(&mut self, additional: MultiPointCapacity)
        ensures
            final(self).wf() == old(self).wf(),
            final(self).values() == old(self).values(),
            final(self).validity_bits() == old(self).validity_bits(),
            final(self).spec_coord_type() == old(self).spec_coord_type(),
            final(self).spec_width() == old(self).spec_width(),
            final(self).spec_metadata() == old(self).spec_metadata(),
    {
        self.coords.reserve(additional.coord_capacity);
        self.geom_offsets.reserve(additional.geom_capacity);
    }

    /// How much the builder holds: the coordinates and the elements pushed so far.
    pub fn buffer_lengths(&self) -> (c: MultiPointCapacity)
        requires
            self.wf(),
        ensures
            c.coord_capacity == total_len(self.values()),
            c.geom_capacity == self.values().len(),
    {
        MultiPointCapacity::new(self.coords.len(), self.geom_offsets.len())
    }

    /// The number of elements pushed so far.
    pub fn len(&self) -> (n: usize)
        requires
            self.wf(),
        ensures
            n == self.values().len(),
            n == self.validity_bits().len(),
            n < usize::MAX,
    {
        self.geom_offsets.len()
    }

    /// Appends an absent element: an empty run and an unset validity bit. The
    /// coordinate buffer does not grow.
    pub fn push_null(&mut self)
        requires
            old(self).wf(),
        ensures
            final(self).wf(),
            final(self).values() == old(self).values().push(Seq::<Coord>::empty()),
            final(self).validity_bits() == old(self).validity_bits().push(false),
            final(self).spec_coord_type() == old(self).spec_coord_type(),
            final(self).spec_width() == old(self).spec_width(),
            final(self).spec_metadata() == old(self).spec_metadata(),
    {
        let n = self.geom_offsets.len();
        let pushed = self.geom_offsets.try_push_usize(0);
        self.validity.append(false);
        proof {
            lemma_close_run(old(self).coords@, Seq::<Coord>::empty(), old(self).geom_offsets@);
            assert(old(self).coords@ + Seq::<Coord>::empty() =~= old(self).coords@);
            assert(self.values().drop_last() =~= old(self).values());
        }
    }

    /// Appends one element: the multi point `value`, or an absent element for
    /// `None`. Where the points no longer fit the offsets' width the push fails
    /// with [`GeoArrowError::IndexOverflow`] and changes nothing.
    #[verifier::rlimit(40)]
    pub fn push_multi_point<M: MultiPointTrait>(&mut self, value: Option<&M>) -> (r: Result<
        (),
        GeoArrowError,
    >)
        requires
            old(self).wf(),
            value matches Some(points) ==> points.wf(),
        ensures
            final(self).spec_coord_type() == old(self).spec_coord_type(),
            final(self).spec_width() == old(self).spec_width(),
            final(self).spec_metadata() == old(self).spec_metadata(),
            final(self).wf(),
            match value {
                Some(points) => if old(self).fits(points.model().len()) {
                    &&& r is Ok
                    &&& final(self).values() == old(self).values().push(points.model())
                    &&& final(self).validity_bits() == old(self).validity_bits().push(true)
                } else {
                    &&& r == Err::<(), GeoArrowError>(GeoArrowError::IndexOverflow)
                    &&& *final(self) == *old(self)
                },
                None => {
                    &&& r is Ok
                    &&& final(self).values() == old(self).values().push(Seq::<Coord>::empty())
                    &&& final(self).validity_bits() == old(self).validity_bits().push(false)
                },
            },
    {
        match value {
            Some(points) => {
                let n = self.geom_offsets.len();
                if !self.geom_offsets.fits(points.num_points()) {
                    return Err(GeoArrowError::IndexOverflow);
                }
                push_multi_point_run(&mut self.coords, &mut self.geom_offsets, points);
                self.validity.append(true);
                proof {
                    let before = old(self).values();
                    let m = points.model();
                    assert(self.values() == before.push(m));
                    assert(self.values().drop_last() =~= before);
                    assert(self.values().last() == m);
                    assert(total_len(self.values()) == total_len(before) + m.len());
                }
                Ok(())
            },
            None => {
                self.push_null();
                Ok(())
            },
        }
    }

    /// Appends one element: the point `value` as a multi point of one point, or
    /// an absent element for `None`. Where one more point no longer fits the
    /// offsets' width the push fails with [`GeoArrowError::IndexOverflow`] and
    /// changes nothing.
    #[verifier::rlimit(40)]
    pub fn push_point<P: PointTrait>(&mut self, value: Option<&P>) -> (r: Result<
        (),
        GeoArrowError,
    >)
        requires
            old(self).wf(),
            value matches Some(point) ==> point.wf(),
        ensures
            final(self).spec_coord_type() == old(self).spec_coord_type(),
            final(self).spec_width() == old(self).spec_width(),
            final(self).spec_metadata() == old(self).spec_metadata(),
            final(self).wf(),
            match value {
                Some(point) => if old(self).fits(1) {
                    &&& r is Ok
                    &&& final(self).values() == old(self).values().push(seq![point.model()])
                    &&& final(self).validity_bits() == old(self).validity_bits().push(true)
                } else {
                    &&& r == Err::<(), GeoArrowError>(GeoArrowError::IndexOverflow)
                    &&& *final(self) == *old(self)
                },
                None => {
                    &&& r is Ok
                    &&& final(self).values() == old(self).values().push(Seq::<Coord>::empty())
                    &&& final(self).validity_bits() == old(self).validity_bits().push(false)
                },
            },
    {
        match value {
            Some(point) => {
                let n = self.geom_offsets.len();
                if !self.geom_offsets.fits(1) {
                    return Err(GeoArrowError::IndexOverflow);
                }
                let c = Coord { x: point.x(), y: point.y() };
                self.coords.push_coord(c);
                let pushed = self.geom_offsets.try_push_usize(1);
                self.validity.append(true);
                proof {
                    lemma_close_run(old(self).coords@, seq![c], old(self).geom_offsets@);
                    assert(old(self).coords@ + seq![c] =~= old(self).coords@.push(c));
                    assert(self.values().drop_last() =~= old(self).values());
                }
                Ok(())
            },
            None => {
                self.push_null();
                Ok(())
            },
        }
    }


    /// The elements pushed, as an immutable array. Its offsets start at zero and
    /// end at the number of coordinates pushed; it holds a validity bitmap only
    /// where some element is absent.
    pub fn finish(self) -> (a: MultiPointArray)
        requires
            self.wf(),
        ensures
            a.wf(),
            a.values() == self.values(),
            a.validity_bits() == self.validity_bits(),
            a@ == self.view(),
            a.compact(),
            covers_exactly(a.spec_geom_offsets(), a.spec_coords().len()),
            a.spec_coords().len() == total_len(self.values()),
            a.spec_coord_type() == self.spec_coord_type(),
            a.spec_width() == self.spec_width(),
            a.spec_metadata() == self.spec_metadata(),
    {
        let coords = self.coords.finish();
        let geom_offsets = self.geom_offsets.finish();
        let validity = self.validity.finish();
        MultiPointArray::new(coords, geom_offsets, validity, self.metadata)
    }
}

/// What `geoms` stand for, element by element: the value of a present element,
/// nothing for an absent one.
pub open spec fn multi_point_models<G: MultiPointTrait>(geoms: Seq<Option<G>>) -> Seq<Seq<Coord>> {
    Seq::new(
        geoms.len(),
        |i: int|
            match geoms[i] {
                Some(g) => g.model(),
                None => Seq::empty(),
            },
    )
}

/// Which of `geoms` are present.
pub open spec fn multi_point_presence<G: MultiPointTrait>(geoms: Seq<Option<G>>) -> Seq<bool> {
    Seq::new(geoms.len(), |i: int| geoms[i] is Some)
}

/// Every present element of `geoms` can be read.
pub open spec fn multi_points_wf<G: MultiPointTrait>(geoms: Seq<Option<G>>) -> bool {
    forall|i: int| 0 <= i < geoms.len() ==> (#[trigger] geoms[i] matches Some(g) ==> g.wf())
}

impl MultiPointCapacity {
    /// The first pass over the input: how much room `geoms` need, or `None`
    /// where the machine cannot count that much.
    pub fn from_multi_points<G: MultiPointTrait>(geoms: &[Option<G>]) -> (r: Option<MultiPointCapacity>)
        requires
            multi_points_wf(geoms@),
        ensures
            (total_len(multi_point_models(geoms@)) <= usize::MAX) ==> {
                &&& r matches Some(c)
                &&& c.coord_capacity == total_len(multi_point_models(geoms@))
                &&& c.geom_capacity == geoms@.len()
            },
            !(total_len(multi_point_models(geoms@)) <= usize::MAX) ==> r is None,
    {
        let ghost target = multi_point_models(geoms@);
        let n = geoms.len();
        let mut coords: usize = 0;
        let mut i: usize = 0;
        proof {
            assert(target.take(0) =~= Seq::empty());
            lemma_total_len_empty::<Coord>();
        }
        while i < n
            invariant
                multi_points_wf(geoms@),
                n == geoms@.len(),
                target == multi_point_models(geoms@),
                i <= n,
                coords == total_len(target.take(i as int)),
            decreases n - i,
        {
            proof {
                lemma_total_len_step(target, i as int);
                lemma_total_len_prefix(target, i + 1);
                lemma_total_len_empty::<Coord>();
            }
            match &geoms[i] {
                Some(g) => {
                    coords = match coords.checked_add(g.num_points()) {
                        Some(sum) => sum,
                        None => {
                            return None;
                        },
                    };
                },
                None => {},
            }
            i += 1;
        }
        proof {
            assert(target.take(n as int) =~= target);
        }
        Some(MultiPointCapacity::new(coords, n))
    }
}

impl MultiPointBuilder {
    /// A builder filled with `geoms`, in two passes: the first counts what the
    /// buffers must hold, the second fills them. Where the elements do not fit
    /// offsets of `width` the result is [`GeoArrowError::IndexOverflow`].
    pub fn from_nullable_multi_points<G: MultiPointTrait>(
        geoms: &[Option<G>],
        width: OffsetWidth,
        coord_type: CoordType,
        metadata: ArrayMetadata,
    ) -> (r: Result<MultiPointBuilder, GeoArrowError>)
        requires
            multi_points_wf(geoms@),
        ensures
            ({
                let target = multi_point_models(geoms@);
                if total_len(target) <= width.limit() {
                    &&& r matches Ok(b)
                    &&& b.wf()
                    &&& b.values() == target
                    &&& b.validity_bits() == multi_point_presence(geoms@)
                    &&& b.spec_width() == width
                    &&& b.spec_coord_type() == coord_type
                    &&& b.spec_metadata() == metadata
                } else {
                    r == Err::<MultiPointBuilder, GeoArrowError>(GeoArrowError::IndexOverflow)
                }
            }),
    {
        let ghost target = multi_point_models(geoms@);
        let ghost bits = multi_point_presence(geoms@);
        let capacity = match MultiPointCapacity::from_multi_points(geoms) {
            Some(c) => c,
            None => {
                return Err(GeoArrowError::IndexOverflow);
            },
        };
        let mut builder = MultiPointBuilder::with_capacity_and_options(
            width,
            capacity,
            coord_type,
            metadata,
        );
        let n = geoms.len();
        let mut i: usize = 0;
        proof {
            assert(target.take(0) =~= Seq::<Seq<Coord>>::empty());
            assert(bits.take(0) =~= Seq::<bool>::empty());
        }
        while i < n
            invariant
                multi_points_wf(geoms@),
                n == geoms@.len(),
                target == multi_point_models(geoms@),
                bits == multi_point_presence(geoms@),
                i <= n,
                builder.wf(),
                builder.values() == target.take(i as int),
                builder.validity_bits() == bits.take(i as int),
                builder.spec_width() == width,
                builder.spec_coord_type() == coord_type,
                builder.spec_metadata() == metadata,
            decreases n - i,
        {
            proof {
                assert(target.take(i + 1) =~= target.take(i as int).push(target[i as int]));
                assert(bits.take(i + 1) =~= bits.take(i as int).push(bits[i as int]));
                lemma_total_len_step(target, i as int);
                lemma_total_len_prefix(target, i + 1);
                lemma_total_len_empty::<Coord>();
            }
            let pushed = match &geoms[i] {
                Some(g) => builder.push_multi_point(Some(g)),
                None => builder.push_multi_point::<G>(None),
            };
            match pushed {
                Ok(()) => {},
                Err(e) => {
                    return Err(e);
                },
            }
            i += 1;
        }
        proof {
            assert(target.take(n as int) =~= target);
            assert(bits.take(n as int) =~= bits);
            builder.lemma_within_limit();
        }
        Ok(builder)
    }
}

} // verus!
