//! Arrays of points and their builder.

use vstd::prelude::*;
use crate::array::metadata::ArrayMetadata;
use crate::coord::{Coord, CoordBuffer, CoordBufferBuilder, CoordType};
use crate::datatypes::GeoDataType;
use crate::error::GeoArrowError;
use crate::geo_traits::PointTrait;
use crate::scalar::point::Point;
use crate::validity::{Validity, ValidityBuilder, masked, has_null};

verus! {

/// An immutable array of points: one coordinate per element and an optional
/// validity bitmap.
pub struct PointArray {
    coords: CoordBuffer,
    validity: Validity,
    metadata: ArrayMetadata,
}

impl View for PointArray {
    type V = Seq<Option<Coord>>;

    open spec fn view(&self) -> Seq<Option<Coord>> {
        masked(self.values(), self.validity_bits())
    }
}

impl PointArray {
    /// The coordinate buffer is well formed and the validity, if held, has one
    /// bit per coordinate.
    pub closed spec fn wf(&self) -> bool {
        self.coords.wf() && self.validity.covers(self.coords@.len())
    }

    /// The coordinate stored for each element, absent elements included.
    pub closed spec fn values(&self) -> Seq<Coord> {
        self.coords@
    }

    /// Which elements are present.
    pub closed spec fn validity_bits(&self) -> Seq<bool> {
        self.validity.bits(self.coords@.len())
    }

    /// Whether a validity bitmap is held.
    pub closed spec fn has_bitmap(&self) -> bool {
        self.validity.has_bitmap()
    }

    /// The array holds a validity bitmap only where some element is absent.
    pub open spec fn compact(&self) -> bool {
        self.has_bitmap() <==> has_null(self.validity_bits())
    }

    /// The layout of the coordinates.
    pub closed spec fn spec_coord_type(&self) -> CoordType {
        self.coords.spec_coord_type()
    }

    /// The metadata of the array.
    pub closed spec fn spec_metadata(&self) -> ArrayMetadata {
        self.metadata
    }

    /// An array over `coords`, with `validity` saying which elements are present.
    pub fn new(coords: CoordBuffer, validity: Validity, metadata: ArrayMetadata) -> (a: PointArray)
        requires
            coords.wf(),
            validity.covers(coords@.len()),
        ensures
            a.wf(),
            a.values() == coords@,
            a.validity_bits() == validity.bits(coords@.len()),
            a.has_bitmap() == validity.has_bitmap(),
            a.spec_coord_type() == coords.spec_coord_type(),
            a.spec_metadata() == metadata,
    {
        PointArray { coords, validity, metadata }
    }

    /// An array over `coords`, or [`GeoArrowError::ShapeMismatch`] where the
    /// coordinate buffer is malformed or `validity` holds a bitmap of another
    /// length.
    pub fn try_new(coords: CoordBuffer, validity: Validity, metadata: ArrayMetadata) -> (r: Result<
        PointArray,
        GeoArrowError,
    >)
        ensures
            coords.wf() && validity.covers(coords@.len()) ==> r is Ok,
            !(coords.wf() && validity.covers(coords@.len())) ==> r == Err::<
                PointArray,
                GeoArrowError,
            >(GeoArrowError::ShapeMismatch),
            r matches Ok(a) ==> {
                &&& a.wf()
                &&& a.values() == coords@
                &&& a.validity_bits() == validity.bits(coords@.len())
                &&& a.spec_coord_type() == coords.spec_coord_type()
                &&& a.spec_metadata() == metadata
            },
    {
        if !coords.check() {
            return Err(GeoArrowError::ShapeMismatch);
        }
        match validity.bitmap_len() {
            Some(n) => {
                if n != coords.len() {
                    return Err(GeoArrowError::ShapeMismatch);
                }
            },
            None => {},
        }
        Ok(PointArray::new(coords, validity, metadata))
    }

    /// The number of elements.
    pub fn len(&self) -> (n: usize)
        requires
            self.wf(),
        ensures
            n == self@.len(),
            n == self.values().len(),
            n == self.validity_bits().len(),
    {
        self.coords.len()
    }

    /// Whether element `i` is present.
    pub fn is_valid(&self, i: usize) -> (b: bool)
        requires
            self.wf(),
            i < self@.len(),
        ensures
            b == self.validity_bits()[i as int],
            b == (self@[i as int] is Some),
    {
        self.validity.is_valid(i)
    }

    /// Whether element `i` is absent.
    pub fn is_null(&self, i: usize) -> (b: bool)
        requires
            self.wf(),
            i < self@.len(),
        ensures
            b == !self.validity_bits()[i as int],
            b == (self@[i as int] is None),
    {
        !self.validity.is_valid(i)
    }

    /// The scalar at `i`, whether or not the element is present.
    pub fn value(&self, i: usize) -> (p: Point<'_>)
        requires
            self.wf(),
            i < self@.len(),
        ensures
            p.wf(),
            p.model() == self.values()[i as int],
    {
        Point::new(&self.coords, i)
    }

    /// The scalar at `i`, or `None` where the element is absent.
    pub fn get(&self, i: usize) -> (p: Option<Point<'_>>)
        requires
            self.wf(),
            i < self@.len(),
        ensures
            p is Some == (self@[i as int] is Some),
            p matches Some(point) ==> point.wf() && Some(point.model()) == self@[i as int],
    {
        if self.is_valid(i) {
            Some(self.value(i))
        } else {
            None
        }
    }

    /// The `length` elements that start at `offset`, sharing the buffers of this
    /// array.
    pub fn slice(&self, offset: usize, length: usize) -> (a: PointArray)
        requires
            self.wf(),
            offset + length <= self@.len(),
        ensures
            a.wf(),
            a.values() == self.values().subrange(offset as int, offset + length),
            a.validity_bits() == self.validity_bits().subrange(offset as int, offset + length),
            a@ == self@.subrange(offset as int, offset + length),
            a.has_bitmap() <==> has_null(a.validity_bits()),
            offset == 0 && length == self@.len() ==> a@ == self@ && a.values() == self.values(),
            a.spec_coord_type() == self.spec_coord_type(),
            a.spec_metadata() == self.spec_metadata(),
    {
        let coords = self.coords.slice(offset, length);
        let validity = self.validity.slice(offset, length);
        let a = PointArray { coords, validity, metadata: self.metadata.duplicate() };
        assert(a.validity_bits() =~= self.validity_bits().subrange(offset as int, offset + length));
        assert(a@ =~= self@.subrange(offset as int, offset + length));
        assert(offset == 0 && length == self@.len() ==> a@ =~= self@ && a.values() =~= self.values());
        a
    }

    /// The number of coordinates held: what a builder must reserve to take these
    /// elements over.
    pub fn buffer_lengths(&self) -> (n: usize)
        requires
            self.wf(),
        ensures
            n == self.values().len(),
    {
        self.coords.len()
    }

    /// The layout of the coordinates.
    pub fn coord_type(&self) -> (t: CoordType)
        ensures
            t == self.spec_coord_type(),
    {
        self.coords.coord_type()
    }

    /// The logical type of the array.
    pub fn data_type(&self) -> (t: GeoDataType)
        ensures
            t == GeoDataType::Point(self.spec_coord_type()),
    {
        GeoDataType::Point(self.coords.coord_type())
    }

    /// The metadata of the array.
    pub fn metadata(&self) -> (m: &ArrayMetadata)
        ensures
            *m == self.spec_metadata(),
    {
        &self.metadata
    }

    /// A second handle on the validity of the elements.
    pub fn validity(&self) -> (v: Validity)
        requires
            self.wf(),
        ensures
            v.covers(self.values().len()),
            v.bits(self.values().len()) == self.validity_bits(),
            v.has_bitmap() == self.has_bitmap(),
    {
        self.validity.duplicate()
    }

    /// The coordinate buffer.
    pub fn coords(&self) -> (c: &CoordBuffer)
        requires
            self.wf(),
        ensures
            c.wf(),
            c@ == self.values(),
            c.spec_coord_type() == self.spec_coord_type(),
    {
        &self.coords
    }
}

/// A growing array of points.
pub struct PointBuilder {
    coords: CoordBufferBuilder,
    validity: ValidityBuilder,
    metadata: ArrayMetadata,
}

impl PointBuilder {
    /// One validity bit has been appended per coordinate.
    pub closed spec fn wf(&self) -> bool {
        self.coords.wf() && self.validity@.len() == self.coords@.len()
    }

    /// The coordinate stored for each element pushed, absent elements included.
    pub closed spec fn values(&self) -> Seq<Coord> {
        self.coords@
    }

    /// Which of the elements pushed are present.
    pub closed spec fn validity_bits(&self) -> Seq<bool> {
        self.validity@
    }

    /// The layout of the coordinates.
    pub closed spec fn spec_coord_type(&self) -> CoordType {
        self.coords.spec_coord_type()
    }

    /// The metadata that the finished array will carry.
    pub closed spec fn spec_metadata(&self) -> ArrayMetadata {
        self.metadata
    }

    /// The elements pushed so far as a finished array will show them.
    pub open spec fn view(&self) -> Seq<Option<Coord>> {
        masked(self.values(), self.validity_bits())
    }

    /// A builder holds as many values as validity bits.
    pub proof fn lemma_lengths(&self)
        requires
            self.wf(),
        ensures
            self.values().len() == self.validity_bits().len(),
    {
    }

    /// An empty builder with room for `capacity` points.
    pub fn with_capacity_and_options(
        capacity: usize,
        coord_type: CoordType,
        metadata: ArrayMetadata,
    ) -> (b: PointBuilder)
        ensures
            b.wf(),
            b.values() == Seq::<Coord>::empty(),
            b.validity_bits() == Seq::<bool>::empty(),
            b.spec_coord_type() == coord_type,
            b.spec_metadata() == metadata,
    {
        PointBuilder {
            coords: CoordBufferBuilder::with_capacity(coord_type, capacity),
            validity: ValidityBuilder::with_capacity(capacity),
            metadata,
        }
    }

    /// An empty builder with interleaved coordinates and no metadata.
    pub fn new() -> (b: PointBuilder)
        ensures
            b.wf(),
            b.values() == Seq::<Coord>::empty(),
            b.validity_bits() == Seq::<bool>::empty(),
            b.spec_coord_type() == CoordType::Interleaved,
    {
        PointBuilder::with_capacity_and_options(0, CoordType::Interleaved, ArrayMetadata::new())
    }

    /// The layout of the coordinates.
    pub fn coord_type(&self) -> (t: CoordType)
        ensures
            t == self.spec_coord_type(),
    {
        self.coords.coord_type()
    }

    /// Makes room for `additional` more points.
    pub fn reserve(&mut self, additional: usize)
        ensures
            final(self).wf() == old(self).wf(),
            final(self).values() == old(self).values(),
            final(self).validity_bits() == old(self).validity_bits(),
            final(self).spec_coord_type() == old(self).spec_coord_type(),
            final(self).spec_metadata() == old(self).spec_metadata(),
    {
        self.coords.reserve(additional);
    }

    /// The number of elements pushed so far.
    pub fn len(&self) -> (n: usize)
        requires
            self.wf(),
        ensures
            n == self.values().len(),
            n == self.validity_bits().len(),
    {
        self.coords.len()
    }

    /// Appends an absent element. Its slot in the coordinate buffer is filled with
    /// zero bits, which no reader sees.
    pub fn push_null(&mut self)
        requires
            old(self).wf(),
            old(self).values().len() < usize::MAX,
        ensures
            final(self).wf(),
            final(self).values() == old(self).values().push(Coord { x: 0, y: 0 }),
            final(self).validity_bits() == old(self).validity_bits().push(false),
            final(self).spec_coord_type() == old(self).spec_coord_type(),
            final(self).spec_metadata() == old(self).spec_metadata(),
    {
        self.coords.push_coord(Coord { x: 0, y: 0 });
        self.validity.append(false);
    }

    /// Appends one element: the point `value`, or an absent element for `None`.
    pub fn push_point<P: PointTrait>(&mut self, value: Option<&P>)
        requires
            old(self).wf(),
            old(self).values().len() < usize::MAX,
            value matches Some(p) ==> p.wf(),
        ensures
            final(self).wf(),
            final(self).values() == old(self).values().push(
                match value {
                    Some(p) => p.model(),
                    None => Coord { x: 0, y: 0 },
                },
            ),
            final(self).validity_bits() == old(self).validity_bits().push(value is Some),
            final(self).spec_coord_type() == old(self).spec_coord_type(),
            final(self).spec_metadata() == old(self).spec_metadata(),
    {
        match value {
            Some(point) => {
                self.coords.push_coord(Coord { x: point.x(), y: point.y() });
                self.validity.append(true);
            },
            None => self.push_null(),
        }
    }

    /// The elements pushed, as an immutable array. The array holds a validity
    /// bitmap only where some element is absent.
    pub fn finish(self) -> (a: PointArray)
        requires
            self.wf(),
        ensures
            a.wf(),
            a.values() == self.values(),
            a.validity_bits() == self.validity_bits(),
            a@ == self.view(),
            a.compact(),
            a.spec_coord_type() == self.spec_coord_type(),
            a.spec_metadata() == self.spec_metadata(),
    {
        let coords = self.coords.finish();
        let validity = self.validity.finish();
        PointArray::new(coords, validity, self.metadata)
    }
}

} // verus!
