//! Arrays of well-known binary and their builder.

use vstd::prelude::*;
use vstd::slice::slice_subrange;
use crate::array::metadata::ArrayMetadata;
use crate::array::util::{lemma_close_run, level_wf, total_len};
use crate::buffer::{ByteBuffer, byte_values};
use crate::datatypes::GeoDataType;
use crate::error::GeoArrowError;
use crate::geometry::{GeometryModel, GeometryTrait};
use crate::io::wkb::common::Endianness;
use crate::io::wkb::writer::{geometry_bytes, geometry_encodable, geometry_ok, write_geometry};
use crate::offsets::{
    OffsetBuffer, OffsetWidth, OffsetsBuilder, covers, covers_exactly, lemma_runs_window,
    lemma_window_wf, run_count, runs, window,
};
use crate::scalar::binary::WKB;
use crate::validity::{Validity, ValidityBuilder, has_null, masked};

verus! {

/// An immutable array of geometries held as well-known binary: the bytes of all
/// values one after the other, offsets that cut them into one run per element,
/// and an optional validity bitmap.
pub struct WKBArray {
    bytes: ByteBuffer,
    offsets: OffsetBuffer,
    validity: Validity,
    metadata: ArrayMetadata,
}

impl View for WKBArray {
    type V = Seq<Option<Seq<u8>>>;

    open spec fn view(&self) -> Seq<Option<Seq<u8>>> {
        masked(self.values(), self.validity_bits())
    }
}

impl WKBArray {
    /// The offsets are well formed and stay inside the bytes, and the validity,
    /// if held, has one bit per element.
    pub closed spec fn wf(&self) -> bool {
        &&& self.offsets.wf()
        &&& covers(self.offsets@, byte_values(self.bytes).len())
        &&& self.validity.covers(run_count(self.offsets@))
    }

    /// The bytes stored for each element, absent elements included.
    pub closed spec fn values(&self) -> Seq<Seq<u8>> {
        runs(byte_values(self.bytes), self.offsets@)
    }

    /// Which elements are present.
    pub closed spec fn validity_bits(&self) -> Seq<bool> {
        self.validity.bits(run_count(self.offsets@))
    }

    /// The bytes of all elements, one after the other.
    pub closed spec fn spec_bytes(&self) -> Seq<u8> {
        byte_values(self.bytes)
    }

    /// The offsets into the bytes, one run per element.
    pub closed spec fn spec_offsets(&self) -> Seq<int> {
        self.offsets@
    }

    /// Whether a validity bitmap is held.
    pub closed spec fn has_bitmap(&self) -> bool {
        self.validity.has_bitmap()
    }

    /// The array holds its values and nothing beside them: the offsets start at
    /// zero and end where the bytes end, and a validity bitmap is held only where
    /// some element is absent.
    pub open spec fn compact(&self) -> bool {
        &&& covers_exactly(self.spec_offsets(), self.spec_bytes().len())
        &&& self.has_bitmap() <==> has_null(self.validity_bits())
    }

    /// What the buffers mean: the values are the runs of the bytes.
    pub proof fn lemma_values(&self)
        ensures
            self.values() == runs(self.spec_bytes(), self.spec_offsets()),
            self.wf() ==> covers(self.spec_offsets(), self.spec_bytes().len()),
    {
    }

    /// The width of the offsets.
    pub closed spec fn spec_width(&self) -> OffsetWidth {
        self.offsets.spec_width()
    }

    /// The metadata of the array.
    pub closed spec fn spec_metadata(&self) -> ArrayMetadata {
        self.metadata
    }

    /// An array of the values that `offsets` cut out of `bytes`, or
    /// [`GeoArrowError::ShapeMismatch`] where the offsets are malformed or point
    /// beyond the bytes, or `validity` holds a bitmap of another length than the
    /// offsets delimit runs.
    pub fn try_new(
        bytes: Vec<u8>,
        offsets: OffsetBuffer,
        validity: Validity,
        metadata: ArrayMetadata,
    ) -> (r: Result<WKBArray, GeoArrowError>)
        ensures
            WKBArray::parts_fit(bytes@, offsets, validity) ==> r is Ok,
            !WKBArray::parts_fit(bytes@, offsets, validity) ==> r == Err::<WKBArray, GeoArrowError>(
                GeoArrowError::ShapeMismatch,
            ),
            r matches Ok(a) ==> {
                &&& a.wf()
                &&& a.values() == runs(bytes@, offsets@)
                &&& a.validity_bits() == validity.bits(run_count(offsets@))
                &&& a.has_bitmap() == validity.has_bitmap()
                &&& a.spec_bytes() == bytes@
                &&& a.spec_offsets() == offsets@
                &&& a.spec_width() == offsets.spec_width()
                &&& a.spec_metadata() == metadata
            },
    {
        if !offsets.check() {
            return Err(GeoArrowError::ShapeMismatch);
        }
        if offsets.last() > bytes.len() {
            return Err(GeoArrowError::ShapeMismatch);
        }
        match validity.bitmap_len() {
            Some(n) => {
                if n != offsets.len() {
                    return Err(GeoArrowError::ShapeMismatch);
                }
            },
            None => {},
        }
        Ok(WKBArray { bytes: ByteBuffer::from_vec(bytes), offsets, validity, metadata })
    }

    /// The parts can make an array.
    pub open spec fn parts_fit(bytes: Seq<u8>, offsets: OffsetBuffer, validity: Validity) -> bool {
        &&& offsets.wf()
        &&& covers(offsets@, bytes.len())
        &&& validity.covers(run_count(offsets@))
    }

    /// The number of elements.
    pub fn len(&self) -> (n: usize)
        requires
            self.wf(),
        ensures
            n == self@.len(),
            n == self.values().len(),
            n == self.validity_bits().len(),
    {
        self.offsets.len()
    }

    /// Whether element `i` is present.
    pub fn is_valid(&self, i: usize) -> (b: bool)
        requires
            self.wf(),
            i < self@.len(),
        ensures
            b == self.validity_bits()[i as int],
            b == (self@[i as int] is Some),
    {
        self.validity.is_valid(i)
    }

    /// Whether element `i` is absent.
    pub fn is_null(&self, i: usize) -> (b: bool)
        requires
            self.wf(),
            i < self@.len(),
        ensures
            b == !self.validity_bits()[i as int],
            b == (self@[i as int] is None),
    {
        !self.validity.is_valid(i)
    }

    /// The bytes of element `i`.
    pub fn bytes_at(&self, i: usize) -> (bytes: &[u8])
        requires
            self.wf(),
            i < self.values().len(),
        ensures
            bytes@ == self.values()[i as int],
    {
        let (start, end) = self.offsets.start_end(i);
        proof {
            assert(self.offsets@[i + 1] <= self.offsets@.last());
        }
        slice_subrange(self.bytes.as_slice(), start, end)
    }

    /// The scalar at `i`, whether or not the element is present.
    pub fn value(&self, i: usize) -> (w: WKB<'_>)
        requires
            self.wf(),
            i < self@.len(),
        ensures
            w.wf(),
            w.model() == self.values()[i as int],
    {
        WKB::new(self, i)
    }

    /// The `length` elements that start at `offset`, sharing the buffers of this
    /// array.
    pub fn slice(&self, offset: usize, length: usize) -> (a: WKBArray)
        requires
            self.wf(),
            offset + length <= self@.len(),
        ensures
            a.wf(),
            a.values() == self.values().subrange(offset as int, offset + length),
            a.validity_bits() == self.validity_bits().subrange(offset as int, offset + length),
            a@ == self@.subrange(offset as int, offset + length),
            a.spec_bytes() == self.spec_bytes(),
            a.spec_offsets() == window(self.spec_offsets(), offset as int, length as int),
            a.has_bitmap() <==> has_null(a.validity_bits()),
            offset == 0 && length == self@.len() ==> a@ == self@ && a.values() == self.values(),
            a.spec_width() == self.spec_width(),
            a.spec_metadata() == self.spec_metadata(),
    {
        proof {
            lemma_window_wf(self.offsets@, offset as int, length as int);
            lemma_runs_window(byte_values(self.bytes), self.offsets@, offset as int, length as int);
        }
        let offsets = self.offsets.slice(offset, length);
        let validity = self.validity.slice(offset, length);
        let a = WKBArray {
            bytes: self.bytes.duplicate(),
            offsets,
            validity,
            metadata: self.metadata.duplicate(),
        };
        assert(a.validity_bits() =~= self.validity_bits().subrange(offset as int, offset + length));
        assert(a@ =~= self@.subrange(offset as int, offset + length));
        assert(offset == 0 && length == self@.len() ==> a@ =~= self@ && a.values() =~= self.values());
        a
    }

    /// The width of the offsets.
    pub fn width(&self) -> (w: OffsetWidth)
        ensures
            w == self.spec_width(),
    {
        self.offsets.width()
    }

    /// The logical type of the array.
    pub fn data_type(&self) -> (t: GeoDataType)
        ensures
            t == match self.spec_width() {
                OffsetWidth::Small => GeoDataType::WKB,
                OffsetWidth::Large => GeoDataType::LargeWKB,
            },
    {
        match self.offsets.width() {
            OffsetWidth::Small => GeoDataType::WKB,
            OffsetWidth::Large => GeoDataType::LargeWKB,
        }
    }

    /// The metadata of the array.
    pub fn metadata(&self) -> (m: &ArrayMetadata)
        ensures
            *m == self.spec_metadata(),
    {
        &self.metadata
    }
}

/// A growing array of well-known binary.
pub struct WKBBuilder {
    bytes: Vec<u8>,
    offsets: OffsetsBuilder,
    validity: ValidityBuilder,
    metadata: ArrayMetadata,
}

impl WKBBuilder {
    /// The offsets cover the bytes exactly, and one validity bit has been
    /// appended per element.
    pub closed spec fn wf(&self) -> bool {
        &&& level_wf(&self.offsets, self.bytes@.len())
        &&& self.validity@.len() == run_count(self.offsets@)
    }

    /// The bytes stored for each element pushed; none for an absent one.
    pub closed spec fn values(&self) -> Seq<Seq<u8>> {
        runs(self.bytes@, self.offsets@)
    }

    /// Which of the elements pushed are present.
    pub closed spec fn validity_bits(&self) -> Seq<bool> {
        self.validity@
    }

    /// The number of bytes pushed so far.
    pub closed spec fn byte_count(&self) -> nat {
        self.bytes@.len()
    }

    /// The width of the offsets.
    pub closed spec fn spec_width(&self) -> OffsetWidth {
        self.offsets.spec_width()
    }

    /// The metadata that the finished array will carry.
    pub closed spec fn spec_metadata(&self) -> ArrayMetadata {
        self.metadata
    }

    /// Whether a value of `bytes` bytes can still be pushed.
    pub open spec fn fits(&self, bytes: nat) -> bool {
        self.byte_count() + bytes <= self.spec_width().limit()
    }

    /// An empty builder.
    pub fn new(width: OffsetWidth, metadata: ArrayMetadata) -> (b: WKBBuilder)
        ensures
            b.wf(),
            b.values() == Seq::<Seq<u8>>::empty(),
            b.validity_bits() == Seq::<bool>::empty(),
            b.byte_count() == 0,
            b.spec_width() == width,
            b.spec_metadata() == metadata,
    {
        let b = WKBBuilder {
            bytes: Vec::new(),
            offsets: OffsetsBuilder::new(width),
            validity: ValidityBuilder::with_capacity(0),
            metadata,
        };
        assert(b.values() =~= Seq::<Seq<u8>>::empty());
        b
    }

    /// The number of elements pushed so far.
    pub fn len(&self) -> (n: usize)
        requires
            self.wf(),
        ensures
            n == self.values().len(),
            n == self.validity_bits().len(),
    {
        self.offsets.len()
    }

    /// Appends an absent element: an empty run and an unset validity bit.
    pub fn push_null(&mut self)
        requires
            old(self).wf(),
        ensures
            final(self).wf(),
            final(self).values() == old(self).values().push(Seq::<u8>::empty()),
            final(self).validity_bits() == old(self).validity_bits().push(false),
            final(self).byte_count() == old(self).byte_count(),
            final(self).spec_width() == old(self).spec_width(),
            final(self).spec_metadata() == old(self).spec_metadata(),
    {
        let n = self.offsets.len();
        let pushed = self.offsets.try_push_usize(0);
        self.validity.append(false);
        proof {
            lemma_close_run(old(self).bytes@, Seq::<u8>::empty(), old(self).offsets@);
            assert(old(self).bytes@ + Seq::<u8>::empty() =~= old(self).bytes@);
        }
    }

    /// Appends one element: the geometry `value` as little-endian well-known
    /// binary, or an absent element for `None`. Where the geometry cannot be
    /// written, or its bytes no longer fit the offsets' width, the push fails with
    /// [`GeoArrowError::IndexOverflow`] and the values are as before.
    pub fn push_geometry<G: GeometryTrait>(&mut self, value: Option<&G>) -> (r: Result<
        (),
        GeoArrowError,
    >)
        requires
            old(self).wf(),
            value matches Some(g) ==> g.wf(),
        ensures
            final(self).wf(),
            final(self).spec_width() == old(self).spec_width(),
            final(self).spec_metadata() == old(self).spec_metadata(),
            match value {
                Some(g) => {
                    let bytes = geometry_bytes(g.model(), Endianness::LittleEndian);
                    if geometry_ok(g.model()) && old(self).fits(bytes.len()) {
                        &&& r is Ok
                        &&& final(self).values() == old(self).values().push(bytes)
                        &&& final(self).validity_bits() == old(self).validity_bits().push(true)
                        &&& final(self).byte_count() == old(self).byte_count() + bytes.len()
                    } else {
                        &&& r == Err::<(), GeoArrowError>(GeoArrowError::IndexOverflow)
                        &&& final(self).values() == old(self).values()
                        &&& final(self).validity_bits() == old(self).validity_bits()
                        &&& final(self).byte_count() == old(self).byte_count()
                    }
                },
                None => {
                    &&& r is Ok
                    &&& final(self).values() == old(self).values().push(Seq::<u8>::empty())
                    &&& final(self).validity_bits() == old(self).validity_bits().push(false)
                    &&& final(self).byte_count() == old(self).byte_count()
                },
            },
    {
        match value {
            Some(geometry) => {
                if !geometry_encodable(geometry) {
                    return Err(GeoArrowError::IndexOverflow);
                }
                let before = self.bytes.len();
                let n = self.offsets.len();
                write_geometry(&mut self.bytes, geometry, Endianness::LittleEndian);
                let written = self.bytes.len() - before;
                if !self.offsets.fits(written) {
                    self.bytes.truncate(before);
                    assert(self.bytes@ =~= old(self).bytes@);
                    return Err(GeoArrowError::IndexOverflow);
                }
                let pushed = self.offsets.try_push_usize(written);
                self.validity.append(true);
                proof {
                    lemma_close_run(
                        old(self).bytes@,
                        geometry_bytes(geometry.model(), Endianness::LittleEndian),
                        old(self).offsets@,
                    );
                }
                Ok(())
            },
            None => {
                self.push_null();
                Ok(())
            },
        }
    }

    /// The elements pushed, as an immutable array. Its offsets start at zero and
    /// end at the number of bytes pushed.
    pub fn finish(self) -> (a: WKBArray)
        requires
            self.wf(),
        ensures
            a.wf(),
            a.values() == self.values(),
            a.validity_bits() == self.validity_bits(),
            a.compact(),
            a.spec_width() == self.spec_width(),
            a.spec_metadata() == self.spec_metadata(),
    {
        let bytes = ByteBuffer::from_vec(self.bytes);
        let offsets = self.offsets.finish();
        let validity = self.validity.finish();
        WKBArray { bytes, offsets, validity, metadata: self.metadata }
    }
}

} // verus!
