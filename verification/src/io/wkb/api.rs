//! Whole arrays to and from well-known binary.

use vstd::prelude::*;
use crate::algorithm::native::cast::{GeometryArray, cast_mixed_array, mixed_cast};
use crate::array::binary::{WKBArray, WKBBuilder};
use crate::array::geometrycollection::GeometryCollectionArray;
use crate::array::metadata::ArrayMetadata;
use crate::array::mixed::{
    MixedGeometryArray, MixedGeometryBuilder, all_fit, children_of, geometry_element,
    lemma_all_fit_prefix, lemma_children_push, point_element,
};
use crate::array::util::{
    flat, lemma_close_run, lemma_flat_len, lemma_flat_step, lemma_total_len_empty,
    lemma_total_len_prefix, lemma_total_len_step, total_len,
};
use crate::coord::CoordType;
use crate::datatypes::GeoDataType;
use crate::error::GeoArrowError;
use crate::geometry::{
    AnyGeometry, AnyGeometryModel, Geometry, GeometryModel, GeometryTrait, models,
};
use crate::io::wkb::common::{Endianness, get_u32, read_u32_at};
use crate::io::wkb::reader::{decode_wkb, decoded, get_header, read_header};
use crate::io::wkb::writer::{geometry_bytes, geometry_ok};
use crate::offsets::{OffsetWidth, OffsetsBuilder, run_count, runs};
use crate::scalar::geometry::Geometry as GeometryScalar;
use crate::validity::ValidityBuilder;

verus! {

/// Whether well-known binary opens with a collection whose first member is a
/// collection again.
pub open spec fn wraps_collection(bytes: Seq<u8>) -> bool {
    match get_header(bytes, 0) {
        Ok(((e, base), p)) => base > 6 && match get_u32(bytes, p, e) {
            Ok((_, q)) => match get_header(bytes, q) {
                Ok(((_, inner), _)) => inner > 6,
                Err(_) => false,
            },
            Err(_) => false,
        },
        Err(_) => false,
    }
}

/// The one geometry that a decoded value stands for in an array of geometries:
/// the geometry itself, or the one member of a collection of exactly one member
/// that is no collection itself (`nested` says whether it is). Any other
/// collection is [`GeoArrowError::UnsupportedNesting`].
pub open spec fn single_geometry(value: AnyGeometryModel, nested: bool) -> Result<
    GeometryModel,
    GeoArrowError,
> {
    match value {
        AnyGeometryModel::Geometry(g) => Ok(g),
        AnyGeometryModel::GeometryCollection(members) => if members.len() == 1 && !nested {
            Ok(members[0])
        } else {
            Err(GeoArrowError::UnsupportedNesting)
        },
    }
}

/// The one geometry that well-known binary stands for in an array of
/// geometries: the geometry that it holds, or the one simple geometry that a
/// collection wraps, with no further nesting.
#[verifier::opaque]
pub open spec fn wkb_geometry(bytes: Seq<u8>) -> Result<GeometryModel, GeoArrowError> {
    match decoded(bytes) {
        Ok(value) => single_geometry(value, wraps_collection(bytes)),
        Err(e) => Err(e),
    }
}

/// Whether `bytes` open with a collection whose first member is a collection
/// again.
fn opens_nested(bytes: &[u8]) -> (b: bool)
    ensures
        b == wraps_collection(bytes@),
{
    let ((e, base), p) = match read_header(bytes, 0) {
        Ok(v) => v,
        Err(_) => {
            return false;
        },
    };
    if base <= 6 {
        return false;
    }
    let (_, q) = match read_u32_at(bytes, p, e) {
        Ok(v) => v,
        Err(_) => {
            return false;
        },
    };
    match read_header(bytes, q) {
        Ok(((_, inner), _)) => inner > 6,
        Err(_) => false,
    }
}

/// Decodes well-known binary to the one geometry that it stands for in an array
/// of geometries.
pub fn decode_geometry(bytes: &[u8]) -> (r: Result<Geometry, GeoArrowError>)
    ensures
        match (r, wkb_geometry(bytes@)) {
            (Ok(g), Ok(m)) => g@ == m,
            (Err(e), Err(f)) => e == f,
            _ => false,
        },
{
    reveal(wkb_geometry);
    match decode_wkb(bytes) {
        Err(e) => Err(e),
        Ok(AnyGeometry::Geometry(g)) => Ok(g),
        Ok(AnyGeometry::GeometryCollection(mut members)) => {
            if members.len() == 1 && !opens_nested(bytes) {
                let ghost all = members@;
                let g = members.pop().unwrap();
                assert(g == all[0]);
                Ok(g)
            } else {
                Err(GeoArrowError::UnsupportedNesting)
            }
        },
    }
}

/// The bytes that an array of well-known binary stores per element of `array`:
/// the geometry of a present element in little-endian byte order, nothing for
/// an absent one.
pub open spec fn wkb_values(array: &GeometryArray) -> Seq<Seq<u8>> {
    Seq::new(
        array.spec_len(),
        |i: int|
            if array.spec_validity()[i] {
                geometry_bytes(array.spec_geometry(i), Endianness::LittleEndian)
            } else {
                Seq::empty()
            },
    )
}

/// Whether every present element of `array` can be written.
pub open spec fn all_encodable(array: &GeometryArray) -> bool {
    forall|i: int|
        0 <= i < array.spec_len() && array.spec_validity()[i] ==> geometry_ok(
            #[trigger] array.spec_geometry(i),
        )
}

/// Writes the elements of `array` as little-endian well-known binary with
/// offsets of `width`.
///
/// Arrays of collections are turned away with
/// [`GeoArrowError::ShapeMismatch`]. Where some element cannot be written or the
/// bytes do not fit the offsets, the result is
/// [`GeoArrowError::IndexOverflow`].
pub fn to_wkb(array: &GeometryArray, width: OffsetWidth) -> (r: Result<WKBArray, GeoArrowError>)
    requires
        array.wf(),
        array.spec_len() == array.spec_validity().len(),
    ensures
        if array is GeometryCollection {
            r == Err::<WKBArray, GeoArrowError>(GeoArrowError::ShapeMismatch)
        } else if all_encodable(array) && total_len(wkb_values(array)) <= width.limit() {
            &&& r matches Ok(w)
            &&& w.wf()
            &&& w.compact()
            &&& w.values() == wkb_values(array)
            &&& w.validity_bits() == array.spec_validity()
            &&& w.spec_width() == width
            &&& w.spec_metadata() == array.spec_metadata()
        } else {
            r == Err::<WKBArray, GeoArrowError>(GeoArrowError::IndexOverflow)
        },
{
    if array.holds_collections() {
        return Err(GeoArrowError::ShapeMismatch);
    }
    let ghost target = wkb_values(array);
    let ghost bits = array.spec_validity();
    let n = array.len();
    let mut builder = WKBBuilder::new(width, array.metadata().duplicate());
    let mut i: usize = 0;
    proof {
        assert(target.take(0) =~= Seq::<Seq<u8>>::empty());
        assert(bits.take(0) =~= Seq::<bool>::empty());
        lemma_total_len_empty::<u8>();
    }
    while i < n
        invariant
            array.wf(),
            !(array is GeometryCollection),
            n == array.spec_len(),
            n == array.spec_validity().len(),
            i <= n,
            target == wkb_values(array),
            bits == array.spec_validity(),
            builder.wf(),
            builder.values() == target.take(i as int),
            builder.validity_bits() == bits.take(i as int),
            builder.byte_count() == total_len(target.take(i as int)),
            builder.byte_count() <= width.limit(),
            forall|j: int| 0 <= j < i && bits[j] ==> geometry_ok(#[trigger] array.spec_geometry(j)),
            builder.spec_width() == width,
            builder.spec_metadata() == array.spec_metadata(),
        decreases n - i,
    {
        let value = array.geometry(i).unwrap();
        proof {
            assert(target.take(i + 1) =~= target.take(i as int).push(target[i as int]));
            assert(bits.take(i + 1) =~= bits.take(i as int).push(bits[i as int]));
            lemma_total_len_step(target, i as int);
            lemma_total_len_prefix(target, i + 1);
        }
        let pushed = if array.is_valid(i) {
            builder.push_geometry(Some(&value))
        } else {
            builder.push_geometry::<GeometryScalar<'_>>(None)
        };
        match pushed {
            Ok(()) => {},
            Err(e) => {
                return Err(e);
            },
        }
        i += 1;
    }
    proof {
        assert(target.take(n as int) =~= target);
        assert(bits.take(n as int) =~= bits);
    }
    Ok(builder.finish())
}

/// What a builder of mixed shape stores per element of an array of well-known
/// binary: what pushing the geometry that a present element decodes to stores,
/// and what pushing an absent geometry stores for an absent one.
pub open spec fn stored_elements(values: Seq<Seq<u8>>, valid: Seq<bool>, prefer_multi: bool) -> Seq<
    GeometryModel,
> {
    Seq::new(
        values.len(),
        |i: int|
            if valid[i] {
                match wkb_geometry(values[i]) {
                    Ok(g) => geometry_element(Some(g), prefer_multi),
                    Err(_) => point_element(None, prefer_multi),
                }
            } else {
                point_element(None, prefer_multi)
            },
    )
}

/// Whether the first `k` elements can be pushed to a builder of mixed shape:
/// every present one decodes, and each fits in its turn.
pub open spec fn storable_prefix(
    values: Seq<Seq<u8>>,
    valid: Seq<bool>,
    width: OffsetWidth,
    prefer_multi: bool,
    k: int,
) -> bool {
    &&& forall|j: int| 0 <= j < k && valid[j] ==> #[trigger] wkb_geometry(values[j]) is Ok
    &&& all_fit(stored_elements(values, valid, prefer_multi).take(k), width)
}

/// Why element `k` cannot be taken over: what its decoding fails with, or
/// [`GeoArrowError::IndexOverflow`] where it decodes but does not fit.
pub open spec fn refusal(values: Seq<Seq<u8>>, valid: Seq<bool>, k: int) -> GeoArrowError {
    if valid[k] {
        match wkb_geometry(values[k]) {
            Err(e) => e,
            Ok(_) => GeoArrowError::IndexOverflow,
        }
    } else {
        GeoArrowError::IndexOverflow
    }
}

/// What reading `array` as `to_type` returns.
///
/// Where every present element decodes and fits, the result is that of casting
/// the array of mixed shape that holds the decoded geometries, single ones as
/// their multi shape where `prefer_multi` is set. Otherwise it is the refusal of
/// the first element that cannot be taken over.
pub open spec fn from_wkb_result(
    array: &WKBArray,
    to_type: GeoDataType,
    prefer_multi: bool,
    r: Result<GeometryArray, GeoArrowError>,
) -> bool {
    let values = array.values();
    let valid = array.validity_bits();
    let width = to_type.spec_width();
    if storable_prefix(values, valid, width, prefer_multi, values.len() as int) {
        exists|mixed: MixedGeometryArray|
            {
                &&& mixed.wf()
                &&& mixed.values() == stored_elements(values, valid, prefer_multi)
                &&& mixed.validity_bits() == valid
                &&& mixed.spec_metadata() == array.spec_metadata()
                &&& #[trigger] mixed_cast(&mixed, to_type, r)
            }
    } else {
        exists|k: int|
            {
                &&& 0 <= k < values.len()
                &&& #[trigger] storable_prefix(values, valid, width, prefer_multi, k)
                &&& !storable_prefix(values, valid, width, prefer_multi, k + 1)
                &&& r == Err::<GeometryArray, GeoArrowError>(refusal(values, valid, k))
            }
    }
}

/// What filling a builder of mixed shape with the elements of `array` returns.
pub open spec fn stored_array(
    array: &WKBArray,
    width: OffsetWidth,
    coord_type: CoordType,
    prefer_multi: bool,
    r: Result<MixedGeometryBuilder, GeoArrowError>,
) -> bool {
    let values = array.values();
    let valid = array.validity_bits();
    if storable_prefix(values, valid, width, prefer_multi, values.len() as int) {
        &&& r matches Ok(builder)
        &&& builder.wf()
        &&& builder.values() == stored_elements(values, valid, prefer_multi)
        &&& builder.validity_bits() == valid
        &&& builder.spec_metadata() == array.spec_metadata()
        &&& builder.spec_width() == width
        &&& builder.spec_coord_type() == coord_type
        &&& builder.spec_prefer_multi() == prefer_multi
    } else {
        exists|k: int|
            {
                &&& 0 <= k < values.len()
                &&& #[trigger] storable_prefix(values, valid, width, prefer_multi, k)
                &&& !storable_prefix(values, valid, width, prefer_multi, k + 1)
                &&& r == Err::<MixedGeometryBuilder, GeoArrowError>(refusal(values, valid, k))
            }
    }
}

/// What taking the elements of `array` over into an array of mixed shape
/// returns.
pub open spec fn decoded_array(
    array: &WKBArray,
    width: OffsetWidth,
    coord_type: CoordType,
    prefer_multi: bool,
    r: Result<MixedGeometryArray, GeoArrowError>,
) -> bool {
    let values = array.values();
    let valid = array.validity_bits();
    if storable_prefix(values, valid, width, prefer_multi, values.len() as int) {
        &&& r matches Ok(mixed)
        &&& mixed.wf()
        &&& mixed.compact()
        &&& mixed.values() == stored_elements(values, valid, prefer_multi)
        &&& mixed.validity_bits() == valid
        &&& mixed.spec_metadata() == array.spec_metadata()
        &&& mixed.spec_width() == width
        &&& mixed.spec_coord_type() == coord_type
    } else {
        exists|k: int|
            {
                &&& 0 <= k < values.len()
                &&& #[trigger] storable_prefix(values, valid, width, prefer_multi, k)
                &&& !storable_prefix(values, valid, width, prefer_multi, k + 1)
                &&& r == Err::<MixedGeometryArray, GeoArrowError>(refusal(values, valid, k))
            }
    }
}

/// One more element that decodes, or is absent, and fits extends what can be
/// pushed.
proof fn lemma_taken(
    values: Seq<Seq<u8>>,
    valid: Seq<bool>,
    width: OffsetWidth,
    prefer_multi: bool,
    k: int,
)
    requires
        0 <= k < values.len(),
        storable_prefix(values, valid, width, prefer_multi, k),
        valid[k] ==> wkb_geometry(values[k]) is Ok,
        children_of(stored_elements(values, valid, prefer_multi).take(k)).fits(
            stored_elements(values, valid, prefer_multi)[k],
            width,
        ),
    ensures
        storable_prefix(values, valid, width, prefer_multi, k + 1),
{
    let target = stored_elements(values, valid, prefer_multi);
    assert(target.take(k + 1) =~= target.take(k).push(target[k]));
    lemma_children_push(target.take(k), target[k], width);
}

/// An element that does not decode, or does not fit, is the first that cannot be
/// pushed when all before it can.
proof fn lemma_refused(
    array: &WKBArray,
    width: OffsetWidth,
    coord_type: CoordType,
    prefer_multi: bool,
    k: int,
    e: GeoArrowError,
)
    requires
        0 <= k < array.values().len(),
        storable_prefix(array.values(), array.validity_bits(), width, prefer_multi, k),
        e == refusal(array.values(), array.validity_bits(), k),
        (array.validity_bits()[k] && wkb_geometry(array.values()[k]) is Err) || !children_of(
            stored_elements(array.values(), array.validity_bits(), prefer_multi).take(k),
        ).fits(stored_elements(array.values(), array.validity_bits(), prefer_multi)[k], width),
    ensures
        stored_array(array, width, coord_type, prefer_multi, Err(e)),
{
    let values = array.values();
    let valid = array.validity_bits();
    let target = stored_elements(values, valid, prefer_multi);
    let n = values.len() as int;
    assert(target.take(k + 1) =~= target.take(k).push(target[k]));
    lemma_children_push(target.take(k), target[k], width);
    assert(!storable_prefix(values, valid, width, prefer_multi, k + 1)) by {
        if valid[k] && wkb_geometry(values[k]) is Err {
            if storable_prefix(values, valid, width, prefer_multi, k + 1) {
                assert(wkb_geometry(values[k]) is Ok);
            }
        }
    }
    if storable_prefix(values, valid, width, prefer_multi, n) {
        assert(target.take(n) =~= target);
        lemma_all_fit_prefix(target, width, k + 1);
        assert(forall|j: int| 0 <= j < k + 1 && valid[j] ==> #[trigger] wkb_geometry(values[j]) is Ok);
    }
}

impl MixedGeometryBuilder {
    /// A builder filled with the geometries that the elements of `array` decode
    /// to. An element that decodes to a collection stands for the one member of
    /// the collection; a collection of any other size is refused.
    pub fn from_wkb(
        array: &WKBArray,
        width: OffsetWidth,
        coord_type: CoordType,
        prefer_multi: bool,
    ) -> (r: Result<MixedGeometryBuilder, GeoArrowError>)
        requires
            array.wf(),
        ensures
            stored_array(array, width, coord_type, prefer_multi, r),
    {
        let ghost values = array.values();
        let ghost valid = array.validity_bits();
        let ghost target = stored_elements(values, valid, prefer_multi);
        let n = array.len();
        let mut builder = MixedGeometryBuilder::new_with_options(
            width,
            coord_type,
            array.metadata().duplicate(),
            prefer_multi,
        );
        let mut i: usize = 0;
        proof {
            assert(target.take(0) =~= Seq::<GeometryModel>::empty());
            assert(valid.take(0) =~= Seq::<bool>::empty());
        }
        while i < n
            invariant
                array.wf(),
                n == array.values().len(),
                n == array.validity_bits().len(),
                i <= n,
                values == array.values(),
                valid == array.validity_bits(),
                target == stored_elements(values, valid, prefer_multi),
                builder.wf(),
                builder.values() == target.take(i as int),
                builder.validity_bits() == valid.take(i as int),
                storable_prefix(values, valid, width, prefer_multi, i as int),
                builder.spec_prefer_multi() == prefer_multi,
                builder.spec_width() == width,
                builder.spec_coord_type() == coord_type,
                builder.spec_metadata() == array.spec_metadata(),
            decreases n - i,
        {
            let ghost before = builder;
            proof {
                assert(target.take(i + 1) =~= target.take(i as int).push(target[i as int]));
                assert(valid.take(i + 1) =~= valid.take(i as int).push(valid[i as int]));
            }
            let pushed = if array.is_valid(i) {
                match decode_geometry(array.bytes_at(i)) {
                    Ok(g) => {
                        let geometry = &g;
                        builder.push_geometry(Some(&geometry))
                    },
                    Err(e) => {
                        proof {
                            lemma_refused(array, width, coord_type, prefer_multi, i as int, e);
                        }
                        return Err(e);
                    },
                }
            } else {
                builder.push_null()
            };
            match pushed {
                Ok(()) => {
                    proof {
                        assert(before.fits(target[i as int]));
                        lemma_taken(values, valid, width, prefer_multi, i as int);
                    }
                },
                Err(e) => {
                    proof {
                        assert(!before.fits(target[i as int]));
                        lemma_refused(array, width, coord_type, prefer_multi, i as int, e);
                    }
                    return Err(e);
                },
            }
            i += 1;
        }
        proof {
            assert(target.take(n as int) =~= target);
            assert(valid.take(n as int) =~= valid);
        }
        Ok(builder)
    }
}

/// Takes the elements of `array` over into an array of mixed shape, single
/// geometries as their multi shape where `prefer_multi` is set.
pub fn decode_array(
    array: &WKBArray,
    width: OffsetWidth,
    coord_type: CoordType,
    prefer_multi: bool,
) -> (r: Result<MixedGeometryArray, GeoArrowError>)
    requires
        array.wf(),
    ensures
        decoded_array(array, width, coord_type, prefer_multi, r),
{
    let values = Ghost(array.values());
    let valid = Ghost(array.validity_bits());
    match MixedGeometryBuilder::from_wkb(array, width, coord_type, prefer_multi) {
        Ok(builder) => Ok(builder.finish()),
        Err(e) => {
            proof {
                let k = choose|k: int|
                    {
                        &&& 0 <= k < values@.len()
                        &&& #[trigger] storable_prefix(values@, valid@, width, prefer_multi, k)
                        &&& !storable_prefix(values@, valid@, width, prefer_multi, k + 1)
                        &&& e == refusal(values@, valid@, k)
                    };
                assert(storable_prefix(values@, valid@, width, prefer_multi, k));
            }
            Err(e)
        },
    }
}

/// Reads an array of well-known binary as an array of `to_type`.
///
/// Every present element is decoded to the one geometry that it stands for and
/// stored in an array of mixed shape, which is then cast to `to_type`. The cast
/// takes only elements of the shape of `to_type`: to read single geometries and
/// multi geometries alike into an array of a multi shape, set `prefer_multi`.
pub fn from_wkb(array: &WKBArray, to_type: &GeoDataType, prefer_multi: bool) -> (r: Result<
    GeometryArray,
    GeoArrowError,
>)
    requires
        array.wf(),
    ensures
        from_wkb_result(array, *to_type, prefer_multi, r),
{
    let coord_type = match to_type.coord_type() {
        Some(ct) => ct,
        None => CoordType::Interleaved,
    };
    match decode_array(array, to_type.width(), coord_type, prefer_multi) {
        Ok(mixed) => {
            let r = cast_mixed_array(&mixed, to_type);
            proof {
                assert(mixed_cast(&mixed, *to_type, r));
            }
            r
        },
        Err(e) => Err(e),
    }
}

/// Arrays that can be read from extended well-known binary.
pub trait FromEWKB: Sized {
    /// What reading `arr` returns.
    spec fn read_from(
        arr: &WKBArray,
        width: OffsetWidth,
        coord_type: CoordType,
        r: Result<Self, GeoArrowError>,
    ) -> bool;

    /// Reads `arr` as an array with offsets of `width` and coordinates laid out
    /// as `coord_type`.
    fn from_ewkb(arr: &WKBArray, width: OffsetWidth, coord_type: CoordType) -> (r: Result<
        Self,
        GeoArrowError,
    >)
        requires
            arr.wf(),
        ensures
            Self::read_from(arr, width, coord_type, r),
    ;
}

impl FromEWKB for MixedGeometryArray {
    open spec fn read_from(
        arr: &WKBArray,
        width: OffsetWidth,
        coord_type: CoordType,
        r: Result<MixedGeometryArray, GeoArrowError>,
    ) -> bool {
        decoded_array(arr, width, coord_type, false, r)
    }

    fn from_ewkb(arr: &WKBArray, width: OffsetWidth, coord_type: CoordType) -> (r: Result<
        MixedGeometryArray,
        GeoArrowError,
    >) {
        decode_array(arr, width, coord_type, false)
    }
}

/// The members of the collection that a decoded value is read as: the members
/// of a collection, or a geometry as the one member of a collection of its own.
/// Single geometries are stored as their multi shape.
pub open spec fn collection_members(value: AnyGeometryModel) -> Seq<GeometryModel> {
    match value {
        AnyGeometryModel::Geometry(g) => seq![geometry_element(Some(g), true)],
        AnyGeometryModel::GeometryCollection(members) => Seq::new(
            members.len(),
            |j: int| geometry_element(Some(members[j]), true),
        ),
    }
}

/// The members of the collection that one element of an array of well-known
/// binary is read as; none for an absent element.
pub open spec fn wkb_collection(bytes: Seq<u8>, present: bool) -> Seq<GeometryModel> {
    if present {
        match decoded(bytes) {
            Ok(value) => collection_members(value),
            Err(_) => Seq::empty(),
        }
    } else {
        Seq::empty()
    }
}

/// The collections that the elements of an array of well-known binary are read
/// as.
pub open spec fn wkb_collections(values: Seq<Seq<u8>>, valid: Seq<bool>) -> Seq<
    Seq<GeometryModel>,
> {
    Seq::new(values.len(), |i: int| wkb_collection(values[i], valid[i]))
}

/// Whether every present one of the first `k` elements decodes.
pub open spec fn decodable_prefix(values: Seq<Seq<u8>>, valid: Seq<bool>, k: int) -> bool {
    forall|j: int| 0 <= j < k && valid[j] ==> #[trigger] decoded(values[j]) is Ok
}

/// What reading `arr` as collections returns.
///
/// Where a present element does not decode, the result is what decoding the
/// first such element fails with. Where all decode, every element is a
/// collection of the members that it decodes to, all of them present, unless the
/// members do not fit, which is [`GeoArrowError::IndexOverflow`].
pub open spec fn collections_read(
    arr: &WKBArray,
    width: OffsetWidth,
    coord_type: CoordType,
    r: Result<GeometryCollectionArray, GeoArrowError>,
) -> bool {
    let values = arr.values();
    let valid = arr.validity_bits();
    let collections = wkb_collections(values, valid);
    if !decodable_prefix(values, valid, values.len() as int) {
        exists|k: int|
            {
                &&& 0 <= k < values.len()
                &&& #[trigger] decodable_prefix(values, valid, k)
                &&& valid[k]
                &&& decoded(values[k]) is Err
                &&& r == Err::<GeometryCollectionArray, GeoArrowError>(decoded(values[k])->Err_0)
            }
    } else if all_fit(flat(collections), width) && flat(collections).len() <= width.limit() {
        &&& r matches Ok(a)
        &&& a.wf()
        &&& a.compact()
        &&& a.values() == collections
        &&& a.member_bits() == Seq::new(
            collections.len(),
            |i: int| Seq::new(collections[i].len(), |j: int| true),
        )
        &&& a.validity_bits() == valid
        &&& a.spec_width() == width
        &&& a.spec_coord_type() == coord_type
        &&& a.spec_metadata() == arr.spec_metadata()
    } else {
        r == Err::<GeometryCollectionArray, GeoArrowError>(GeoArrowError::IndexOverflow)
    }
}

/// Decodes every present element of `arr`. Where one does not decode, the
/// result names the first such element by its position, with what decoding it
/// failed with.
pub fn decode_elements(arr: &WKBArray) -> (r: Result<
    Vec<Option<AnyGeometry>>,
    (usize, GeoArrowError),
>)
    requires
        arr.wf(),
    ensures
        ({
            let values = arr.values();
            let valid = arr.validity_bits();
            match r {
                Ok(all) => {
                    &&& decodable_prefix(values, valid, values.len() as int)
                    &&& all@.len() == values.len()
                    &&& forall|i: int|
                        0 <= i < all@.len() ==> match #[trigger] all@[i] {
                            Some(g) => valid[i] && decoded(values[i]) == Ok::<
                                AnyGeometryModel,
                                GeoArrowError,
                            >(g@),
                            None => !valid[i],
                        }
                },
                Err((k, e)) => {
                    &&& k < values.len()
                    &&& decodable_prefix(values, valid, k as int)
                    &&& valid[k as int]
                    &&& decoded(values[k as int]) == Err::<AnyGeometryModel, GeoArrowError>(e)
                },
            }
        }),
{
    let ghost values = arr.values();
    let ghost valid = arr.validity_bits();
    let n = arr.len();
    let mut all: Vec<Option<AnyGeometry>> = Vec::with_capacity(n);
    let mut i: usize = 0;
    while i < n
        invariant
            arr.wf(),
            values == arr.values(),
            valid == arr.validity_bits(),
            n == values.len(),
            n == valid.len(),
            i <= n,
            all@.len() == i,
            decodable_prefix(values, valid, i as int),
            forall|k: int|
                0 <= k < i ==> match #[trigger] all@[k] {
                    Some(g) => valid[k] && decoded(values[k]) == Ok::<
                        AnyGeometryModel,
                        GeoArrowError,
                    >(g@),
                    None => !valid[k],
                },
        decreases n - i,
    {
        if arr.is_valid(i) {
            match decode_wkb(arr.bytes_at(i)) {
                Ok(g) => {
                    all.push(Some(g));
                },
                Err(e) => {
                    return Err((i, e));
                },
            }
        } else {
            all.push(None);
        }
        i += 1;
    }
    Ok(all)
}

/// What is stored for borrowed geometries as members of collections: each as
/// its multi shape.
pub open spec fn stored_members(members: Seq<&Geometry>) -> Seq<GeometryModel> {
    Seq::new(members.len(), |k: int| geometry_element(Some(members[k]@), true))
}

/// The members of the collection that a decoded element is read as; none for an
/// absent element.
pub open spec fn value_members(value: Option<AnyGeometry>) -> Seq<GeometryModel> {
    match value {
        Some(g) => collection_members(g@),
        None => Seq::empty(),
    }
}

/// Appends to `members` the members of the collection that `value` is read as.
fn append_members<'a>(members: &mut Vec<&'a Geometry>, value: &'a Option<AnyGeometry>) -> (count:
    usize)
    ensures
        stored_members(final(members)@) == stored_members(old(members)@) + value_members(*value),
        final(members)@.len() == old(members)@.len() + count,
{
    let ghost before = stored_members(members@);
    match value {
        Some(AnyGeometry::Geometry(g)) => {
            members.push(g);
            proof {
                assert(stored_members(members@) =~= before + collection_members(
                    AnyGeometryModel::Geometry(g@),
                ));
            }
            1
        },
        Some(AnyGeometry::GeometryCollection(ms)) => {
            let ghost here = collection_members(AnyGeometryModel::GeometryCollection(models(ms@)));
            let m = ms.len();
            let mut j: usize = 0;
            proof {
                assert(before + here.take(0) =~= before);
            }
            while j < m
                invariant
                    m == ms@.len(),
                    j <= m,
                    here == collection_members(
                        AnyGeometryModel::GeometryCollection(models(ms@)),
                    ),
                    before == stored_members(old(members)@),
                    stored_members(members@) == before + here.take(j as int),
                    members@.len() == old(members)@.len() + j,
                decreases m - j,
            {
                let ghost so_far = members@;
                members.push(&ms[j]);
                proof {
                    assert(members@ == so_far.push(&ms@[j as int]));
                    assert(stored_members(members@) =~= stored_members(so_far).push(
                        here[j as int],
                    ));
                    assert(before + here.take(j + 1) =~= (before + here.take(j as int)).push(
                        here[j as int],
                    ));
                }
                j += 1;
            }
            proof {
                assert(here.take(m as int) =~= here);
            }
            m
        },
        None => {
            proof {
                assert(before + Seq::<GeometryModel>::empty() =~= before);
            }
            0
        },
    }
}

impl FromEWKB for GeometryCollectionArray {
    open spec fn read_from(
        arr: &WKBArray,
        width: OffsetWidth,
        coord_type: CoordType,
        r: Result<GeometryCollectionArray, GeoArrowError>,
    ) -> bool {
        collections_read(arr, width, coord_type, r)
    }

    fn from_ewkb(arr: &WKBArray, width: OffsetWidth, coord_type: CoordType) -> (r: Result<
        GeometryCollectionArray,
        GeoArrowError,
    >) {
        let ghost values = arr.values();
        let ghost valid = arr.validity_bits();
        let ghost collections = wkb_collections(values, valid);
        let len = arr.len();
        let all = match decode_elements(arr) {
            Ok(all) => all,
            Err((k, e)) => {
                proof {
                    assert(decodable_prefix(values, valid, k as int));
                    assert(!decodable_prefix(values, valid, values.len() as int));
                }
                return Err(e);
            },
        };
        let n = all.len();
        let mut members: Vec<&Geometry> = Vec::new();
        let mut offsets = OffsetsBuilder::with_capacity(width, n);
        let mut validity = ValidityBuilder::with_capacity(n);
        let mut i: usize = 0;
        proof {
            assert forall|k: int| 0 <= k < n implies #[trigger] collections[k] == value_members(
                all@[k],
            ) && valid[k] == (all@[k] is Some) by {
                match all@[k] {
                    Some(g) => {
                        assert(decoded(values[k]) == Ok::<AnyGeometryModel, GeoArrowError>(g@));
                    },
                    None => {},
                }
            }
            assert(collections.take(0) =~= Seq::<Seq<GeometryModel>>::empty());
            assert(stored_members(members@) =~= Seq::<GeometryModel>::empty());
            assert(runs(stored_members(members@), offsets@) =~= collections.take(0));
            assert(valid.take(0) =~= Seq::<bool>::empty());
        }
        while i < n
            invariant
                values == arr.values(),
                valid == arr.validity_bits(),
                collections == wkb_collections(values, valid),
                decodable_prefix(values, valid, values.len() as int),
                n == collections.len(),
                n == valid.len(),
                n == all@.len(),
                i <= n,
                forall|k: int| 0 <= k < n ==> #[trigger] collections[k] == value_members(all@[k]),
                forall|k: int| 0 <= k < n ==> #[trigger] valid[k] == (all@[k] is Some),
                stored_members(members@) == flat(collections.take(i as int)),
                offsets.wf(),
                offsets.spec_width() == width,
                offsets@.last() == members@.len(),
                run_count(offsets@) == i,
                runs(stored_members(members@), offsets@) == collections.take(i as int),
                validity@ == valid.take(i as int),
            decreases n - i,
        {
            let ghost before = stored_members(members@);
            let ghost here = collections[i as int];
            proof {
                lemma_flat_step(collections, i as int);
                assert(valid.take(i + 1) =~= valid.take(i as int).push(valid[i as int]));
                assert(collections.take(i + 1) =~= collections.take(i as int).push(here));
                assert(here == value_members(all@[i as int]));
            }
            let count = append_members(&mut members, &all[i]);
            let present = all[i].is_some();
            proof {
                assert(stored_members(members@) == before + here);
                assert(here.len() == count);
                lemma_close_run(before, here, offsets@);
            }
            match offsets.try_push_usize(count) {
                Ok(()) => {},
                Err(e) => {
                    proof {
                        lemma_flat_len(collections);
                        lemma_flat_len(collections.take(i + 1));
                        lemma_total_len_prefix(collections, i + 1);
                    }
                    return Err(e);
                },
            }
            validity.append(present);
            i += 1;
        }
        proof {
            assert(collections.take(n as int) =~= collections);
            assert(valid.take(n as int) =~= valid);
            assert(stored_members(members@) =~= Seq::new(
                members@.len(),
                |k: int| geometry_element(Some(members@[k].model()), true),
            ));
        }
        let builder = match MixedGeometryBuilder::from_geometries(
            width,
            members.as_slice(),
            coord_type,
            ArrayMetadata::new(),
            true,
        ) {
            Ok(b) => b,
            Err(e) => {
                return Err(e);
            },
        };
        let ghost stored = builder.values();
        let ghost ends = offsets@;
        let a = GeometryCollectionArray::new(
            builder.finish(),
            offsets.finish(),
            validity.finish(),
            arr.metadata().duplicate(),
        );
        proof {
            let bits = Seq::new(stored.len(), |k: int| true);
            let wanted = Seq::new(
                collections.len(),
                |i: int| Seq::new(collections[i].len(), |j: int| true),
            );
            assert forall|i: int| 0 <= i < collections.len() implies #[trigger] runs(bits, ends)[i]
                =~= wanted[i] by {
                assert(runs(stored, ends)[i] == collections[i]);
            }
            assert(a.member_bits() =~= wanted);
        }
        Ok(a)
    }
}

} // verus!
