//! Casting arrays from one geometry type to another.
//!
//! A cast rebuilds the target array from the elements of the source: an upward
//! cast wraps every element into the larger shape, a downward cast unwraps it and
//! fails where an element does not have exactly one part, and a cast to the same
//! shape changes the coordinate layout or the width of the offsets. No cast
//! changes its source, and every cast hands the metadata on.

use vstd::prelude::*;
use crate::array::geometrycollection::{
    GeometryCollectionArray, GeometryCollectionBuilder, GeometryCollectionCapacity,
};
use crate::array::linestring::{LineStringArray, LineStringBuilder, LineStringCapacity};
use crate::array::metadata::ArrayMetadata;
use crate::array::mixed::{
    MixedCapacity, MixedChildren, MixedGeometryArray, MixedGeometryBuilder, all_fit, children_of,
    position,
    geometry_element, lemma_all_fit_prefix, lemma_children_push, line_string_element,
    point_element, polygon_element,
};
use crate::array::multilinestring::{
    MultiLineStringArray, MultiLineStringBuilder, MultiLineStringCapacity,
};
use crate::array::multipoint::{MultiPointArray, MultiPointBuilder, MultiPointCapacity};
use crate::array::multipolygon::{MultiPolygonArray, MultiPolygonBuilder, MultiPolygonCapacity};
use crate::array::point::{PointArray, PointBuilder};
use crate::array::polygon::{PolygonArray, PolygonBuilder, PolygonCapacity};
use crate::array::util::{
    lemma_total_len2_one, lemma_total_len2_prefix, lemma_total_len2_step, lemma_total_len3_prefix,
    lemma_total_len3_step, lemma_total_len_empty, lemma_total_len_one, lemma_total_len_prefix,
    lemma_total_len_step, total_len, total_len2, total_len3,
};
use crate::coord::{Coord, CoordType};
use crate::datatypes::{Dimension, GeoDataType, Shape};
use crate::error::GeoArrowError;
use crate::geo_traits::{
    LineStringTrait, MultiLineStringTrait, MultiPointTrait, MultiPolygonTrait, PointTrait,
    PolygonTrait,
};
use crate::geometry::{GeometryModel, GeometryTrait};
use crate::offsets::{OffsetBuffer, OffsetWidth, covers, run_count, runs};
use crate::scalar::geometry::Geometry;
use crate::scalar::linestring::LineString;
use crate::scalar::multilinestring::MultiLineString;
use crate::scalar::multipoint::MultiPoint;
use crate::scalar::multipolygon::MultiPolygon;
use crate::scalar::point::Point;
use crate::scalar::polygon::Polygon;

verus! {

/// CastOptions provides a way to override the default cast behaviors.
#[derive(Clone, Copy, Debug, PartialEq, Eq, Hash, Structural)]
pub struct CastOptions {
    /// How to handle cast failures: report them per operation (`safe == false`),
    /// which is what every cast of this module does, or swallow them.
    pub safe: bool,
}

impl Default for CastOptions {
    fn default() -> (o: CastOptions)
        ensures
            o.safe,
    {
        CastOptions { safe: true }
    }
}

/// The coordinate that fills the slot of an absent point.
pub open spec fn absent_point() -> Coord {
    Coord { x: 0, y: 0 }
}

/// What a rebuilt array of points stores per element: the coordinate of a
/// present element, the zero coordinate for an absent one.
pub open spec fn present_points(values: Seq<Coord>, valid: Seq<bool>) -> Seq<Coord> {
    Seq::new(
        values.len(),
        |i: int|
            if valid[i] {
                values[i]
            } else {
                absent_point()
            },
    )
}

/// What a rebuilt array stores per element: the value of a present element,
/// nothing for an absent one.
pub open spec fn present<T>(values: Seq<Seq<T>>, valid: Seq<bool>) -> Seq<Seq<T>> {
    Seq::new(
        values.len(),
        |i: int|
            if valid[i] {
                values[i]
            } else {
                Seq::empty()
            },
    )
}

/// What an array of the multi shape stores per element of an array of the single
/// shape: the one value of a present element, nothing for an absent one.
pub open spec fn singletons<T>(values: Seq<T>, valid: Seq<bool>) -> Seq<Seq<T>> {
    Seq::new(
        values.len(),
        |i: int|
            if valid[i] {
                seq![values[i]]
            } else {
                Seq::empty()
            },
    )
}

/// Whether every element has exactly one part.
pub open spec fn all_single<T>(values: Seq<Seq<T>>) -> bool {
    forall|i: int| 0 <= i < values.len() ==> (#[trigger] values[i]).len() == 1
}

/// What an array of the single shape stores per element of an array of the multi
/// shape: the first part of a present element, `absent` for an absent one.
pub open spec fn firsts<T>(values: Seq<Seq<T>>, valid: Seq<bool>, absent: T) -> Seq<T> {
    Seq::new(
        values.len(),
        |i: int|
            if valid[i] {
                values[i][0]
            } else {
                absent
            },
    )
}

/// The elements that an array of mixed shape stores for points: the point, or
/// a multi point without points for an absent one.
pub open spec fn point_elements(values: Seq<Coord>, valid: Seq<bool>) -> Seq<GeometryModel> {
    Seq::new(
        values.len(),
        |i: int|
            point_element(
                if valid[i] {
                    Some(values[i])
                } else {
                    None
                },
                false,
            ),
    )
}

/// The elements that an array of mixed shape stores for line strings.
pub open spec fn line_string_elements(values: Seq<Seq<Coord>>, valid: Seq<bool>) -> Seq<
    GeometryModel,
> {
    Seq::new(values.len(), |i: int| GeometryModel::LineString(present(values, valid)[i]))
}

/// The elements that an array of mixed shape stores for polygons.
pub open spec fn polygon_elements(values: Seq<Seq<Seq<Coord>>>, valid: Seq<bool>) -> Seq<
    GeometryModel,
> {
    Seq::new(values.len(), |i: int| GeometryModel::Polygon(present(values, valid)[i]))
}

/// The elements that an array of mixed shape stores for multi points.
pub open spec fn multi_point_elements(values: Seq<Seq<Coord>>, valid: Seq<bool>) -> Seq<
    GeometryModel,
> {
    Seq::new(values.len(), |i: int| GeometryModel::MultiPoint(present(values, valid)[i]))
}

/// The elements that an array of mixed shape stores for multi line strings.
pub open spec fn multi_line_string_elements(values: Seq<Seq<Seq<Coord>>>, valid: Seq<bool>) -> Seq<
    GeometryModel,
> {
    Seq::new(values.len(), |i: int| GeometryModel::MultiLineString(present(values, valid)[i]))
}

/// The elements that an array of mixed shape stores for multi polygons.
pub open spec fn multi_polygon_elements(values: Seq<Seq<Seq<Seq<Coord>>>>, valid: Seq<bool>)
    -> Seq<GeometryModel> {
    Seq::new(values.len(), |i: int| GeometryModel::MultiPolygon(present(values, valid)[i]))
}

/// The members of the collections made of `elements`, one collection of one
/// member per present element, in order.
pub open spec fn members_of(elements: Seq<GeometryModel>, valid: Seq<bool>) -> Seq<GeometryModel>
    decreases elements.len(),
{
    if elements.len() == 0 {
        Seq::empty()
    } else if valid.last() {
        members_of(elements.drop_last(), valid.drop_last()).push(elements.last())
    } else {
        members_of(elements.drop_last(), valid.drop_last())
    }
}

/// Whether one collection per element of `elements` can be pushed in order to a
/// builder of collections whose offsets have width `width`: every present
/// element fits among the members when its turn comes, and the members stay
/// within what the offsets can hold.
pub open spec fn collections_fit(
    elements: Seq<GeometryModel>,
    valid: Seq<bool>,
    width: OffsetWidth,
) -> bool
    decreases elements.len(),
{
    if elements.len() == 0 {
        true
    } else {
        let before = members_of(elements.drop_last(), valid.drop_last());
        &&& collections_fit(elements.drop_last(), valid.drop_last(), width)
        &&& valid.last() ==> children_of(before).fits(elements.last(), width) && before.len() + 1
            <= width.limit()
    }
}

/// One more element extends the members by it where it is present, and all
/// collections fit when the earlier ones do and the new one does in its turn.
pub proof fn lemma_collections_step(
    elements: Seq<GeometryModel>,
    valid: Seq<bool>,
    width: OffsetWidth,
    i: int,
)
    requires
        0 <= i < elements.len(),
        elements.len() == valid.len(),
    ensures
        members_of(elements.take(i + 1), valid.take(i + 1)) == if valid[i] {
            members_of(elements.take(i), valid.take(i)).push(elements[i])
        } else {
            members_of(elements.take(i), valid.take(i))
        },
        collections_fit(elements.take(i + 1), valid.take(i + 1), width) == (collections_fit(
            elements.take(i),
            valid.take(i),
            width,
        ) && (valid[i] ==> children_of(members_of(elements.take(i), valid.take(i))).fits(
            elements[i],
            width,
        ) && members_of(elements.take(i), valid.take(i)).len() + 1 <= width.limit())),
{
    assert(elements.take(i + 1).drop_last() =~= elements.take(i));
    assert(valid.take(i + 1).drop_last() =~= valid.take(i));
}

/// Where all collections fit, so do those of every prefix.
pub proof fn lemma_collections_fit_prefix(
    elements: Seq<GeometryModel>,
    valid: Seq<bool>,
    width: OffsetWidth,
    k: int,
)
    requires
        0 <= k <= elements.len(),
        elements.len() == valid.len(),
        collections_fit(elements, valid, width),
    ensures
        collections_fit(elements.take(k), valid.take(k), width),
    decreases elements.len(),
{
    if k < elements.len() {
        lemma_collections_fit_prefix(elements.drop_last(), valid.drop_last(), width, k);
        assert(elements.drop_last().take(k) =~= elements.take(k));
        assert(valid.drop_last().take(k) =~= valid.take(k));
    } else {
        assert(elements.take(k) =~= elements);
        assert(valid.take(k) =~= valid);
    }
}

/// A geometry array of any of the eight shapes.
pub enum GeometryArray {
    /// Points.
    Point(PointArray),
    /// Line strings.
    LineString(LineStringArray),
    /// Polygons.
    Polygon(PolygonArray),
    /// Multi points.
    MultiPoint(MultiPointArray),
    /// Multi line strings.
    MultiLineString(MultiLineStringArray),
    /// Multi polygons.
    MultiPolygon(MultiPolygonArray),
    /// Geometries of mixed shape.
    Mixed(MixedGeometryArray),
    /// Geometry collections.
    GeometryCollection(GeometryCollectionArray),
}

impl GeometryArray {
    /// The array inside is well formed.
    pub open spec fn wf(&self) -> bool {
        match self {
            GeometryArray::Point(a) => a.wf(),
            GeometryArray::LineString(a) => a.wf(),
            GeometryArray::Polygon(a) => a.wf(),
            GeometryArray::MultiPoint(a) => a.wf(),
            GeometryArray::MultiLineString(a) => a.wf(),
            GeometryArray::MultiPolygon(a) => a.wf(),
            GeometryArray::Mixed(a) => a.wf(),
            GeometryArray::GeometryCollection(a) => a.wf(),
        }
    }

    /// The shape of the array.
    pub open spec fn spec_shape(&self) -> Shape {
        match self {
            GeometryArray::Point(_) => Shape::Point,
            GeometryArray::LineString(_) => Shape::LineString,
            GeometryArray::Polygon(_) => Shape::Polygon,
            GeometryArray::MultiPoint(_) => Shape::MultiPoint,
            GeometryArray::MultiLineString(_) => Shape::MultiLineString,
            GeometryArray::MultiPolygon(_) => Shape::MultiPolygon,
            GeometryArray::Mixed(_) => Shape::Mixed,
            GeometryArray::GeometryCollection(_) => Shape::GeometryCollection,
        }
    }

    /// The number of elements.
    pub open spec fn spec_len(&self) -> nat {
        match self {
            GeometryArray::Point(a) => a.values().len(),
            GeometryArray::LineString(a) => a.values().len(),
            GeometryArray::Polygon(a) => a.values().len(),
            GeometryArray::MultiPoint(a) => a.values().len(),
            GeometryArray::MultiLineString(a) => a.values().len(),
            GeometryArray::MultiPolygon(a) => a.values().len(),
            GeometryArray::Mixed(a) => a.values().len(),
            GeometryArray::GeometryCollection(a) => a.values().len(),
        }
    }

    /// The shape of the array.
    pub fn shape(&self) -> (s: Shape)
        ensures
            s == self.spec_shape(),
    {
        match self {
            GeometryArray::Point(_) => Shape::Point,
            GeometryArray::LineString(_) => Shape::LineString,
            GeometryArray::Polygon(_) => Shape::Polygon,
            GeometryArray::MultiPoint(_) => Shape::MultiPoint,
            GeometryArray::MultiLineString(_) => Shape::MultiLineString,
            GeometryArray::MultiPolygon(_) => Shape::MultiPolygon,
            GeometryArray::Mixed(_) => Shape::Mixed,
            GeometryArray::GeometryCollection(_) => Shape::GeometryCollection,
        }
    }

    /// The number of elements.
    pub fn len(&self) -> (n: usize)
        requires
            self.wf(),
        ensures
            n == self.spec_len(),
    {
        match self {
            GeometryArray::Point(a) => a.len(),
            GeometryArray::LineString(a) => a.len(),
            GeometryArray::Polygon(a) => a.len(),
            GeometryArray::MultiPoint(a) => a.len(),
            GeometryArray::MultiLineString(a) => a.len(),
            GeometryArray::MultiPolygon(a) => a.len(),
            GeometryArray::Mixed(a) => a.len(),
            GeometryArray::GeometryCollection(a) => a.len(),
        }
    }

    /// The logical type of the array.
    pub fn data_type(&self) -> (t: GeoDataType)
        ensures
            t.spec_shape() == Some(self.spec_shape()),
            t.spec_coord_type() == Some(self.spec_coord_type()),
            t.spec_width() == self.spec_width(),
    {
        match self {
            GeometryArray::Point(a) => a.data_type(),
            GeometryArray::LineString(a) => a.data_type(),
            GeometryArray::Polygon(a) => a.data_type(),
            GeometryArray::MultiPoint(a) => a.data_type(),
            GeometryArray::MultiLineString(a) => a.data_type(),
            GeometryArray::MultiPolygon(a) => a.data_type(),
            GeometryArray::Mixed(a) => a.data_type(),
            GeometryArray::GeometryCollection(a) => a.data_type(),
        }
    }
}

/// Whether every run that `offsets` delimit holds exactly one item.
fn all_runs_single(offsets: &OffsetBuffer) -> (b: bool)
    requires
        offsets.wf(),
    ensures
        b <==> forall|i: int|
            0 <= i < run_count(offsets@) ==> #[trigger] offsets@[i + 1] - offsets@[i] == 1,
{
    let n = offsets.len();
    let mut i: usize = 0;
    while i < n
        invariant
            offsets.wf(),
            n == run_count(offsets@),
            i <= n,
            forall|j: int| 0 <= j < i ==> #[trigger] offsets@[j + 1] - offsets@[j] == 1,
        decreases n - i,
    {
        let (start, end) = offsets.start_end(i);
        if end - start != 1 {
            assert(offsets@[i + 1] - offsets@[i as int] != 1);
            return false;
        }
        i += 1;
    }
    true
}

/// What a cast to points returns: an array that stores `target`, with the
/// validity of the source.
pub open spec fn point_result(
    r: Result<GeometryArray, GeoArrowError>,
    target: Seq<Coord>,
    valid: Seq<bool>,
    to_type: GeoDataType,
    metadata: ArrayMetadata,
) -> bool {
    &&& r matches Ok(GeometryArray::Point(a))
    &&& a.wf()
    &&& a.compact()
    &&& a.values() == target
    &&& a.validity_bits() == valid
    &&& Some(a.spec_coord_type()) == to_type.spec_coord_type()
    &&& a.spec_metadata() == metadata
}

/// What a cast to line strings returns: where `target` fits offsets of the width asked
/// for, an array that stores `target` with the validity of the source; where it
/// does not, [`GeoArrowError::IndexOverflow`].
pub open spec fn line_string_result(
    r: Result<GeometryArray, GeoArrowError>,
    target: Seq<Seq<Coord>>,
    valid: Seq<bool>,
    to_type: GeoDataType,
    metadata: ArrayMetadata,
) -> bool {
    if total_len(target) <= to_type.spec_width().limit() {
        &&& r matches Ok(GeometryArray::LineString(a))
        &&& a.wf()
        &&& a.compact()
        &&& a.values() == target
        &&& a.validity_bits() == valid
        &&& a.spec_width() == to_type.spec_width()
        &&& Some(a.spec_coord_type()) == to_type.spec_coord_type()
        &&& a.spec_metadata() == metadata
    } else {
        r == Err::<GeometryArray, GeoArrowError>(GeoArrowError::IndexOverflow)
    }
}

/// What a cast to multi points returns: where `target` fits offsets of the width asked
/// for, an array that stores `target` with the validity of the source; where it
/// does not, [`GeoArrowError::IndexOverflow`].
pub open spec fn multi_point_result(
    r: Result<GeometryArray, GeoArrowError>,
    target: Seq<Seq<Coord>>,
    valid: Seq<bool>,
    to_type: GeoDataType,
    metadata: ArrayMetadata,
) -> bool {
    if total_len(target) <= to_type.spec_width().limit() {
        &&& r matches Ok(GeometryArray::MultiPoint(a))
        &&& a.wf()
        &&& a.compact()
        &&& a.values() == target
        &&& a.validity_bits() == valid
        &&& a.spec_width() == to_type.spec_width()
        &&& Some(a.spec_coord_type()) == to_type.spec_coord_type()
        &&& a.spec_metadata() == metadata
    } else {
        r == Err::<GeometryArray, GeoArrowError>(GeoArrowError::IndexOverflow)
    }
}

/// What a cast to polygons returns: where `target` fits offsets of the width asked
/// for, an array that stores `target` with the validity of the source; where it
/// does not, [`GeoArrowError::IndexOverflow`].
pub open spec fn polygon_result(
    r: Result<GeometryArray, GeoArrowError>,
    target: Seq<Seq<Seq<Coord>>>,
    valid: Seq<bool>,
    to_type: GeoDataType,
    metadata: ArrayMetadata,
) -> bool {
    if total_len(target) <= to_type.spec_width().limit() && total_len2(target)
        <= to_type.spec_width().limit() {
        &&& r matches Ok(GeometryArray::Polygon(a))
        &&& a.wf()
        &&& a.compact()
        &&& a.values() == target
        &&& a.validity_bits() == valid
        &&& a.spec_width() == to_type.spec_width()
        &&& Some(a.spec_coord_type()) == to_type.spec_coord_type()
        &&& a.spec_metadata() == metadata
    } else {
        r == Err::<GeometryArray, GeoArrowError>(GeoArrowError::IndexOverflow)
    }
}

/// What a cast to multi line strings returns: where `target` fits offsets of the width asked
/// for, an array that stores `target` with the validity of the source; where it
/// does not, [`GeoArrowError::IndexOverflow`].
pub open spec fn multi_line_string_result(
    r: Result<GeometryArray, GeoArrowError>,
    target: Seq<Seq<Seq<Coord>>>,
    valid: Seq<bool>,
    to_type: GeoDataType,
    metadata: ArrayMetadata,
) -> bool {
    if total_len(target) <= to_type.spec_width().limit() && total_len2(target)
        <= to_type.spec_width().limit() {
        &&& r matches Ok(GeometryArray::MultiLineString(a))
        &&& a.wf()
        &&& a.compact()
        &&& a.values() == target
        &&& a.validity_bits() == valid
        &&& a.spec_width() == to_type.spec_width()
        &&& Some(a.spec_coord_type()) == to_type.spec_coord_type()
        &&& a.spec_metadata() == metadata
    } else {
        r == Err::<GeometryArray, GeoArrowError>(GeoArrowError::IndexOverflow)
    }
}

/// What a cast to multi polygons returns: where `target` fits offsets of the width asked
/// for, an array that stores `target` with the validity of the source; where it
/// does not, [`GeoArrowError::IndexOverflow`].
pub open spec fn multi_polygon_result(
    r: Result<GeometryArray, GeoArrowError>,
    target: Seq<Seq<Seq<Seq<Coord>>>>,
    valid: Seq<bool>,
    to_type: GeoDataType,
    metadata: ArrayMetadata,
) -> bool {
    if total_len(target) <= to_type.spec_width().limit() && total_len2(target)
        <= to_type.spec_width().limit() && total_len3(target) <= to_type.spec_width().limit() {
        &&& r matches Ok(GeometryArray::MultiPolygon(a))
        &&& a.wf()
        &&& a.compact()
        &&& a.values() == target
        &&& a.validity_bits() == valid
        &&& a.spec_width() == to_type.spec_width()
        &&& Some(a.spec_coord_type()) == to_type.spec_coord_type()
        &&& a.spec_metadata() == metadata
    } else {
        r == Err::<GeometryArray, GeoArrowError>(GeoArrowError::IndexOverflow)
    }
}

/// What a cast to mixed shape returns: where every element of `target` fits in
/// its turn, an array that stores `target` with the validity of the source; where
/// one does not, [`GeoArrowError::IndexOverflow`].
pub open spec fn mixed_result(
    r: Result<GeometryArray, GeoArrowError>,
    target: Seq<GeometryModel>,
    valid: Seq<bool>,
    to_type: GeoDataType,
    metadata: ArrayMetadata,
) -> bool {
    if all_fit(target, to_type.spec_width()) {
        &&& r matches Ok(GeometryArray::Mixed(a))
        &&& a.wf()
        &&& a.compact()
        &&& a.values() == target
        &&& a.validity_bits() == valid
        &&& a.spec_width() == to_type.spec_width()
        &&& Some(a.spec_coord_type()) == to_type.spec_coord_type()
        &&& a.spec_metadata() == metadata
    } else {
        r == Err::<GeometryArray, GeoArrowError>(GeoArrowError::IndexOverflow)
    }
}

/// What a cast to geometry collections returns: where every present element of
/// `target` fits in its turn, an array with one collection per element, which
/// holds the element as its one member where the element is present and nothing
/// where it is absent; where one does not fit, [`GeoArrowError::IndexOverflow`].
pub open spec fn collection_result(
    r: Result<GeometryArray, GeoArrowError>,
    target: Seq<GeometryModel>,
    valid: Seq<bool>,
    to_type: GeoDataType,
    metadata: ArrayMetadata,
) -> bool {
    if collections_fit(target, valid, to_type.spec_width()) {
        &&& r matches Ok(GeometryArray::GeometryCollection(a))
        &&& a.wf()
        &&& a.compact()
        &&& a.values() == singletons(target, valid)
        &&& a.member_bits() == singletons(Seq::new(target.len(), |i: int| true), valid)
        &&& a.validity_bits() == valid
        &&& a.spec_width() == to_type.spec_width()
        &&& Some(a.spec_coord_type()) == to_type.spec_coord_type()
        &&& a.spec_metadata() == metadata
    } else {
        r == Err::<GeometryArray, GeoArrowError>(GeoArrowError::IndexOverflow)
    }
}

/// Rebuilds points with another coordinate layout or offset width.
fn points_to_points(array: &PointArray, coord_type: CoordType) -> (r: Result<PointArray, GeoArrowError>)
    requires
        array.wf(),
    ensures
        ({
            let target = present_points(array.values(), array.validity_bits());
            &&& r matches Ok(a)
                &&& a.wf()
                &&& a.compact()
                &&& a.values() == target
                &&& a.validity_bits() == array.validity_bits()
                &&& a.spec_coord_type() == coord_type
                &&& a.spec_metadata() == array.spec_metadata()
        }),
{
    let ghost target = present_points(array.values(), array.validity_bits());
    let ghost bits = array.validity_bits();
    let n = array.len();
    let mut builder = PointBuilder::with_capacity_and_options(
        array.len(),
        coord_type,
        array.metadata().duplicate(),
    );
    let mut i: usize = 0;
    proof {
        assert(bits.take(0) =~= Seq::<bool>::empty());
        assert(target.take(0) =~= Seq::<Coord>::empty());
    }
    while i < n
        invariant
            array.wf(),
            n == array.values().len(),
            n == array.validity_bits().len(),
            i <= n,
            target == present_points(array.values(), array.validity_bits()),
            bits == array.validity_bits(),
            builder.wf(),
            builder.values() == target.take(i as int),
            builder.validity_bits() == bits.take(i as int),
            builder.spec_coord_type() == coord_type,
            builder.spec_metadata() == array.spec_metadata(),
        decreases n - i,
    {
        let value = array.value(i);
        proof {
            assert(target.take(i + 1) =~= target.take(i as int).push(target[i as int]));
            assert(bits.take(i + 1) =~= bits.take(i as int).push(bits[i as int]));
        }
        if array.is_valid(i) {
            builder.push_point(Some(&value));
        } else {
            builder.push_point::<Point<'_>>(None);
        }
        i += 1;
    }
    proof {
        assert(target.take(n as int) =~= target);
        assert(bits.take(n as int) =~= bits);
    }
    Ok(builder.finish())
}

/// Wraps points into multi points of one part each.
fn points_to_multi_points(array: &PointArray, width: OffsetWidth, coord_type: CoordType) -> (r: Result<MultiPointArray, GeoArrowError>)
    requires
        array.wf(),
    ensures
        ({
            let target = singletons(array.values(), array.validity_bits());
            if total_len(target) <= width.limit() {
                &&& r matches Ok(a)
                &&& a.wf()
                &&& a.compact()
                &&& a.values() == target
                &&& a.validity_bits() == array.validity_bits()
                &&& a.spec_width() == width
                &&& a.spec_coord_type() == coord_type
                &&& a.spec_metadata() == array.spec_metadata()
            } else {
                r == Err::<MultiPointArray, GeoArrowError>(GeoArrowError::IndexOverflow)
            }
        }),
{
    let ghost target = singletons(array.values(), array.validity_bits());
    let ghost bits = array.validity_bits();
    let n = array.len();
    let mut builder = MultiPointBuilder::with_capacity_and_options(
        width,
        MultiPointCapacity::new_empty(),
        coord_type,
        array.metadata().duplicate(),
    );
    let mut i: usize = 0;
    proof {
        assert(bits.take(0) =~= Seq::<bool>::empty());
        assert(target.take(0) =~= Seq::<Seq<Coord>>::empty());
    }
    while i < n
        invariant
            array.wf(),
            n == array.values().len(),
            n == array.validity_bits().len(),
            i <= n,
            target == singletons(array.values(), array.validity_bits()),
            bits == array.validity_bits(),
            builder.wf(),
            builder.values() == target.take(i as int),
            builder.validity_bits() == bits.take(i as int),
            builder.spec_width() == width,
            builder.spec_coord_type() == coord_type,
            builder.spec_metadata() == array.spec_metadata(),
        decreases n - i,
    {
        let value = array.value(i);
        proof {
            assert(target.take(i + 1) =~= target.take(i as int).push(target[i as int]));
            assert(bits.take(i + 1) =~= bits.take(i as int).push(bits[i as int]));
            lemma_total_len_step(target, i as int);
            lemma_total_len_prefix(target, i + 1);
            lemma_total_len_empty::<Coord>();
        }
        let pushed = if array.is_valid(i) {
            builder.push_point(Some(&value))
        } else {
            builder.push_point::<Point<'_>>(None)
        };
        match pushed {
            Ok(()) => {},
            Err(e) => {
                return Err(e);
            },
        }
        i += 1;
    }
    proof {
        assert(target.take(n as int) =~= target);
        assert(bits.take(n as int) =~= bits);
        builder.lemma_within_limit();
    }
    Ok(builder.finish())
}

/// Stores points as geometries of mixed shape.
fn points_to_mixeds(array: &PointArray, width: OffsetWidth, coord_type: CoordType) -> (r: Result<MixedGeometryArray, GeoArrowError>)
    requires
        array.wf(),
    ensures
        ({
            let target = point_elements(array.values(), array.validity_bits());
            if all_fit(target, width) {
                &&& r matches Ok(a)
                &&& a.wf()
                &&& a.compact()
                &&& a.values() == target
                &&& a.validity_bits() == array.validity_bits()
                &&& a.spec_width() == width
                &&& a.spec_coord_type() == coord_type
                &&& a.spec_metadata() == array.spec_metadata()
            } else {
                r == Err::<MixedGeometryArray, GeoArrowError>(GeoArrowError::IndexOverflow)
            }
        }),
{
    let ghost target = point_elements(array.values(), array.validity_bits());
    let ghost bits = array.validity_bits();
    let n = array.len();
    let mut builder = MixedGeometryBuilder::with_capacity_and_options(
        width,
        MixedCapacity::new_empty(),
        coord_type,
        array.metadata().duplicate(),
        false,
    );
    let mut i: usize = 0;
    proof {
        assert(bits.take(0) =~= Seq::<bool>::empty());
        assert(target.take(0) =~= Seq::<GeometryModel>::empty());
    }
    while i < n
        invariant
            array.wf(),
            n == array.values().len(),
            n == array.validity_bits().len(),
            i <= n,
            target == point_elements(array.values(), array.validity_bits()),
            bits == array.validity_bits(),
            builder.wf(),
            builder.values() == target.take(i as int),
            all_fit(target.take(i as int), width),
            !builder.spec_prefer_multi(),
            builder.validity_bits() == bits.take(i as int),
            builder.spec_width() == width,
            builder.spec_coord_type() == coord_type,
            builder.spec_metadata() == array.spec_metadata(),
        decreases n - i,
    {
        let value = array.value(i);
        proof {
            assert(target.take(i + 1) =~= target.take(i as int).push(target[i as int]));
            assert(bits.take(i + 1) =~= bits.take(i as int).push(bits[i as int]));
            lemma_children_push(target.take(i as int), target[i as int], width);
            if all_fit(target, width) {
                lemma_all_fit_prefix(target, width, i + 1);
            }
        }
        let pushed = if array.is_valid(i) {
            builder.push_point(Some(&value))
        } else {
            builder.push_point::<Point<'_>>(None)
        };
        match pushed {
            Ok(()) => {},
            Err(e) => {
                return Err(e);
            },
        }
        i += 1;
    }
    proof {
        assert(target.take(n as int) =~= target);
        assert(bits.take(n as int) =~= bits);
    }
    Ok(builder.finish())
}

/// Wraps points into geometry collections of one member each.
fn points_to_geometry_collections(array: &PointArray, width: OffsetWidth, coord_type: CoordType) -> (r: Result<GeometryCollectionArray, GeoArrowError>)
    requires
        array.wf(),
    ensures
        ({
            let target = point_elements(array.values(), array.validity_bits());
            if collections_fit(target, array.validity_bits(), width) {
                &&& r matches Ok(a)
                &&& a.wf()
                &&& a.compact()
                &&& a.values() == singletons(target, array.validity_bits())
                &&& a.validity_bits() == array.validity_bits()
                &&& a.member_bits() == singletons(
                    Seq::new(target.len(), |i: int| true),
                    array.validity_bits(),
                )
                &&& a.spec_width() == width
                &&& a.spec_coord_type() == coord_type
                &&& a.spec_metadata() == array.spec_metadata()
            } else {
                r == Err::<GeometryCollectionArray, GeoArrowError>(GeoArrowError::IndexOverflow)
            }
        }),
{
    let ghost target = point_elements(array.values(), array.validity_bits());
    let ghost bits = array.validity_bits();
    let ghost collections = singletons(target, bits);
    let ghost units = singletons(Seq::new(target.len(), |i: int| true), bits);
    let n = array.len();
    let mut builder = GeometryCollectionBuilder::with_capacity_and_options(
        width,
        GeometryCollectionCapacity::new(MixedCapacity::new_empty(), n),
        coord_type,
        array.metadata().duplicate(),
    );
    let mut i: usize = 0;
    proof {
        assert(bits.take(0) =~= Seq::<bool>::empty());
        assert(collections.take(0) =~= Seq::<Seq<GeometryModel>>::empty());
        assert(units.take(0) =~= Seq::<Seq<bool>>::empty());
        assert(target.take(0) =~= Seq::<GeometryModel>::empty());
    }
    while i < n
        invariant
            array.wf(),
            n == array.values().len(),
            n == array.validity_bits().len(),
            i <= n,
            target == point_elements(array.values(), array.validity_bits()),
            bits == array.validity_bits(),
            builder.wf(),
            collections == singletons(target, bits),
            units == singletons(Seq::new(target.len(), |i: int| true), bits),
            builder.values() == collections.take(i as int),
            builder.member_bits() == units.take(i as int),
            builder.members() == members_of(target.take(i as int), bits.take(i as int)),
            collections_fit(target.take(i as int), bits.take(i as int), width),
            builder.validity_bits() == bits.take(i as int),
            builder.spec_width() == width,
            builder.spec_coord_type() == coord_type,
            builder.spec_metadata() == array.spec_metadata(),
        decreases n - i,
    {
        let value = array.value(i);
        proof {
            assert(target.take(i + 1) =~= target.take(i as int).push(target[i as int]));
            assert(bits.take(i + 1) =~= bits.take(i as int).push(bits[i as int]));
            lemma_collections_step(target, bits, width, i as int);
            if collections_fit(target, bits, width) {
                lemma_collections_fit_prefix(target, bits, width, i + 1);
            }
            assert(units.take(i + 1) =~= units.take(i as int).push(units[i as int]));
            assert(collections.take(i + 1) =~= collections.take(i as int).push(collections[i as int]));
        }
        let pushed = if array.is_valid(i) {
            builder.push_point(Some(&value), false)
        } else {
            builder.push_point::<Point<'_>>(None, false)
        };
        match pushed {
            Ok(()) => {},
            Err(e) => {
                return Err(e);
            },
        }
        i += 1;
    }
    proof {
        assert(target.take(n as int) =~= target);
        assert(bits.take(n as int) =~= bits);
        assert(collections.take(n as int) =~= collections);
        assert(units.take(n as int) =~= units);
    }
    Ok(builder.finish())
}

/// What casting `array` to `to_type` returns.
///
/// The cast is defined for the shapes that points can be read as; any other
/// target fails with [`GeoArrowError::ShapeMismatch`].
pub open spec fn point_cast(
    array: &PointArray,
    to_type: GeoDataType,
    r: Result<GeometryArray, GeoArrowError>,
) -> bool {
    match to_type.spec_shape() {
        Some(Shape::Point) => point_result(
            r,
            present_points(array.values(), array.validity_bits()),
            array.validity_bits(),
            to_type,
            array.spec_metadata(),
        ),
        Some(Shape::MultiPoint) => multi_point_result(
            r,
            singletons(array.values(), array.validity_bits()),
            array.validity_bits(),
            to_type,
            array.spec_metadata(),
        ),
        Some(Shape::Mixed) => mixed_result(
            r,
            point_elements(array.values(), array.validity_bits()),
            array.validity_bits(),
            to_type,
            array.spec_metadata(),
        ),
        Some(Shape::GeometryCollection) => collection_result(
            r,
            point_elements(array.values(), array.validity_bits()),
            array.validity_bits(),
            to_type,
            array.spec_metadata(),
        ),
        _ => r == Err::<GeometryArray, GeoArrowError>(GeoArrowError::ShapeMismatch),
    }
}

/// Casts an array of points to `to_type`.
pub fn cast_point_array(array: &PointArray, to_type: &GeoDataType) -> (r: Result<
    GeometryArray,
    GeoArrowError,
>)
    requires
        array.wf(),
    ensures
        point_cast(array, *to_type, r),
{
    match (to_type.shape(), to_type.coord_type()) {
        (Some(Shape::Point), Some(coord_type)) => match points_to_points(array, coord_type) {
            Ok(a) => Ok(GeometryArray::Point(a)),
            Err(e) => Err(e),
        },
        (Some(Shape::MultiPoint), Some(coord_type)) => match points_to_multi_points(array, to_type.width(), coord_type) {
            Ok(a) => Ok(GeometryArray::MultiPoint(a)),
            Err(e) => Err(e),
        },
        (Some(Shape::Mixed), Some(coord_type)) => match points_to_mixeds(array, to_type.width(), coord_type) {
            Ok(a) => Ok(GeometryArray::Mixed(a)),
            Err(e) => Err(e),
        },
        (Some(Shape::GeometryCollection), Some(coord_type)) => match points_to_geometry_collections(array, to_type.width(), coord_type) {
            Ok(a) => Ok(GeometryArray::GeometryCollection(a)),
            Err(e) => Err(e),
        },
        _ => Err(GeoArrowError::ShapeMismatch),
    }
}

/// Rebuilds line strings with another coordinate layout or offset width.
fn line_strings_to_line_strings(array: &LineStringArray, width: OffsetWidth, coord_type: CoordType) -> (r: Result<LineStringArray, GeoArrowError>)
    requires
        array.wf(),
    ensures
        ({
            let target = present(array.values(), array.validity_bits());
            if total_len(target) <= width.limit() {
                &&& r matches Ok(a)
                &&& a.wf()
                &&& a.compact()
                &&& a.values() == target
                &&& a.validity_bits() == array.validity_bits()
                &&& a.spec_width() == width
                &&& a.spec_coord_type() == coord_type
                &&& a.spec_metadata() == array.spec_metadata()
            } else {
                r == Err::<LineStringArray, GeoArrowError>(GeoArrowError::IndexOverflow)
            }
        }),
{
    let ghost target = present(array.values(), array.validity_bits());
    let ghost bits = array.validity_bits();
    let n = array.len();
    let mut builder = LineStringBuilder::with_capacity_and_options(
        width,
        array.buffer_lengths(),
        coord_type,
        array.metadata().duplicate(),
    );
    let mut i: usize = 0;
    proof {
        assert(bits.take(0) =~= Seq::<bool>::empty());
        assert(target.take(0) =~= Seq::<Seq<Coord>>::empty());
    }
    while i < n
        invariant
            array.wf(),
            n == array.values().len(),
            n == array.validity_bits().len(),
            i <= n,
            target == present(array.values(), array.validity_bits()),
            bits == array.validity_bits(),
            builder.wf(),
            builder.values() == target.take(i as int),
            builder.validity_bits() == bits.take(i as int),
            builder.spec_width() == width,
            builder.spec_coord_type() == coord_type,
            builder.spec_metadata() == array.spec_metadata(),
        decreases n - i,
    {
        let value = array.value(i);
        proof {
            assert(target.take(i + 1) =~= target.take(i as int).push(target[i as int]));
            assert(bits.take(i + 1) =~= bits.take(i as int).push(bits[i as int]));
            lemma_total_len_step(target, i as int);
            lemma_total_len_prefix(target, i + 1);
            lemma_total_len_empty::<Coord>();
        }
        let pushed = if array.is_valid(i) {
            builder.push_line_string(Some(&value))
        } else {
            builder.push_line_string::<LineString<'_>>(None)
        };
        match pushed {
            Ok(()) => {},
            Err(e) => {
                return Err(e);
            },
        }
        i += 1;
    }
    proof {
        assert(target.take(n as int) =~= target);
        assert(bits.take(n as int) =~= bits);
        builder.lemma_within_limit();
    }
    Ok(builder.finish())
}

/// Wraps line strings into multi line strings of one part each.
fn line_strings_to_multi_line_strings(array: &LineStringArray, width: OffsetWidth, coord_type: CoordType) -> (r: Result<MultiLineStringArray, GeoArrowError>)
    requires
        array.wf(),
    ensures
        ({
            let target = singletons(array.values(), array.validity_bits());
            if total_len(target) <= width.limit() && total_len2(target) <= width.limit() {
                &&& r matches Ok(a)
                &&& a.wf()
                &&& a.compact()
                &&& a.values() == target
                &&& a.validity_bits() == array.validity_bits()
                &&& a.spec_width() == width
                &&& a.spec_coord_type() == coord_type
                &&& a.spec_metadata() == array.spec_metadata()
            } else {
                r == Err::<MultiLineStringArray, GeoArrowError>(GeoArrowError::IndexOverflow)
            }
        }),
{
    let ghost target = singletons(array.values(), array.validity_bits());
    let ghost bits = array.validity_bits();
    let n = array.len();
    let mut builder = MultiLineStringBuilder::with_capacity_and_options(
        width,
        MultiLineStringCapacity::new_empty(),
        coord_type,
        array.metadata().duplicate(),
    );
    let mut i: usize = 0;
    proof {
        assert(bits.take(0) =~= Seq::<bool>::empty());
        assert(target.take(0) =~= Seq::<Seq<Seq<Coord>>>::empty());
    }
    while i < n
        invariant
            array.wf(),
            n == array.values().len(),
            n == array.validity_bits().len(),
            i <= n,
            target == singletons(array.values(), array.validity_bits()),
            bits == array.validity_bits(),
            builder.wf(),
            builder.values() == target.take(i as int),
            builder.validity_bits() == bits.take(i as int),
            builder.spec_width() == width,
            builder.spec_coord_type() == coord_type,
            builder.spec_metadata() == array.spec_metadata(),
        decreases n - i,
    {
        let value = array.value(i);
        proof {
            assert(target.take(i + 1) =~= target.take(i as int).push(target[i as int]));
            assert(bits.take(i + 1) =~= bits.take(i as int).push(bits[i as int]));
            lemma_total_len_step(target, i as int);
            lemma_total_len_prefix(target, i + 1);
            lemma_total_len2_step(target, i as int);
            lemma_total_len2_prefix(target, i + 1);
            lemma_total_len_one(array.values()[i as int]);
            lemma_total_len_empty::<Coord>();
        }
        let pushed = if array.is_valid(i) {
            builder.push_line_string(Some(&value))
        } else {
            builder.push_line_string::<LineString<'_>>(None)
        };
        match pushed {
            Ok(()) => {},
            Err(e) => {
                return Err(e);
            },
        }
        i += 1;
    }
    proof {
        assert(target.take(n as int) =~= target);
        assert(bits.take(n as int) =~= bits);
        builder.lemma_within_limit();
    }
    Ok(builder.finish())
}

/// Stores line strings as geometries of mixed shape.
fn line_strings_to_mixeds(array: &LineStringArray, width: OffsetWidth, coord_type: CoordType) -> (r: Result<MixedGeometryArray, GeoArrowError>)
    requires
        array.wf(),
    ensures
        ({
            let target = line_string_elements(array.values(), array.validity_bits());
            if all_fit(target, width) {
                &&& r matches Ok(a)
                &&& a.wf()
                &&& a.compact()
                &&& a.values() == target
                &&& a.validity_bits() == array.validity_bits()
                &&& a.spec_width() == width
                &&& a.spec_coord_type() == coord_type
                &&& a.spec_metadata() == array.spec_metadata()
            } else {
                r == Err::<MixedGeometryArray, GeoArrowError>(GeoArrowError::IndexOverflow)
            }
        }),
{
    let ghost target = line_string_elements(array.values(), array.validity_bits());
    let ghost bits = array.validity_bits();
    let n = array.len();
    let mut builder = MixedGeometryBuilder::with_capacity_and_options(
        width,
        MixedCapacity::new_empty(),
        coord_type,
        array.metadata().duplicate(),
        false,
    );
    let mut i: usize = 0;
    proof {
        assert(bits.take(0) =~= Seq::<bool>::empty());
        assert(target.take(0) =~= Seq::<GeometryModel>::empty());
    }
    while i < n
        invariant
            array.wf(),
            n == array.values().len(),
            n == array.validity_bits().len(),
            i <= n,
            target == line_string_elements(array.values(), array.validity_bits()),
            bits == array.validity_bits(),
            builder.wf(),
            builder.values() == target.take(i as int),
            all_fit(target.take(i as int), width),
            !builder.spec_prefer_multi(),
            builder.validity_bits() == bits.take(i as int),
            builder.spec_width() == width,
            builder.spec_coord_type() == coord_type,
            builder.spec_metadata() == array.spec_metadata(),
        decreases n - i,
    {
        let value = array.value(i);
        proof {
            assert(target.take(i + 1) =~= target.take(i as int).push(target[i as int]));
            assert(bits.take(i + 1) =~= bits.take(i as int).push(bits[i as int]));
            lemma_children_push(target.take(i as int), target[i as int], width);
            if all_fit(target, width) {
                lemma_all_fit_prefix(target, width, i + 1);
            }
        }
        let pushed = if array.is_valid(i) {
            builder.push_line_string(Some(&value))
        } else {
            builder.push_line_string::<LineString<'_>>(None)
        };
        match pushed {
            Ok(()) => {},
            Err(e) => {
                return Err(e);
            },
        }
        i += 1;
    }
    proof {
        assert(target.take(n as int) =~= target);
        assert(bits.take(n as int) =~= bits);
    }
    Ok(builder.finish())
}

/// Wraps line strings into geometry collections of one member each.
fn line_strings_to_geometry_collections(array: &LineStringArray, width: OffsetWidth, coord_type: CoordType) -> (r: Result<GeometryCollectionArray, GeoArrowError>)
    requires
        array.wf(),
    ensures
        ({
            let target = line_string_elements(array.values(), array.validity_bits());
            if collections_fit(target, array.validity_bits(), width) {
                &&& r matches Ok(a)
                &&& a.wf()
                &&& a.compact()
                &&& a.values() == singletons(target, array.validity_bits())
                &&& a.validity_bits() == array.validity_bits()
                &&& a.member_bits() == singletons(
                    Seq::new(target.len(), |i: int| true),
                    array.validity_bits(),
                )
                &&& a.spec_width() == width
                &&& a.spec_coord_type() == coord_type
                &&& a.spec_metadata() == array.spec_metadata()
            } else {
                r == Err::<GeometryCollectionArray, GeoArrowError>(GeoArrowError::IndexOverflow)
            }
        }),
{
    let ghost target = line_string_elements(array.values(), array.validity_bits());
    let ghost bits = array.validity_bits();
    let ghost collections = singletons(target, bits);
    let ghost units = singletons(Seq::new(target.len(), |i: int| true), bits);
    let n = array.len();
    let mut builder = GeometryCollectionBuilder::with_capacity_and_options(
        width,
        GeometryCollectionCapacity::new(MixedCapacity::new_empty(), n),
        coord_type,
        array.metadata().duplicate(),
    );
    let mut i: usize = 0;
    proof {
        assert(bits.take(0) =~= Seq::<bool>::empty());
        assert(collections.take(0) =~= Seq::<Seq<GeometryModel>>::empty());
        assert(units.take(0) =~= Seq::<Seq<bool>>::empty());
        assert(target.take(0) =~= Seq::<GeometryModel>::empty());
    }
    while i < n
        invariant
            array.wf(),
            n == array.values().len(),
            n == array.validity_bits().len(),
            i <= n,
            target == line_string_elements(array.values(), array.validity_bits()),
            bits == array.validity_bits(),
            builder.wf(),
            collections == singletons(target, bits),
            units == singletons(Seq::new(target.len(), |i: int| true), bits),
            builder.values() == collections.take(i as int),
            builder.member_bits() == units.take(i as int),
            builder.members() == members_of(target.take(i as int), bits.take(i as int)),
            collections_fit(target.take(i as int), bits.take(i as int), width),
            builder.validity_bits() == bits.take(i as int),
            builder.spec_width() == width,
            builder.spec_coord_type() == coord_type,
            builder.spec_metadata() == array.spec_metadata(),
        decreases n - i,
    {
        let value = array.value(i);
        proof {
            assert(target.take(i + 1) =~= target.take(i as int).push(target[i as int]));
            assert(bits.take(i + 1) =~= bits.take(i as int).push(bits[i as int]));
            lemma_collections_step(target, bits, width, i as int);
            if collections_fit(target, bits, width) {
                lemma_collections_fit_prefix(target, bits, width, i + 1);
            }
            assert(units.take(i + 1) =~= units.take(i as int).push(units[i as int]));
            assert(collections.take(i + 1) =~= collections.take(i as int).push(collections[i as int]));
        }
        let pushed = if array.is_valid(i) {
            builder.push_line_string(Some(&value), false)
        } else {
            builder.push_line_string::<LineString<'_>>(None, false)
        };
        match pushed {
            Ok(()) => {},
            Err(e) => {
                return Err(e);
            },
        }
        i += 1;
    }
    proof {
        assert(target.take(n as int) =~= target);
        assert(bits.take(n as int) =~= bits);
        assert(collections.take(n as int) =~= collections);
        assert(units.take(n as int) =~= units);
    }
    Ok(builder.finish())
}

/// What casting `array` to `to_type` returns.
///
/// The cast is defined for the shapes that line strings can be read as; any other
/// target fails with [`GeoArrowError::ShapeMismatch`].
pub open spec fn line_string_cast(
    array: &LineStringArray,
    to_type: GeoDataType,
    r: Result<GeometryArray, GeoArrowError>,
) -> bool {
    match to_type.spec_shape() {
        Some(Shape::LineString) => line_string_result(
            r,
            present(array.values(), array.validity_bits()),
            array.validity_bits(),
            to_type,
            array.spec_metadata(),
        ),
        Some(Shape::MultiLineString) => multi_line_string_result(
            r,
            singletons(array.values(), array.validity_bits()),
            array.validity_bits(),
            to_type,
            array.spec_metadata(),
        ),
        Some(Shape::Mixed) => mixed_result(
            r,
            line_string_elements(array.values(), array.validity_bits()),
            array.validity_bits(),
            to_type,
            array.spec_metadata(),
        ),
        Some(Shape::GeometryCollection) => collection_result(
            r,
            line_string_elements(array.values(), array.validity_bits()),
            array.validity_bits(),
            to_type,
            array.spec_metadata(),
        ),
        _ => r == Err::<GeometryArray, GeoArrowError>(GeoArrowError::ShapeMismatch),
    }
}

/// Casts an array of line strings to `to_type`.
pub fn cast_line_string_array(array: &LineStringArray, to_type: &GeoDataType) -> (r: Result<
    GeometryArray,
    GeoArrowError,
>)
    requires
        array.wf(),
    ensures
        line_string_cast(array, *to_type, r),
{
    match (to_type.shape(), to_type.coord_type()) {
        (Some(Shape::LineString), Some(coord_type)) => match line_strings_to_line_strings(array, to_type.width(), coord_type) {
            Ok(a) => Ok(GeometryArray::LineString(a)),
            Err(e) => Err(e),
        },
        (Some(Shape::MultiLineString), Some(coord_type)) => match line_strings_to_multi_line_strings(array, to_type.width(), coord_type) {
            Ok(a) => Ok(GeometryArray::MultiLineString(a)),
            Err(e) => Err(e),
        },
        (Some(Shape::Mixed), Some(coord_type)) => match line_strings_to_mixeds(array, to_type.width(), coord_type) {
            Ok(a) => Ok(GeometryArray::Mixed(a)),
            Err(e) => Err(e),
        },
        (Some(Shape::GeometryCollection), Some(coord_type)) => match line_strings_to_geometry_collections(array, to_type.width(), coord_type) {
            Ok(a) => Ok(GeometryArray::GeometryCollection(a)),
            Err(e) => Err(e),
        },
        _ => Err(GeoArrowError::ShapeMismatch),
    }
}

/// Rebuilds polygons with another coordinate layout or offset width.
fn polygons_to_polygons(array: &PolygonArray, width: OffsetWidth, coord_type: CoordType) -> (r: Result<PolygonArray, GeoArrowError>)
    requires
        array.wf(),
    ensures
        ({
            let target = present(array.values(), array.validity_bits());
            if total_len(target) <= width.limit() && total_len2(target) <= width.limit() {
                &&& r matches Ok(a)
                &&& a.wf()
                &&& a.compact()
                &&& a.values() == target
                &&& a.validity_bits() == array.validity_bits()
                &&& a.spec_width() == width
                &&& a.spec_coord_type() == coord_type
                &&& a.spec_metadata() == array.spec_metadata()
            } else {
                r == Err::<PolygonArray, GeoArrowError>(GeoArrowError::IndexOverflow)
            }
        }),
{
    let ghost target = present(array.values(), array.validity_bits());
    let ghost bits = array.validity_bits();
    let n = array.len();
    let mut builder = PolygonBuilder::with_capacity_and_options(
        width,
        array.buffer_lengths(),
        coord_type,
        array.metadata().duplicate(),
    );
    let mut i: usize = 0;
    proof {
        assert(bits.take(0) =~= Seq::<bool>::empty());
        assert(target.take(0) =~= Seq::<Seq<Seq<Coord>>>::empty());
    }
    while i < n
        invariant
            array.wf(),
            n == array.values().len(),
            n == array.validity_bits().len(),
            i <= n,
            target == present(array.values(), array.validity_bits()),
            bits == array.validity_bits(),
            builder.wf(),
            builder.values() == target.take(i as int),
            builder.validity_bits() == bits.take(i as int),
            builder.spec_width() == width,
            builder.spec_coord_type() == coord_type,
            builder.spec_metadata() == array.spec_metadata(),
        decreases n - i,
    {
        let value = array.value(i);
        proof {
            assert(target.take(i + 1) =~= target.take(i as int).push(target[i as int]));
            assert(bits.take(i + 1) =~= bits.take(i as int).push(bits[i as int]));
            lemma_total_len_step(target, i as int);
            lemma_total_len_prefix(target, i + 1);
            lemma_total_len2_step(target, i as int);
            lemma_total_len2_prefix(target, i + 1);
            lemma_total_len_empty::<Coord>();
        }
        let pushed = if array.is_valid(i) {
            builder.push_polygon(Some(&value))
        } else {
            builder.push_polygon::<Polygon<'_>>(None)
        };
        match pushed {
            Ok(()) => {},
            Err(e) => {
                return Err(e);
            },
        }
        i += 1;
    }
    proof {
        assert(target.take(n as int) =~= target);
        assert(bits.take(n as int) =~= bits);
        builder.lemma_within_limit();
    }
    Ok(builder.finish())
}

/// Wraps polygons into multi polygons of one part each.
fn polygons_to_multi_polygons(array: &PolygonArray, width: OffsetWidth, coord_type: CoordType) -> (r: Result<MultiPolygonArray, GeoArrowError>)
    requires
        array.wf(),
    ensures
        ({
            let target = singletons(array.values(), array.validity_bits());
            if total_len(target) <= width.limit() && total_len2(target) <= width.limit()
                && total_len3(target) <= width.limit() {
                &&& r matches Ok(a)
                &&& a.wf()
                &&& a.compact()
                &&& a.values() == target
                &&& a.validity_bits() == array.validity_bits()
                &&& a.spec_width() == width
                &&& a.spec_coord_type() == coord_type
                &&& a.spec_metadata() == array.spec_metadata()
            } else {
                r == Err::<MultiPolygonArray, GeoArrowError>(GeoArrowError::IndexOverflow)
            }
        }),
{
    let ghost target = singletons(array.values(), array.validity_bits());
    let ghost bits = array.validity_bits();
    let n = array.len();
    let mut builder = MultiPolygonBuilder::with_capacity_and_options(
        width,
        MultiPolygonCapacity::new_empty(),
        coord_type,
        array.metadata().duplicate(),
    );
    let mut i: usize = 0;
    proof {
        assert(bits.take(0) =~= Seq::<bool>::empty());
        assert(target.take(0) =~= Seq::<Seq<Seq<Seq<Coord>>>>::empty());
    }
    while i < n
        invariant
            array.wf(),
            n == array.values().len(),
            n == array.validity_bits().len(),
            i <= n,
            target == singletons(array.values(), array.validity_bits()),
            bits == array.validity_bits(),
            builder.wf(),
            builder.values() == target.take(i as int),
            builder.validity_bits() == bits.take(i as int),
            builder.spec_width() == width,
            builder.spec_coord_type() == coord_type,
            builder.spec_metadata() == array.spec_metadata(),
        decreases n - i,
    {
        let value = array.value(i);
        proof {
            assert(target.take(i + 1) =~= target.take(i as int).push(target[i as int]));
            assert(bits.take(i + 1) =~= bits.take(i as int).push(bits[i as int]));
            lemma_total_len_step(target, i as int);
            lemma_total_len_prefix(target, i + 1);
            lemma_total_len2_step(target, i as int);
            lemma_total_len2_prefix(target, i + 1);
            lemma_total_len3_step(target, i as int);
            lemma_total_len3_prefix(target, i + 1);
            lemma_total_len_one(array.values()[i as int]);
            lemma_total_len2_one(array.values()[i as int]);
            lemma_total_len_empty::<Coord>();
        }
        let pushed = if array.is_valid(i) {
            builder.push_polygon(Some(&value))
        } else {
            builder.push_polygon::<Polygon<'_>>(None)
        };
        match pushed {
            Ok(()) => {},
            Err(e) => {
                return Err(e);
            },
        }
        i += 1;
    }
    proof {
        assert(target.take(n as int) =~= target);
        assert(bits.take(n as int) =~= bits);
        builder.lemma_within_limit();
    }
    Ok(builder.finish())
}

/// Stores polygons as geometries of mixed shape.
fn polygons_to_mixeds(array: &PolygonArray, width: OffsetWidth, coord_type: CoordType) -> (r: Result<MixedGeometryArray, GeoArrowError>)
    requires
        array.wf(),
    ensures
        ({
            let target = polygon_elements(array.values(), array.validity_bits());
            if all_fit(target, width) {
                &&& r matches Ok(a)
                &&& a.wf()
                &&& a.compact()
                &&& a.values() == target
                &&& a.validity_bits() == array.validity_bits()
                &&& a.spec_width() == width
                &&& a.spec_coord_type() == coord_type
                &&& a.spec_metadata() == array.spec_metadata()
            } else {
                r == Err::<MixedGeometryArray, GeoArrowError>(GeoArrowError::IndexOverflow)
            }
        }),
{
    let ghost target = polygon_elements(array.values(), array.validity_bits());
    let ghost bits = array.validity_bits();
    let n = array.len();
    let mut builder = MixedGeometryBuilder::with_capacity_and_options(
        width,
        MixedCapacity::new_empty(),
        coord_type,
        array.metadata().duplicate(),
        false,
    );
    let mut i: usize = 0;
    proof {
        assert(bits.take(0) =~= Seq::<bool>::empty());
        assert(target.take(0) =~= Seq::<GeometryModel>::empty());
    }
    while i < n
        invariant
            array.wf(),
            n == array.values().len(),
            n == array.validity_bits().len(),
            i <= n,
            target == polygon_elements(array.values(), array.validity_bits()),
            bits == array.validity_bits(),
            builder.wf(),
            builder.values() == target.take(i as int),
            all_fit(target.take(i as int), width),
            !builder.spec_prefer_multi(),
            builder.validity_bits() == bits.take(i as int),
            builder.spec_width() == width,
            builder.spec_coord_type() == coord_type,
            builder.spec_metadata() == array.spec_metadata(),
        decreases n - i,
    {
        let value = array.value(i);
        proof {
            assert(target.take(i + 1) =~= target.take(i as int).push(target[i as int]));
            assert(bits.take(i + 1) =~= bits.take(i as int).push(bits[i as int]));
            lemma_children_push(target.take(i as int), target[i as int], width);
            if all_fit(target, width) {
                lemma_all_fit_prefix(target, width, i + 1);
            }
        }
        let pushed = if array.is_valid(i) {
            builder.push_polygon(Some(&value))
        } else {
            builder.push_polygon::<Polygon<'_>>(None)
        };
        match pushed {
            Ok(()) => {},
            Err(e) => {
                return Err(e);
            },
        }
        i += 1;
    }
    proof {
        assert(target.take(n as int) =~= target);
        assert(bits.take(n as int) =~= bits);
    }
    Ok(builder.finish())
}

/// Wraps polygons into geometry collections of one member each.
fn polygons_to_geometry_collections(array: &PolygonArray, width: OffsetWidth, coord_type: CoordType) -> (r: Result<GeometryCollectionArray, GeoArrowError>)
    requires
        array.wf(),
    ensures
        ({
            let target = polygon_elements(array.values(), array.validity_bits());
            if collections_fit(target, array.validity_bits(), width) {
                &&& r matches Ok(a)
                &&& a.wf()
                &&& a.compact()
                &&& a.values() == singletons(target, array.validity_bits())
                &&& a.validity_bits() == array.validity_bits()
                &&& a.member_bits() == singletons(
                    Seq::new(target.len(), |i: int| true),
                    array.validity_bits(),
                )
                &&& a.spec_width() == width
                &&& a.spec_coord_type() == coord_type
                &&& a.spec_metadata() == array.spec_metadata()
            } else {
                r == Err::<GeometryCollectionArray, GeoArrowError>(GeoArrowError::IndexOverflow)
            }
        }),
{
    let ghost target = polygon_elements(array.values(), array.validity_bits());
    let ghost bits = array.validity_bits();
    let ghost collections = singletons(target, bits);
    let ghost units = singletons(Seq::new(target.len(), |i: int| true), bits);
    let n = array.len();
    let mut builder = GeometryCollectionBuilder::with_capacity_and_options(
        width,
        GeometryCollectionCapacity::new(MixedCapacity::new_empty(), n),
        coord_type,
        array.metadata().duplicate(),
    );
    let mut i: usize = 0;
    proof {
        assert(bits.take(0) =~= Seq::<bool>::empty());
        assert(collections.take(0) =~= Seq::<Seq<GeometryModel>>::empty());
        assert(units.take(0) =~= Seq::<Seq<bool>>::empty());
        assert(target.take(0) =~= Seq::<GeometryModel>::empty());
    }
    while i < n
        invariant
            array.wf(),
            n == array.values().len(),
            n == array.validity_bits().len(),
            i <= n,
            target == polygon_elements(array.values(), array.validity_bits()),
            bits == array.validity_bits(),
            builder.wf(),
            collections == singletons(target, bits),
            units == singletons(Seq::new(target.len(), |i: int| true), bits),
            builder.values() == collections.take(i as int),
            builder.member_bits() == units.take(i as int),
            builder.members() == members_of(target.take(i as int), bits.take(i as int)),
            collections_fit(target.take(i as int), bits.take(i as int), width),
            builder.validity_bits() == bits.take(i as int),
            builder.spec_width() == width,
            builder.spec_coord_type() == coord_type,
            builder.spec_metadata() == array.spec_metadata(),
        decreases n - i,
    {
        let value = array.value(i);
        proof {
            assert(target.take(i + 1) =~= target.take(i as int).push(target[i as int]));
            assert(bits.take(i + 1) =~= bits.take(i as int).push(bits[i as int]));
            lemma_collections_step(target, bits, width, i as int);
            if collections_fit(target, bits, width) {
                lemma_collections_fit_prefix(target, bits, width, i + 1);
            }
            assert(units.take(i + 1) =~= units.take(i as int).push(units[i as int]));
            assert(collections.take(i + 1) =~= collections.take(i as int).push(collections[i as int]));
        }
        let pushed = if array.is_valid(i) {
            builder.push_polygon(Some(&value), false)
        } else {
            builder.push_polygon::<Polygon<'_>>(None, false)
        };
        match pushed {
            Ok(()) => {},
            Err(e) => {
                return Err(e);
            },
        }
        i += 1;
    }
    proof {
        assert(target.take(n as int) =~= target);
        assert(bits.take(n as int) =~= bits);
        assert(collections.take(n as int) =~= collections);
        assert(units.take(n as int) =~= units);
    }
    Ok(builder.finish())
}

/// What casting `array` to `to_type` returns.
///
/// The cast is defined for the shapes that polygons can be read as; any other
/// target fails with [`GeoArrowError::ShapeMismatch`].
pub open spec fn polygon_cast(
    array: &PolygonArray,
    to_type: GeoDataType,
    r: Result<GeometryArray, GeoArrowError>,
) -> bool {
    match to_type.spec_shape() {
        Some(Shape::Polygon) => polygon_result(
            r,
            present(array.values(), array.validity_bits()),
            array.validity_bits(),
            to_type,
            array.spec_metadata(),
        ),
        Some(Shape::MultiPolygon) => multi_polygon_result(
            r,
            singletons(array.values(), array.validity_bits()),
            array.validity_bits(),
            to_type,
            array.spec_metadata(),
        ),
        Some(Shape::Mixed) => mixed_result(
            r,
            polygon_elements(array.values(), array.validity_bits()),
            array.validity_bits(),
            to_type,
            array.spec_metadata(),
        ),
        Some(Shape::GeometryCollection) => collection_result(
            r,
            polygon_elements(array.values(), array.validity_bits()),
            array.validity_bits(),
            to_type,
            array.spec_metadata(),
        ),
        _ => r == Err::<GeometryArray, GeoArrowError>(GeoArrowError::ShapeMismatch),
    }
}

/// Casts an array of polygons to `to_type`.
pub fn cast_polygon_array(array: &PolygonArray, to_type: &GeoDataType) -> (r: Result<
    GeometryArray,
    GeoArrowError,
>)
    requires
        array.wf(),
    ensures
        polygon_cast(array, *to_type, r),
{
    match (to_type.shape(), to_type.coord_type()) {
        (Some(Shape::Polygon), Some(coord_type)) => match polygons_to_polygons(array, to_type.width(), coord_type) {
            Ok(a) => Ok(GeometryArray::Polygon(a)),
            Err(e) => Err(e),
        },
        (Some(Shape::MultiPolygon), Some(coord_type)) => match polygons_to_multi_polygons(array, to_type.width(), coord_type) {
            Ok(a) => Ok(GeometryArray::MultiPolygon(a)),
            Err(e) => Err(e),
        },
        (Some(Shape::Mixed), Some(coord_type)) => match polygons_to_mixeds(array, to_type.width(), coord_type) {
            Ok(a) => Ok(GeometryArray::Mixed(a)),
            Err(e) => Err(e),
        },
        (Some(Shape::GeometryCollection), Some(coord_type)) => match polygons_to_geometry_collections(array, to_type.width(), coord_type) {
            Ok(a) => Ok(GeometryArray::GeometryCollection(a)),
            Err(e) => Err(e),
        },
        _ => Err(GeoArrowError::ShapeMismatch),
    }
}

/// Unwraps multi points of one part each into points.
fn multi_points_to_points(array: &MultiPointArray, coord_type: CoordType) -> (r: Result<PointArray, GeoArrowError>)
    requires
        array.wf(),
    ensures
        ({
            let target = firsts(array.values(), array.validity_bits(), absent_point());
            if !all_single(array.values()) {
                r == Err::<PointArray, GeoArrowError>(GeoArrowError::ShapeMismatch)
            } else {
                &&& r matches Ok(a)
                &&& a.wf()
                &&& a.compact()
                &&& a.values() == target
                &&& a.validity_bits() == array.validity_bits()
                &&& a.spec_coord_type() == coord_type
                &&& a.spec_metadata() == array.spec_metadata()
            }
        }),
{
    proof {
        array.lemma_values();
    }
    if !all_runs_single(array.geom_offsets()) {
        proof {
            let j = choose|j: int|
                0 <= j < run_count(array.spec_geom_offsets()) && #[trigger] array.spec_geom_offsets()[j
                    + 1] - array.spec_geom_offsets()[j] != 1;
            assert(array.spec_geom_offsets()[j + 1] <= array.spec_geom_offsets().last());
            assert(array.values()[j].len() != 1);
        }
        return Err(GeoArrowError::ShapeMismatch);
    }
    proof {
        assert forall|j: int| 0 <= j < array.values().len() implies (#[trigger] array.values()[j]).len()
            == 1 by {
            assert(array.spec_geom_offsets()[j + 1] - array.spec_geom_offsets()[j] == 1);
            assert(array.spec_geom_offsets()[j + 1] <= array.spec_geom_offsets().last());
        }
    }
    let ghost target = firsts(array.values(), array.validity_bits(), absent_point());
    let ghost bits = array.validity_bits();
    let n = array.len();
    let mut builder = PointBuilder::with_capacity_and_options(
        array.len(),
        coord_type,
        array.metadata().duplicate(),
    );
    let mut i: usize = 0;
    proof {
        assert(bits.take(0) =~= Seq::<bool>::empty());
        assert(target.take(0) =~= Seq::<Coord>::empty());
    }
    while i < n
        invariant
            array.wf(),
            n == array.values().len(),
            n == array.validity_bits().len(),
            i <= n,
            target == firsts(array.values(), array.validity_bits(), absent_point()),
            bits == array.validity_bits(),
            builder.wf(),
            all_single(array.values()),
            builder.values() == target.take(i as int),
            builder.validity_bits() == bits.take(i as int),
            builder.spec_coord_type() == coord_type,
            builder.spec_metadata() == array.spec_metadata(),
        decreases n - i,
    {
        let value = array.value(i);
        assert(array.values()[i as int].len() == 1);
        let part = value.point(0).unwrap();
        proof {
            assert(target.take(i + 1) =~= target.take(i as int).push(target[i as int]));
            assert(bits.take(i + 1) =~= bits.take(i as int).push(bits[i as int]));
        }
        if array.is_valid(i) {
            builder.push_point(Some(&part));
        } else {
            builder.push_point::<Coord>(None);
        }
        i += 1;
    }
    proof {
        assert(target.take(n as int) =~= target);
        assert(bits.take(n as int) =~= bits);
    }
    Ok(builder.finish())
}

/// Rebuilds multi points with another coordinate layout or offset width.
fn multi_points_to_multi_points(array: &MultiPointArray, width: OffsetWidth, coord_type: CoordType) -> (r: Result<MultiPointArray, GeoArrowError>)
    requires
        array.wf(),
    ensures
        ({
            let target = present(array.values(), array.validity_bits());
            if total_len(target) <= width.limit() {
                &&& r matches Ok(a)
                &&& a.wf()
                &&& a.compact()
                &&& a.values() == target
                &&& a.validity_bits() == array.validity_bits()
                &&& a.spec_width() == width
                &&& a.spec_coord_type() == coord_type
                &&& a.spec_metadata() == array.spec_metadata()
            } else {
                r == Err::<MultiPointArray, GeoArrowError>(GeoArrowError::IndexOverflow)
            }
        }),
{
    let ghost target = present(array.values(), array.validity_bits());
    let ghost bits = array.validity_bits();
    let n = array.len();
    let mut builder = MultiPointBuilder::with_capacity_and_options(
        width,
        array.buffer_lengths(),
        coord_type,
        array.metadata().duplicate(),
    );
    let mut i: usize = 0;
    proof {
        assert(bits.take(0) =~= Seq::<bool>::empty());
        assert(target.take(0) =~= Seq::<Seq<Coord>>::empty());
    }
    while i < n
        invariant
            array.wf(),
            n == array.values().len(),
            n == array.validity_bits().len(),
            i <= n,
            target == present(array.values(), array.validity_bits()),
            bits == array.validity_bits(),
            builder.wf(),
            builder.values() == target.take(i as int),
            builder.validity_bits() == bits.take(i as int),
            builder.spec_width() == width,
            builder.spec_coord_type() == coord_type,
            builder.spec_metadata() == array.spec_metadata(),
        decreases n - i,
    {
        let value = array.value(i);
        proof {
            assert(target.take(i + 1) =~= target.take(i as int).push(target[i as int]));
            assert(bits.take(i + 1) =~= bits.take(i as int).push(bits[i as int]));
            lemma_total_len_step(target, i as int);
            lemma_total_len_prefix(target, i + 1);
            lemma_total_len_empty::<Coord>();
        }
        let pushed = if array.is_valid(i) {
            builder.push_multi_point(Some(&value))
        } else {
            builder.push_multi_point::<MultiPoint<'_>>(None)
        };
        match pushed {
            Ok(()) => {},
            Err(e) => {
                return Err(e);
            },
        }
        i += 1;
    }
    proof {
        assert(target.take(n as int) =~= target);
        assert(bits.take(n as int) =~= bits);
        builder.lemma_within_limit();
    }
    Ok(builder.finish())
}

/// Stores multi points as geometries of mixed shape.
fn multi_points_to_mixeds(array: &MultiPointArray, width: OffsetWidth, coord_type: CoordType) -> (r: Result<MixedGeometryArray, GeoArrowError>)
    requires
        array.wf(),
    ensures
        ({
            let target = multi_point_elements(array.values(), array.validity_bits());
            if all_fit(target, width) {
                &&& r matches Ok(a)
                &&& a.wf()
                &&& a.compact()
                &&& a.values() == target
                &&& a.validity_bits() == array.validity_bits()
                &&& a.spec_width() == width
                &&& a.spec_coord_type() == coord_type
                &&& a.spec_metadata() == array.spec_metadata()
            } else {
                r == Err::<MixedGeometryArray, GeoArrowError>(GeoArrowError::IndexOverflow)
            }
        }),
{
    let ghost target = multi_point_elements(array.values(), array.validity_bits());
    let ghost bits = array.validity_bits();
    let n = array.len();
    let mut builder = MixedGeometryBuilder::with_capacity_and_options(
        width,
        MixedCapacity::new_empty(),
        coord_type,
        array.metadata().duplicate(),
        false,
    );
    let mut i: usize = 0;
    proof {
        assert(bits.take(0) =~= Seq::<bool>::empty());
        assert(target.take(0) =~= Seq::<GeometryModel>::empty());
    }
    while i < n
        invariant
            array.wf(),
            n == array.values().len(),
            n == array.validity_bits().len(),
            i <= n,
            target == multi_point_elements(array.values(), array.validity_bits()),
            bits == array.validity_bits(),
            builder.wf(),
            builder.values() == target.take(i as int),
            all_fit(target.take(i as int), width),
            !builder.spec_prefer_multi(),
            builder.validity_bits() == bits.take(i as int),
            builder.spec_width() == width,
            builder.spec_coord_type() == coord_type,
            builder.spec_metadata() == array.spec_metadata(),
        decreases n - i,
    {
        let value = array.value(i);
        proof {
            assert(target.take(i + 1) =~= target.take(i as int).push(target[i as int]));
            assert(bits.take(i + 1) =~= bits.take(i as int).push(bits[i as int]));
            lemma_children_push(target.take(i as int), target[i as int], width);
            if all_fit(target, width) {
                lemma_all_fit_prefix(target, width, i + 1);
            }
        }
        let pushed = if array.is_valid(i) {
            builder.push_multi_point(Some(&value))
        } else {
            builder.push_multi_point::<MultiPoint<'_>>(None)
        };
        match pushed {
            Ok(()) => {},
            Err(e) => {
                return Err(e);
            },
        }
        i += 1;
    }
    proof {
        assert(target.take(n as int) =~= target);
        assert(bits.take(n as int) =~= bits);
    }
    Ok(builder.finish())
}

/// Wraps multi points into geometry collections of one member each.
fn multi_points_to_geometry_collections(array: &MultiPointArray, width: OffsetWidth, coord_type: CoordType) -> (r: Result<GeometryCollectionArray, GeoArrowError>)
    requires
        array.wf(),
    ensures
        ({
            let target = multi_point_elements(array.values(), array.validity_bits());
            if collections_fit(target, array.validity_bits(), width) {
                &&& r matches Ok(a)
                &&& a.wf()
                &&& a.compact()
                &&& a.values() == singletons(target, array.validity_bits())
                &&& a.validity_bits() == array.validity_bits()
                &&& a.member_bits() == singletons(
                    Seq::new(target.len(), |i: int| true),
                    array.validity_bits(),
                )
                &&& a.spec_width() == width
                &&& a.spec_coord_type() == coord_type
                &&& a.spec_metadata() == array.spec_metadata()
            } else {
                r == Err::<GeometryCollectionArray, GeoArrowError>(GeoArrowError::IndexOverflow)
            }
        }),
{
    let ghost target = multi_point_elements(array.values(), array.validity_bits());
    let ghost bits = array.validity_bits();
    let ghost collections = singletons(target, bits);
    let ghost units = singletons(Seq::new(target.len(), |i: int| true), bits);
    let n = array.len();
    let mut builder = GeometryCollectionBuilder::with_capacity_and_options(
        width,
        GeometryCollectionCapacity::new(MixedCapacity::new_empty(), n),
        coord_type,
        array.metadata().duplicate(),
    );
    let mut i: usize = 0;
    proof {
        assert(bits.take(0) =~= Seq::<bool>::empty());
        assert(collections.take(0) =~= Seq::<Seq<GeometryModel>>::empty());
        assert(units.take(0) =~= Seq::<Seq<bool>>::empty());
        assert(target.take(0) =~= Seq::<GeometryModel>::empty());
    }
    while i < n
        invariant
            array.wf(),
            n == array.values().len(),
            n == array.validity_bits().len(),
            i <= n,
            target == multi_point_elements(array.values(), array.validity_bits()),
            bits == array.validity_bits(),
            builder.wf(),
            collections == singletons(target, bits),
            units == singletons(Seq::new(target.len(), |i: int| true), bits),
            builder.values() == collections.take(i as int),
            builder.member_bits() == units.take(i as int),
            builder.members() == members_of(target.take(i as int), bits.take(i as int)),
            collections_fit(target.take(i as int), bits.take(i as int), width),
            builder.validity_bits() == bits.take(i as int),
            builder.spec_width() == width,
            builder.spec_coord_type() == coord_type,
            builder.spec_metadata() == array.spec_metadata(),
        decreases n - i,
    {
        let value = array.value(i);
        proof {
            assert(target.take(i + 1) =~= target.take(i as int).push(target[i as int]));
            assert(bits.take(i + 1) =~= bits.take(i as int).push(bits[i as int]));
            lemma_collections_step(target, bits, width, i as int);
            if collections_fit(target, bits, width) {
                lemma_collections_fit_prefix(target, bits, width, i + 1);
            }
            assert(units.take(i + 1) =~= units.take(i as int).push(units[i as int]));
            assert(collections.take(i + 1) =~= collections.take(i as int).push(collections[i as int]));
        }
        let pushed = if array.is_valid(i) {
            builder.push_multi_point(Some(&value))
        } else {
            builder.push_multi_point::<MultiPoint<'_>>(None)
        };
        match pushed {
            Ok(()) => {},
            Err(e) => {
                return Err(e);
            },
        }
        i += 1;
    }
    proof {
        assert(target.take(n as int) =~= target);
        assert(bits.take(n as int) =~= bits);
        assert(collections.take(n as int) =~= collections);
        assert(units.take(n as int) =~= units);
    }
    Ok(builder.finish())
}

/// What casting `array` to `to_type` returns.
///
/// The cast is defined for the shapes that multi points can be read as; any other
/// target fails with [`GeoArrowError::ShapeMismatch`].
pub open spec fn multi_point_cast(
    array: &MultiPointArray,
    to_type: GeoDataType,
    r: Result<GeometryArray, GeoArrowError>,
) -> bool {
    match to_type.spec_shape() {
        Some(Shape::Point) => if all_single(array.values()) {
            point_result(
                r,
                firsts(array.values(), array.validity_bits(), absent_point()),
                array.validity_bits(),
                to_type,
                array.spec_metadata(),
            )
        } else {
            r == Err::<GeometryArray, GeoArrowError>(GeoArrowError::ShapeMismatch)
        },
        Some(Shape::MultiPoint) => multi_point_result(
            r,
            present(array.values(), array.validity_bits()),
            array.validity_bits(),
            to_type,
            array.spec_metadata(),
        ),
        Some(Shape::Mixed) => mixed_result(
            r,
            multi_point_elements(array.values(), array.validity_bits()),
            array.validity_bits(),
            to_type,
            array.spec_metadata(),
        ),
        Some(Shape::GeometryCollection) => collection_result(
            r,
            multi_point_elements(array.values(), array.validity_bits()),
            array.validity_bits(),
            to_type,
            array.spec_metadata(),
        ),
        _ => r == Err::<GeometryArray, GeoArrowError>(GeoArrowError::ShapeMismatch),
    }
}

/// Casts an array of multi points to `to_type`.
pub fn cast_multi_point_array(array: &MultiPointArray, to_type: &GeoDataType) -> (r: Result<
    GeometryArray,
    GeoArrowError,
>)
    requires
        array.wf(),
    ensures
        multi_point_cast(array, *to_type, r),
{
    match (to_type.shape(), to_type.coord_type()) {
        (Some(Shape::Point), Some(coord_type)) => match multi_points_to_points(array, coord_type) {
            Ok(a) => Ok(GeometryArray::Point(a)),
            Err(e) => Err(e),
        },
        (Some(Shape::MultiPoint), Some(coord_type)) => match multi_points_to_multi_points(array, to_type.width(), coord_type) {
            Ok(a) => Ok(GeometryArray::MultiPoint(a)),
            Err(e) => Err(e),
        },
        (Some(Shape::Mixed), Some(coord_type)) => match multi_points_to_mixeds(array, to_type.width(), coord_type) {
            Ok(a) => Ok(GeometryArray::Mixed(a)),
            Err(e) => Err(e),
        },
        (Some(Shape::GeometryCollection), Some(coord_type)) => match multi_points_to_geometry_collections(array, to_type.width(), coord_type) {
            Ok(a) => Ok(GeometryArray::GeometryCollection(a)),
            Err(e) => Err(e),
        },
        _ => Err(GeoArrowError::ShapeMismatch),
    }
}

/// Unwraps multi line strings of one part each into line strings.
fn multi_line_strings_to_line_strings(array: &MultiLineStringArray, width: OffsetWidth, coord_type: CoordType) -> (r: Result<LineStringArray, GeoArrowError>)
    requires
        array.wf(),
    ensures
        ({
            let target = firsts(array.values(), array.validity_bits(), Seq::empty());
            if !all_single(array.values()) {
                r == Err::<LineStringArray, GeoArrowError>(GeoArrowError::ShapeMismatch)
            } else if total_len(target) <= width.limit() {
                &&& r matches Ok(a)
                &&& a.wf()
                &&& a.compact()
                &&& a.values() == target
                &&& a.validity_bits() == array.validity_bits()
                &&& a.spec_width() == width
                &&& a.spec_coord_type() == coord_type
                &&& a.spec_metadata() == array.spec_metadata()
            } else {
                r == Err::<LineStringArray, GeoArrowError>(GeoArrowError::IndexOverflow)
            }
        }),
{
    proof {
        array.lemma_values();
    }
    if !all_runs_single(array.geom_offsets()) {
        proof {
            let j = choose|j: int|
                0 <= j < run_count(array.spec_geom_offsets()) && #[trigger] array.spec_geom_offsets()[j
                    + 1] - array.spec_geom_offsets()[j] != 1;
            assert(array.spec_geom_offsets()[j + 1] <= array.spec_geom_offsets().last());
            assert(array.values()[j].len() != 1);
        }
        return Err(GeoArrowError::ShapeMismatch);
    }
    proof {
        assert forall|j: int| 0 <= j < array.values().len() implies (#[trigger] array.values()[j]).len()
            == 1 by {
            assert(array.spec_geom_offsets()[j + 1] - array.spec_geom_offsets()[j] == 1);
            assert(array.spec_geom_offsets()[j + 1] <= array.spec_geom_offsets().last());
        }
    }
    let ghost target = firsts(array.values(), array.validity_bits(), Seq::empty());
    let ghost bits = array.validity_bits();
    let n = array.len();
    let mut builder = LineStringBuilder::with_capacity_and_options(
        width,
        LineStringCapacity::new_empty(),
        coord_type,
        array.metadata().duplicate(),
    );
    let mut i: usize = 0;
    proof {
        assert(bits.take(0) =~= Seq::<bool>::empty());
        assert(target.take(0) =~= Seq::<Seq<Coord>>::empty());
    }
    while i < n
        invariant
            array.wf(),
            n == array.values().len(),
            n == array.validity_bits().len(),
            i <= n,
            target == firsts(array.values(), array.validity_bits(), Seq::empty()),
            bits == array.validity_bits(),
            builder.wf(),
            all_single(array.values()),
            builder.values() == target.take(i as int),
            builder.validity_bits() == bits.take(i as int),
            builder.spec_width() == width,
            builder.spec_coord_type() == coord_type,
            builder.spec_metadata() == array.spec_metadata(),
        decreases n - i,
    {
        let value = array.value(i);
        assert(array.values()[i as int].len() == 1);
        let part = value.line(0).unwrap();
        proof {
            assert(target.take(i + 1) =~= target.take(i as int).push(target[i as int]));
            assert(bits.take(i + 1) =~= bits.take(i as int).push(bits[i as int]));
            lemma_total_len_step(target, i as int);
            lemma_total_len_prefix(target, i + 1);
            lemma_total_len_empty::<Coord>();
        }
        let pushed = if array.is_valid(i) {
            builder.push_line_string(Some(&part))
        } else {
            builder.push_line_string::<LineString<'_>>(None)
        };
        match pushed {
            Ok(()) => {},
            Err(e) => {
                return Err(e);
            },
        }
        i += 1;
    }
    proof {
        assert(target.take(n as int) =~= target);
        assert(bits.take(n as int) =~= bits);
        builder.lemma_within_limit();
    }
    Ok(builder.finish())
}

/// Rebuilds multi line strings with another coordinate layout or offset width.
fn multi_line_strings_to_multi_line_strings(array: &MultiLineStringArray, width: OffsetWidth, coord_type: CoordType) -> (r: Result<MultiLineStringArray, GeoArrowError>)
    requires
        array.wf(),
    ensures
        ({
            let target = present(array.values(), array.validity_bits());
            if total_len(target) <= width.limit() && total_len2(target) <= width.limit() {
                &&& r matches Ok(a)
                &&& a.wf()
                &&& a.compact()
                &&& a.values() == target
                &&& a.validity_bits() == array.validity_bits()
                &&& a.spec_width() == width
                &&& a.spec_coord_type() == coord_type
                &&& a.spec_metadata() == array.spec_metadata()
            } else {
                r == Err::<MultiLineStringArray, GeoArrowError>(GeoArrowError::IndexOverflow)
            }
        }),
{
    let ghost target = present(array.values(), array.validity_bits());
    let ghost bits = array.validity_bits();
    let n = array.len();
    let mut builder = MultiLineStringBuilder::with_capacity_and_options(
        width,
        array.buffer_lengths(),
        coord_type,
        array.metadata().duplicate(),
    );
    let mut i: usize = 0;
    proof {
        assert(bits.take(0) =~= Seq::<bool>::empty());
        assert(target.take(0) =~= Seq::<Seq<Seq<Coord>>>::empty());
    }
    while i < n
        invariant
            array.wf(),
            n == array.values().len(),
            n == array.validity_bits().len(),
            i <= n,
            target == present(array.values(), array.validity_bits()),
            bits == array.validity_bits(),
            builder.wf(),
            builder.values() == target.take(i as int),
            builder.validity_bits() == bits.take(i as int),
            builder.spec_width() == width,
            builder.spec_coord_type() == coord_type,
            builder.spec_metadata() == array.spec_metadata(),
        decreases n - i,
    {
        let value = array.value(i);
        proof {
            assert(target.take(i + 1) =~= target.take(i as int).push(target[i as int]));
            assert(bits.take(i + 1) =~= bits.take(i as int).push(bits[i as int]));
            lemma_total_len_step(target, i as int);
            lemma_total_len_prefix(target, i + 1);
            lemma_total_len2_step(target, i as int);
            lemma_total_len2_prefix(target, i + 1);
            lemma_total_len_empty::<Coord>();
        }
        let pushed = if array.is_valid(i) {
            builder.push_multi_line_string(Some(&value))
        } else {
            builder.push_multi_line_string::<MultiLineString<'_>>(None)
        };
        match pushed {
            Ok(()) => {},
            Err(e) => {
                return Err(e);
            },
        }
        i += 1;
    }
    proof {
        assert(target.take(n as int) =~= target);
        assert(bits.take(n as int) =~= bits);
        builder.lemma_within_limit();
    }
    Ok(builder.finish())
}

/// Stores multi line strings as geometries of mixed shape.
fn multi_line_strings_to_mixeds(array: &MultiLineStringArray, width: OffsetWidth, coord_type: CoordType) -> (r: Result<MixedGeometryArray, GeoArrowError>)
    requires
        array.wf(),
    ensures
        ({
            let target = multi_line_string_elements(array.values(), array.validity_bits());
            if all_fit(target, width) {
                &&& r matches Ok(a)
                &&& a.wf()
                &&& a.compact()
                &&& a.values() == target
                &&& a.validity_bits() == array.validity_bits()
                &&& a.spec_width() == width
                &&& a.spec_coord_type() == coord_type
                &&& a.spec_metadata() == array.spec_metadata()
            } else {
                r == Err::<MixedGeometryArray, GeoArrowError>(GeoArrowError::IndexOverflow)
            }
        }),
{
    let ghost target = multi_line_string_elements(array.values(), array.validity_bits());
    let ghost bits = array.validity_bits();
    let n = array.len();
    let mut builder = MixedGeometryBuilder::with_capacity_and_options(
        width,
        MixedCapacity::new_empty(),
        coord_type,
        array.metadata().duplicate(),
        false,
    );
    let mut i: usize = 0;
    proof {
        assert(bits.take(0) =~= Seq::<bool>::empty());
        assert(target.take(0) =~= Seq::<GeometryModel>::empty());
    }
    while i < n
        invariant
            array.wf(),
            n == array.values().len(),
            n == array.validity_bits().len(),
            i <= n,
            target == multi_line_string_elements(array.values(), array.validity_bits()),
            bits == array.validity_bits(),
            builder.wf(),
            builder.values() == target.take(i as int),
            all_fit(target.take(i as int), width),
            !builder.spec_prefer_multi(),
            builder.validity_bits() == bits.take(i as int),
            builder.spec_width() == width,
            builder.spec_coord_type() == coord_type,
            builder.spec_metadata() == array.spec_metadata(),
        decreases n - i,
    {
        let value = array.value(i);
        proof {
            assert(target.take(i + 1) =~= target.take(i as int).push(target[i as int]));
            assert(bits.take(i + 1) =~= bits.take(i as int).push(bits[i as int]));
            lemma_children_push(target.take(i as int), target[i as int], width);
            if all_fit(target, width) {
                lemma_all_fit_prefix(target, width, i + 1);
            }
        }
        let pushed = if array.is_valid(i) {
            builder.push_multi_line_string(Some(&value))
        } else {
            builder.push_multi_line_string::<MultiLineString<'_>>(None)
        };
        match pushed {
            Ok(()) => {},
            Err(e) => {
                return Err(e);
            },
        }
        i += 1;
    }
    proof {
        assert(target.take(n as int) =~= target);
        assert(bits.take(n as int) =~= bits);
    }
    Ok(builder.finish())
}

/// Wraps multi line strings into geometry collections of one member each.
fn multi_line_strings_to_geometry_collections(array: &MultiLineStringArray, width: OffsetWidth, coord_type: CoordType) -> (r: Result<GeometryCollectionArray, GeoArrowError>)
    requires
        array.wf(),
    ensures
        ({
            let target = multi_line_string_elements(array.values(), array.validity_bits());
            if collections_fit(target, array.validity_bits(), width) {
                &&& r matches Ok(a)
                &&& a.wf()
                &&& a.compact()
                &&& a.values() == singletons(target, array.validity_bits())
                &&& a.validity_bits() == array.validity_bits()
                &&& a.member_bits() == singletons(
                    Seq::new(target.len(), |i: int| true),
                    array.validity_bits(),
                )
                &&& a.spec_width() == width
                &&& a.spec_coord_type() == coord_type
                &&& a.spec_metadata() == array.spec_metadata()
            } else {
                r == Err::<GeometryCollectionArray, GeoArrowError>(GeoArrowError::IndexOverflow)
            }
        }),
{
    let ghost target = multi_line_string_elements(array.values(), array.validity_bits());
    let ghost bits = array.validity_bits();
    let ghost collections = singletons(target, bits);
    let ghost units = singletons(Seq::new(target.len(), |i: int| true), bits);
    let n = array.len();
    let mut builder = GeometryCollectionBuilder::with_capacity_and_options(
        width,
        GeometryCollectionCapacity::new(MixedCapacity::new_empty(), n),
        coord_type,
        array.metadata().duplicate(),
    );
    let mut i: usize = 0;
    proof {
        assert(bits.take(0) =~= Seq::<bool>::empty());
        assert(collections.take(0) =~= Seq::<Seq<GeometryModel>>::empty());
        assert(units.take(0) =~= Seq::<Seq<bool>>::empty());
        assert(target.take(0) =~= Seq::<GeometryModel>::empty());
    }
    while i < n
        invariant
            array.wf(),
            n == array.values().len(),
            n == array.validity_bits().len(),
            i <= n,
            target == multi_line_string_elements(array.values(), array.validity_bits()),
            bits == array.validity_bits(),
            builder.wf(),
            collections == singletons(target, bits),
            units == singletons(Seq::new(target.len(), |i: int| true), bits),
            builder.values() == collections.take(i as int),
            builder.member_bits() == units.take(i as int),
            builder.members() == members_of(target.take(i as int), bits.take(i as int)),
            collections_fit(target.take(i as int), bits.take(i as int), width),
            builder.validity_bits() == bits.take(i as int),
            builder.spec_width() == width,
            builder.spec_coord_type() == coord_type,
            builder.spec_metadata() == array.spec_metadata(),
        decreases n - i,
    {
        let value = array.value(i);
        proof {
            assert(target.take(i + 1) =~= target.take(i as int).push(target[i as int]));
            assert(bits.take(i + 1) =~= bits.take(i as int).push(bits[i as int]));
            lemma_collections_step(target, bits, width, i as int);
            if collections_fit(target, bits, width) {
                lemma_collections_fit_prefix(target, bits, width, i + 1);
            }
            assert(units.take(i + 1) =~= units.take(i as int).push(units[i as int]));
            assert(collections.take(i + 1) =~= collections.take(i as int).push(collections[i as int]));
        }
        let pushed = if array.is_valid(i) {
            builder.push_multi_line_string(Some(&value))
        } else {
            builder.push_multi_line_string::<MultiLineString<'_>>(None)
        };
        match pushed {
            Ok(()) => {},
            Err(e) => {
                return Err(e);
            },
        }
        i += 1;
    }
    proof {
        assert(target.take(n as int) =~= target);
        assert(bits.take(n as int) =~= bits);
        assert(collections.take(n as int) =~= collections);
        assert(units.take(n as int) =~= units);
    }
    Ok(builder.finish())
}

/// What casting `array` to `to_type` returns.
///
/// The cast is defined for the shapes that multi line strings can be read as; any other
/// target fails with [`GeoArrowError::ShapeMismatch`].
pub open spec fn multi_line_string_cast(
    array: &MultiLineStringArray,
    to_type: GeoDataType,
    r: Result<GeometryArray, GeoArrowError>,
) -> bool {
    match to_type.spec_shape() {
        Some(Shape::LineString) => if all_single(array.values()) {
            line_string_result(
                r,
                firsts(array.values(), array.validity_bits(), Seq::empty()),
                array.validity_bits(),
                to_type,
                array.spec_metadata(),
            )
        } else {
            r == Err::<GeometryArray, GeoArrowError>(GeoArrowError::ShapeMismatch)
        },
        Some(Shape::MultiLineString) => multi_line_string_result(
            r,
            present(array.values(), array.validity_bits()),
            array.validity_bits(),
            to_type,
            array.spec_metadata(),
        ),
        Some(Shape::Mixed) => mixed_result(
            r,
            multi_line_string_elements(array.values(), array.validity_bits()),
            array.validity_bits(),
            to_type,
            array.spec_metadata(),
        ),
        Some(Shape::GeometryCollection) => collection_result(
            r,
            multi_line_string_elements(array.values(), array.validity_bits()),
            array.validity_bits(),
            to_type,
            array.spec_metadata(),
        ),
        _ => r == Err::<GeometryArray, GeoArrowError>(GeoArrowError::ShapeMismatch),
    }
}

/// Casts an array of multi line strings to `to_type`.
pub fn cast_multi_line_string_array(array: &MultiLineStringArray, to_type: &GeoDataType) -> (r: Result<
    GeometryArray,
    GeoArrowError,
>)
    requires
        array.wf(),
    ensures
        multi_line_string_cast(array, *to_type, r),
{
    match (to_type.shape(), to_type.coord_type()) {
        (Some(Shape::LineString), Some(coord_type)) => match multi_line_strings_to_line_strings(array, to_type.width(), coord_type) {
            Ok(a) => Ok(GeometryArray::LineString(a)),
            Err(e) => Err(e),
        },
        (Some(Shape::MultiLineString), Some(coord_type)) => match multi_line_strings_to_multi_line_strings(array, to_type.width(), coord_type) {
            Ok(a) => Ok(GeometryArray::MultiLineString(a)),
            Err(e) => Err(e),
        },
        (Some(Shape::Mixed), Some(coord_type)) => match multi_line_strings_to_mixeds(array, to_type.width(), coord_type) {
            Ok(a) => Ok(GeometryArray::Mixed(a)),
            Err(e) => Err(e),
        },
        (Some(Shape::GeometryCollection), Some(coord_type)) => match multi_line_strings_to_geometry_collections(array, to_type.width(), coord_type) {
            Ok(a) => Ok(GeometryArray::GeometryCollection(a)),
            Err(e) => Err(e),
        },
        _ => Err(GeoArrowError::ShapeMismatch),
    }
}

/// Unwraps multi polygons of one part each into polygons.
fn multi_polygons_to_polygons(array: &MultiPolygonArray, width: OffsetWidth, coord_type: CoordType) -> (r: Result<PolygonArray, GeoArrowError>)
    requires
        array.wf(),
    ensures
        ({
            let target = firsts(array.values(), array.validity_bits(), Seq::empty());
            if !all_single(array.values()) {
                r == Err::<PolygonArray, GeoArrowError>(GeoArrowError::ShapeMismatch)
            } else if total_len(target) <= width.limit() && total_len2(target) <= width.limit() {
                &&& r matches Ok(a)
                &&& a.wf()
                &&& a.compact()
                &&& a.values() == target
                &&& a.validity_bits() == array.validity_bits()
                &&& a.spec_width() == width
                &&& a.spec_coord_type() == coord_type
                &&& a.spec_metadata() == array.spec_metadata()
            } else {
                r == Err::<PolygonArray, GeoArrowError>(GeoArrowError::IndexOverflow)
            }
        }),
{
    proof {
        array.lemma_values();
    }
    if !all_runs_single(array.geom_offsets()) {
        proof {
            let j = choose|j: int|
                0 <= j < run_count(array.spec_geom_offsets()) && #[trigger] array.spec_geom_offsets()[j
                    + 1] - array.spec_geom_offsets()[j] != 1;
            assert(array.spec_geom_offsets()[j + 1] <= array.spec_geom_offsets().last());
            assert(array.values()[j].len() != 1);
        }
        return Err(GeoArrowError::ShapeMismatch);
    }
    proof {
        assert forall|j: int| 0 <= j < array.values().len() implies (#[trigger] array.values()[j]).len()
            == 1 by {
            assert(array.spec_geom_offsets()[j + 1] - array.spec_geom_offsets()[j] == 1);
            assert(array.spec_geom_offsets()[j + 1] <= array.spec_geom_offsets().last());
        }
    }
    let ghost target = firsts(array.values(), array.validity_bits(), Seq::empty());
    let ghost bits = array.validity_bits();
    let n = array.len();
    let mut builder = PolygonBuilder::with_capacity_and_options(
        width,
        PolygonCapacity::new_empty(),
        coord_type,
        array.metadata().duplicate(),
    );
    let mut i: usize = 0;
    proof {
        assert(bits.take(0) =~= Seq::<bool>::empty());
        assert(target.take(0) =~= Seq::<Seq<Seq<Coord>>>::empty());
    }
    while i < n
        invariant
            array.wf(),
            n == array.values().len(),
            n == array.validity_bits().len(),
            i <= n,
            target == firsts(array.values(), array.validity_bits(), Seq::empty()),
            bits == array.validity_bits(),
            builder.wf(),
            all_single(array.values()),
            builder.values() == target.take(i as int),
            builder.validity_bits() == bits.take(i as int),
            builder.spec_width() == width,
            builder.spec_coord_type() == coord_type,
            builder.spec_metadata() == array.spec_metadata(),
        decreases n - i,
    {
        let value = array.value(i);
        assert(array.values()[i as int].len() == 1);
        let part = value.polygon(0).unwrap();
        proof {
            assert(target.take(i + 1) =~= target.take(i as int).push(target[i as int]));
            assert(bits.take(i + 1) =~= bits.take(i as int).push(bits[i as int]));
            lemma_total_len_step(target, i as int);
            lemma_total_len_prefix(target, i + 1);
            lemma_total_len2_step(target, i as int);
            lemma_total_len2_prefix(target, i + 1);
            lemma_total_len_empty::<Coord>();
        }
        let pushed = if array.is_valid(i) {
            builder.push_polygon(Some(&part))
        } else {
            builder.push_polygon::<Polygon<'_>>(None)
        };
        match pushed {
            Ok(()) => {},
            Err(e) => {
                return Err(e);
            },
        }
        i += 1;
    }
    proof {
        assert(target.take(n as int) =~= target);
        assert(bits.take(n as int) =~= bits);
        builder.lemma_within_limit();
    }
    Ok(builder.finish())
}

/// Rebuilds multi polygons with another coordinate layout or offset width.
fn multi_polygons_to_multi_polygons(array: &MultiPolygonArray, width: OffsetWidth, coord_type: CoordType) -> (r: Result<MultiPolygonArray, GeoArrowError>)
    requires
        array.wf(),
    ensures
        ({
            let target = present(array.values(), array.validity_bits());
            if total_len(target) <= width.limit() && total_len2(target) <= width.limit()
                && total_len3(target) <= width.limit() {
                &&& r matches Ok(a)
                &&& a.wf()
                &&& a.compact()
                &&& a.values() == target
                &&& a.validity_bits() == array.validity_bits()
                &&& a.spec_width() == width
                &&& a.spec_coord_type() == coord_type
                &&& a.spec_metadata() == array.spec_metadata()
            } else {
                r == Err::<MultiPolygonArray, GeoArrowError>(GeoArrowError::IndexOverflow)
            }
        }),
{
    let ghost target = present(array.values(), array.validity_bits());
    let ghost bits = array.validity_bits();
    let n = array.len();
    let mut builder = MultiPolygonBuilder::with_capacity_and_options(
        width,
        array.buffer_lengths(),
        coord_type,
        array.metadata().duplicate(),
    );
    let mut i: usize = 0;
    proof {
        assert(bits.take(0) =~= Seq::<bool>::empty());
        assert(target.take(0) =~= Seq::<Seq<Seq<Seq<Coord>>>>::empty());
    }
    while i < n
        invariant
            array.wf(),
            n == array.values().len(),
            n == array.validity_bits().len(),
            i <= n,
            target == present(array.values(), array.validity_bits()),
            bits == array.validity_bits(),
            builder.wf(),
            builder.values() == target.take(i as int),
            builder.validity_bits() == bits.take(i as int),
            builder.spec_width() == width,
            builder.spec_coord_type() == coord_type,
            builder.spec_metadata() == array.spec_metadata(),
        decreases n - i,
    {
        let value = array.value(i);
        proof {
            assert(target.take(i + 1) =~= target.take(i as int).push(target[i as int]));
            assert(bits.take(i + 1) =~= bits.take(i as int).push(bits[i as int]));
            lemma_total_len_step(target, i as int);
            lemma_total_len_prefix(target, i + 1);
            lemma_total_len2_step(target, i as int);
            lemma_total_len2_prefix(target, i + 1);
            lemma_total_len3_step(target, i as int);
            lemma_total_len3_prefix(target, i + 1);
            lemma_total_len_empty::<Coord>();
        }
        let pushed = if array.is_valid(i) {
            builder.push_multi_polygon(Some(&value))
        } else {
            builder.push_multi_polygon::<MultiPolygon<'_>>(None)
        };
        match pushed {
            Ok(()) => {},
            Err(e) => {
                return Err(e);
            },
        }
        i += 1;
    }
    proof {
        assert(target.take(n as int) =~= target);
        assert(bits.take(n as int) =~= bits);
        builder.lemma_within_limit();
    }
    Ok(builder.finish())
}

/// Stores multi polygons as geometries of mixed shape.
fn multi_polygons_to_mixeds(array: &MultiPolygonArray, width: OffsetWidth, coord_type: CoordType) -> (r: Result<MixedGeometryArray, GeoArrowError>)
    requires
        array.wf(),
    ensures
        ({
            let target = multi_polygon_elements(array.values(), array.validity_bits());
            if all_fit(target, width) {
                &&& r matches Ok(a)
                &&& a.wf()
                &&& a.compact()
                &&& a.values() == target
                &&& a.validity_bits() == array.validity_bits()
                &&& a.spec_width() == width
                &&& a.spec_coord_type() == coord_type
                &&& a.spec_metadata() == array.spec_metadata()
            } else {
                r == Err::<MixedGeometryArray, GeoArrowError>(GeoArrowError::IndexOverflow)
            }
        }),
{
    let ghost target = multi_polygon_elements(array.values(), array.validity_bits());
    let ghost bits = array.validity_bits();
    let n = array.len();
    let mut builder = MixedGeometryBuilder::with_capacity_and_options(
        width,
        MixedCapacity::new_empty(),
        coord_type,
        array.metadata().duplicate(),
        false,
    );
    let mut i: usize = 0;
    proof {
        assert(bits.take(0) =~= Seq::<bool>::empty());
        assert(target.take(0) =~= Seq::<GeometryModel>::empty());
    }
    while i < n
        invariant
            array.wf(),
            n == array.values().len(),
            n == array.validity_bits().len(),
            i <= n,
            target == multi_polygon_elements(array.values(), array.validity_bits()),
            bits == array.validity_bits(),
            builder.wf(),
            builder.values() == target.take(i as int),
            all_fit(target.take(i as int), width),
            !builder.spec_prefer_multi(),
            builder.validity_bits() == bits.take(i as int),
            builder.spec_width() == width,
            builder.spec_coord_type() == coord_type,
            builder.spec_metadata() == array.spec_metadata(),
        decreases n - i,
    {
        let value = array.value(i);
        proof {
            assert(target.take(i + 1) =~= target.take(i as int).push(target[i as int]));
            assert(bits.take(i + 1) =~= bits.take(i as int).push(bits[i as int]));
            lemma_children_push(target.take(i as int), target[i as int], width);
            if all_fit(target, width) {
                lemma_all_fit_prefix(target, width, i + 1);
            }
        }
        let pushed = if array.is_valid(i) {
            builder.push_multi_polygon(Some(&value))
        } else {
            builder.push_multi_polygon::<MultiPolygon<'_>>(None)
        };
        match pushed {
            Ok(()) => {},
            Err(e) => {
                return Err(e);
            },
        }
        i += 1;
    }
    proof {
        assert(target.take(n as int) =~= target);
        assert(bits.take(n as int) =~= bits);
    }
    Ok(builder.finish())
}

/// Wraps multi polygons into geometry collections of one member each.
fn multi_polygons_to_geometry_collections(array: &MultiPolygonArray, width: OffsetWidth, coord_type: CoordType) -> (r: Result<GeometryCollectionArray, GeoArrowError>)
    requires
        array.wf(),
    ensures
        ({
            let target = multi_polygon_elements(array.values(), array.validity_bits());
            if collections_fit(target, array.validity_bits(), width) {
                &&& r matches Ok(a)
                &&& a.wf()
                &&& a.compact()
                &&& a.values() == singletons(target, array.validity_bits())
                &&& a.validity_bits() == array.validity_bits()
                &&& a.member_bits() == singletons(
                    Seq::new(target.len(), |i: int| true),
                    array.validity_bits(),
                )
                &&& a.spec_width() == width
                &&& a.spec_coord_type() == coord_type
                &&& a.spec_metadata() == array.spec_metadata()
            } else {
                r == Err::<GeometryCollectionArray, GeoArrowError>(GeoArrowError::IndexOverflow)
            }
        }),
{
    let ghost target = multi_polygon_elements(array.values(), array.validity_bits());
    let ghost bits = array.validity_bits();
    let ghost collections = singletons(target, bits);
    let ghost units = singletons(Seq::new(target.len(), |i: int| true), bits);
    let n = array.len();
    let mut builder = GeometryCollectionBuilder::with_capacity_and_options(
        width,
        GeometryCollectionCapacity::new(MixedCapacity::new_empty(), n),
        coord_type,
        array.metadata().duplicate(),
    );
    let mut i: usize = 0;
    proof {
        assert(bits.take(0) =~= Seq::<bool>::empty());
        assert(collections.take(0) =~= Seq::<Seq<GeometryModel>>::empty());
        assert(units.take(0) =~= Seq::<Seq<bool>>::empty());
        assert(target.take(0) =~= Seq::<GeometryModel>::empty());
    }
    while i < n
        invariant
            array.wf(),
            n == array.values().len(),
            n == array.validity_bits().len(),
            i <= n,
            target == multi_polygon_elements(array.values(), array.validity_bits()),
            bits == array.validity_bits(),
            builder.wf(),
            collections == singletons(target, bits),
            units == singletons(Seq::new(target.len(), |i: int| true), bits),
            builder.values() == collections.take(i as int),
            builder.member_bits() == units.take(i as int),
            builder.members() == members_of(target.take(i as int), bits.take(i as int)),
            collections_fit(target.take(i as int), bits.take(i as int), width),
            builder.validity_bits() == bits.take(i as int),
            builder.spec_width() == width,
            builder.spec_coord_type() == coord_type,
            builder.spec_metadata() == array.spec_metadata(),
        decreases n - i,
    {
        let value = array.value(i);
        proof {
            assert(target.take(i + 1) =~= target.take(i as int).push(target[i as int]));
            assert(bits.take(i + 1) =~= bits.take(i as int).push(bits[i as int]));
            lemma_collections_step(target, bits, width, i as int);
            if collections_fit(target, bits, width) {
                lemma_collections_fit_prefix(target, bits, width, i + 1);
            }
            assert(units.take(i + 1) =~= units.take(i as int).push(units[i as int]));
            assert(collections.take(i + 1) =~= collections.take(i as int).push(collections[i as int]));
        }
        let pushed = if array.is_valid(i) {
            builder.push_multi_polygon(Some(&value))
        } else {
            builder.push_multi_polygon::<MultiPolygon<'_>>(None)
        };
        match pushed {
            Ok(()) => {},
            Err(e) => {
                return Err(e);
            },
        }
        i += 1;
    }
    proof {
        assert(target.take(n as int) =~= target);
        assert(bits.take(n as int) =~= bits);
        assert(collections.take(n as int) =~= collections);
        assert(units.take(n as int) =~= units);
    }
    Ok(builder.finish())
}

/// What casting `array` to `to_type` returns.
///
/// The cast is defined for the shapes that multi polygons can be read as; any other
/// target fails with [`GeoArrowError::ShapeMismatch`].
pub open spec fn multi_polygon_cast(
    array: &MultiPolygonArray,
    to_type: GeoDataType,
    r: Result<GeometryArray, GeoArrowError>,
) -> bool {
    match to_type.spec_shape() {
        Some(Shape::Polygon) => if all_single(array.values()) {
            polygon_result(
                r,
                firsts(array.values(), array.validity_bits(), Seq::empty()),
                array.validity_bits(),
                to_type,
                array.spec_metadata(),
            )
        } else {
            r == Err::<GeometryArray, GeoArrowError>(GeoArrowError::ShapeMismatch)
        },
        Some(Shape::MultiPolygon) => multi_polygon_result(
            r,
            present(array.values(), array.validity_bits()),
            array.validity_bits(),
            to_type,
            array.spec_metadata(),
        ),
        Some(Shape::Mixed) => mixed_result(
            r,
            multi_polygon_elements(array.values(), array.validity_bits()),
            array.validity_bits(),
            to_type,
            array.spec_metadata(),
        ),
        Some(Shape::GeometryCollection) => collection_result(
            r,
            multi_polygon_elements(array.values(), array.validity_bits()),
            array.validity_bits(),
            to_type,
            array.spec_metadata(),
        ),
        _ => r == Err::<GeometryArray, GeoArrowError>(GeoArrowError::ShapeMismatch),
    }
}

/// Casts an array of multi polygons to `to_type`.
pub fn cast_multi_polygon_array(array: &MultiPolygonArray, to_type: &GeoDataType) -> (r: Result<
    GeometryArray,
    GeoArrowError,
>)
    requires
        array.wf(),
    ensures
        multi_polygon_cast(array, *to_type, r),
{
    match (to_type.shape(), to_type.coord_type()) {
        (Some(Shape::Polygon), Some(coord_type)) => match multi_polygons_to_polygons(array, to_type.width(), coord_type) {
            Ok(a) => Ok(GeometryArray::Polygon(a)),
            Err(e) => Err(e),
        },
        (Some(Shape::MultiPolygon), Some(coord_type)) => match multi_polygons_to_multi_polygons(array, to_type.width(), coord_type) {
            Ok(a) => Ok(GeometryArray::MultiPolygon(a)),
            Err(e) => Err(e),
        },
        (Some(Shape::Mixed), Some(coord_type)) => match multi_polygons_to_mixeds(array, to_type.width(), coord_type) {
            Ok(a) => Ok(GeometryArray::Mixed(a)),
            Err(e) => Err(e),
        },
        (Some(Shape::GeometryCollection), Some(coord_type)) => match multi_polygons_to_geometry_collections(array, to_type.width(), coord_type) {
            Ok(a) => Ok(GeometryArray::GeometryCollection(a)),
            Err(e) => Err(e),
        },
        _ => Err(GeoArrowError::ShapeMismatch),
    }
}

/// The point that a geometry is, if it is one.
pub open spec fn point_of(g: GeometryModel) -> Option<Coord> {
    match g {
        GeometryModel::Point(v) => Some(v),
        _ => None,
    }
}

/// The line string that a geometry is, if it is one.
pub open spec fn line_string_of(g: GeometryModel) -> Option<Seq<Coord>> {
    match g {
        GeometryModel::LineString(v) => Some(v),
        _ => None,
    }
}

/// The polygon that a geometry is, if it is one.
pub open spec fn polygon_of(g: GeometryModel) -> Option<Seq<Seq<Coord>>> {
    match g {
        GeometryModel::Polygon(v) => Some(v),
        _ => None,
    }
}

/// The multi point that a geometry is, if it is one.
pub open spec fn multi_point_of(g: GeometryModel) -> Option<Seq<Coord>> {
    match g {
        GeometryModel::MultiPoint(v) => Some(v),
        _ => None,
    }
}

/// The multi line string that a geometry is, if it is one.
pub open spec fn multi_line_string_of(g: GeometryModel) -> Option<Seq<Seq<Coord>>> {
    match g {
        GeometryModel::MultiLineString(v) => Some(v),
        _ => None,
    }
}

/// The multi polygon that a geometry is, if it is one.
pub open spec fn multi_polygon_of(g: GeometryModel) -> Option<Seq<Seq<Seq<Coord>>>> {
    match g {
        GeometryModel::MultiPolygon(v) => Some(v),
        _ => None,
    }
}

/// Whether a geometry can be read as a geometry of `shape`: it has that very
/// shape. Every geometry can be stored in an array of mixed shape or as the one
/// member of a collection.
pub open spec fn readable_as(g: GeometryModel, shape: Shape) -> bool {
    match shape {
        Shape::Point => point_of(g) is Some,
        Shape::LineString => line_string_of(g) is Some,
        Shape::Polygon => polygon_of(g) is Some,
        Shape::MultiPoint => multi_point_of(g) is Some,
        Shape::MultiLineString => multi_line_string_of(g) is Some,
        Shape::MultiPolygon => multi_polygon_of(g) is Some,
        Shape::Mixed => true,
        Shape::GeometryCollection => true,
    }
}

/// Whether every present element can be read as a geometry of `shape`.
pub open spec fn all_readable_as(values: Seq<GeometryModel>, valid: Seq<bool>, shape: Shape)
    -> bool {
    forall|i: int| 0 <= i < values.len() && valid[i] ==> readable_as(#[trigger] values[i], shape)
}

/// What a geometry of the same shape as `g` stores when it is absent: a
/// geometry of that shape without coordinates. An absent point is stored as a
/// multi point without points.
pub open spec fn absent_like(g: GeometryModel) -> GeometryModel {
    match g {
        GeometryModel::Point(_) => GeometryModel::MultiPoint(Seq::empty()),
        GeometryModel::LineString(_) => GeometryModel::LineString(Seq::empty()),
        GeometryModel::Polygon(_) => GeometryModel::Polygon(Seq::empty()),
        GeometryModel::MultiPoint(_) => GeometryModel::MultiPoint(Seq::empty()),
        GeometryModel::MultiLineString(_) => GeometryModel::MultiLineString(Seq::empty()),
        GeometryModel::MultiPolygon(_) => GeometryModel::MultiPolygon(Seq::empty()),
    }
}

/// What a rebuilt array of mixed shape stores per element: the geometry of a
/// present element, an empty geometry of the same shape for an absent one.
pub open spec fn present_geometries(values: Seq<GeometryModel>, valid: Seq<bool>) -> Seq<
    GeometryModel,
> {
    Seq::new(
        values.len(),
        |i: int|
            if valid[i] {
                values[i]
            } else {
                absent_like(values[i])
            },
    )
}

/// What an array of points stores per element of an array of mixed shape: the
/// present element read as a point, the zero coordinate for an absent one.
pub open spec fn points_of(values: Seq<GeometryModel>, valid: Seq<bool>) -> Seq<Coord> {
    Seq::new(
        values.len(),
        |i: int|
            if valid[i] {
                point_of(values[i])->0
            } else {
                absent_point()
            },
    )
}

/// What an array of line strings stores per element of an array of mixed shape: the
/// present element read as a line string, nothing for an absent one.
pub open spec fn line_strings_of(values: Seq<GeometryModel>, valid: Seq<bool>) -> Seq<Seq<Coord>> {
    Seq::new(
        values.len(),
        |i: int|
            if valid[i] {
                line_string_of(values[i])->0
            } else {
                Seq::empty()
            },
    )
}

/// What an array of polygons stores per element of an array of mixed shape: the
/// present element read as a polygon, nothing for an absent one.
pub open spec fn polygons_of(values: Seq<GeometryModel>, valid: Seq<bool>) -> Seq<Seq<Seq<Coord>>> {
    Seq::new(
        values.len(),
        |i: int|
            if valid[i] {
                polygon_of(values[i])->0
            } else {
                Seq::empty()
            },
    )
}

/// What an array of multi points stores per element of an array of mixed shape: the
/// present element read as a multi point, nothing for an absent one.
pub open spec fn multi_points_of(values: Seq<GeometryModel>, valid: Seq<bool>) -> Seq<Seq<Coord>> {
    Seq::new(
        values.len(),
        |i: int|
            if valid[i] {
                multi_point_of(values[i])->0
            } else {
                Seq::empty()
            },
    )
}

/// What an array of multi line strings stores per element of an array of mixed shape: the
/// present element read as a multi line string, nothing for an absent one.
pub open spec fn multi_line_strings_of(values: Seq<GeometryModel>, valid: Seq<bool>) -> Seq<Seq<Seq<Coord>>> {
    Seq::new(
        values.len(),
        |i: int|
            if valid[i] {
                multi_line_string_of(values[i])->0
            } else {
                Seq::empty()
            },
    )
}

/// What an array of multi polygons stores per element of an array of mixed shape: the
/// present element read as a multi polygon, nothing for an absent one.
pub open spec fn multi_polygons_of(values: Seq<GeometryModel>, valid: Seq<bool>) -> Seq<Seq<Seq<Seq<Coord>>>> {
    Seq::new(
        values.len(),
        |i: int|
            if valid[i] {
                multi_polygon_of(values[i])->0
            } else {
                Seq::empty()
            },
    )
}

/// Whether every present element of `array` can be read as a geometry of
/// `shape`.
fn mixed_all_readable_as(array: &MixedGeometryArray, shape: Shape) -> (b: bool)
    requires
        array.wf(),
    ensures
        b == all_readable_as(array.values(), array.validity_bits(), shape),
{
    let n = array.len();
    let mut i: usize = 0;
    while i < n
        invariant
            array.wf(),
            n == array.values().len(),
            n == array.validity_bits().len(),
            i <= n,
            forall|j: int|
                0 <= j < i && array.validity_bits()[j] ==> readable_as(
                    #[trigger] array.values()[j],
                    shape,
                ),
        decreases n - i,
    {
        if array.is_valid(i) {
            let value = array.value(i);
            let readable = match (shape, value) {
                (Shape::Point, Geometry::Point(_)) => true,
                (Shape::LineString, Geometry::LineString(_)) => true,
                (Shape::Polygon, Geometry::Polygon(_)) => true,
                (Shape::MultiPoint, Geometry::MultiPoint(_)) => true,
                (Shape::MultiLineString, Geometry::MultiLineString(_)) => true,
                (Shape::MultiPolygon, Geometry::MultiPolygon(_)) => true,
                (Shape::Mixed, _) => true,
                (Shape::GeometryCollection, _) => true,
                _ => false,
            };
            assert(readable == readable_as(array.values()[i as int], shape));
            if !readable {
                return false;
            }
        }
        i += 1;
    }
    true
}

/// Reads geometries of mixed shape as points.
fn mixed_to_points(array: &MixedGeometryArray, coord_type: CoordType) -> (r: Result<
    PointArray,
    GeoArrowError,
>)
    requires
        array.wf(),
    ensures
        ({
            let target = points_of(array.values(), array.validity_bits());
            if !all_readable_as(array.values(), array.validity_bits(), Shape::Point) {
                r == Err::<PointArray, GeoArrowError>(GeoArrowError::ShapeMismatch)
            } else {
                &&& r matches Ok(a)
                &&& a.wf()
                &&& a.compact()
                &&& a.values() == target
                &&& a.validity_bits() == array.validity_bits()
                &&& a.spec_coord_type() == coord_type
                &&& a.spec_metadata() == array.spec_metadata()
            }
        }),
{
    if !mixed_all_readable_as(array, Shape::Point) {
        return Err(GeoArrowError::ShapeMismatch);
    }
    let ghost target = points_of(array.values(), array.validity_bits());
    let ghost bits = array.validity_bits();
    let n = array.len();
    let mut builder = PointBuilder::with_capacity_and_options(
        n,
        coord_type,
        array.metadata().duplicate(),
    );
    let mut i: usize = 0;
    proof {
        assert(bits.take(0) =~= Seq::<bool>::empty());
        assert(target.take(0) =~= Seq::<Coord>::empty());
    }
    while i < n
        invariant
            array.wf(),
            n == array.values().len(),
            n == array.validity_bits().len(),
            i <= n,
            target == points_of(array.values(), array.validity_bits()),
            bits == array.validity_bits(),
            all_readable_as(array.values(), array.validity_bits(), Shape::Point),
            builder.wf(),
            builder.values() == target.take(i as int),
            builder.validity_bits() == bits.take(i as int),
            builder.spec_coord_type() == coord_type,
            builder.spec_metadata() == array.spec_metadata(),
        decreases n - i,
    {
        let value = array.value(i);
        proof {
            assert(target.take(i + 1) =~= target.take(i as int).push(target[i as int]));
            assert(bits.take(i + 1) =~= bits.take(i as int).push(bits[i as int]));
            assert(bits[i as int] ==> readable_as(array.values()[i as int], Shape::Point));
        }
        if array.is_valid(i) {
            match value {
                Geometry::Point(g) => {
                    builder.push_point(Some(&g));
                },
                _ => {
                    assert(false);
                    return Err(GeoArrowError::ShapeMismatch);
                },
            }
        } else {
            builder.push_point::<Coord>(None);
        }
        i += 1;
    }
    proof {
        assert(target.take(n as int) =~= target);
        assert(bits.take(n as int) =~= bits);
    }
    Ok(builder.finish())
}

/// Reads geometries of mixed shape as line strings.
fn mixed_to_line_strings(array: &MixedGeometryArray, width: OffsetWidth, coord_type: CoordType) -> (r: Result<
    LineStringArray,
    GeoArrowError,
>)
    requires
        array.wf(),
    ensures
        ({
            let target = line_strings_of(array.values(), array.validity_bits());
            if !all_readable_as(array.values(), array.validity_bits(), Shape::LineString) {
                r == Err::<LineStringArray, GeoArrowError>(GeoArrowError::ShapeMismatch)
            } else if total_len(target) <= width.limit() {
                &&& r matches Ok(a)
                &&& a.wf()
                &&& a.compact()
                &&& a.values() == target
                &&& a.validity_bits() == array.validity_bits()
                &&& a.spec_width() == width
                &&& a.spec_coord_type() == coord_type
                &&& a.spec_metadata() == array.spec_metadata()
            } else {
                r == Err::<LineStringArray, GeoArrowError>(GeoArrowError::IndexOverflow)
            }
        }),
{
    if !mixed_all_readable_as(array, Shape::LineString) {
        return Err(GeoArrowError::ShapeMismatch);
    }
    let ghost target = line_strings_of(array.values(), array.validity_bits());
    let ghost bits = array.validity_bits();
    let n = array.len();
    let mut builder = LineStringBuilder::with_capacity_and_options(
        width,
        LineStringCapacity::new_empty(),
        coord_type,
        array.metadata().duplicate(),
    );
    let mut i: usize = 0;
    proof {
        assert(bits.take(0) =~= Seq::<bool>::empty());
        assert(target.take(0) =~= Seq::<Seq<Coord>>::empty());
    }
    while i < n
        invariant
            array.wf(),
            n == array.values().len(),
            n == array.validity_bits().len(),
            i <= n,
            target == line_strings_of(array.values(), array.validity_bits()),
            bits == array.validity_bits(),
            all_readable_as(array.values(), array.validity_bits(), Shape::LineString),
            builder.wf(),
            builder.values() == target.take(i as int),
            builder.validity_bits() == bits.take(i as int),
            builder.spec_width() == width,
            builder.spec_coord_type() == coord_type,
            builder.spec_metadata() == array.spec_metadata(),
        decreases n - i,
    {
        let value = array.value(i);
        proof {
            assert(target.take(i + 1) =~= target.take(i as int).push(target[i as int]));
            assert(bits.take(i + 1) =~= bits.take(i as int).push(bits[i as int]));
            assert(bits[i as int] ==> readable_as(array.values()[i as int], Shape::LineString));
            lemma_total_len_step(target, i as int);
            lemma_total_len_prefix(target, i + 1);
            lemma_total_len_empty::<Coord>();
        }
        let pushed = if array.is_valid(i) {
            match value {
                Geometry::LineString(g) => builder.push_line_string(Some(&g)),
                _ => {
                    assert(false);
                    return Err(GeoArrowError::ShapeMismatch);
                },
            }
        } else {
            builder.push_line_string::<LineString<'_>>(None)
        };
        match pushed {
            Ok(()) => {},
            Err(e) => {
                return Err(e);
            },
        }
        i += 1;
    }
    proof {
        assert(target.take(n as int) =~= target);
        assert(bits.take(n as int) =~= bits);
        builder.lemma_within_limit();
    }
    Ok(builder.finish())
}

/// Reads geometries of mixed shape as polygons.
fn mixed_to_polygons(array: &MixedGeometryArray, width: OffsetWidth, coord_type: CoordType) -> (r: Result<
    PolygonArray,
    GeoArrowError,
>)
    requires
        array.wf(),
    ensures
        ({
            let target = polygons_of(array.values(), array.validity_bits());
            if !all_readable_as(array.values(), array.validity_bits(), Shape::Polygon) {
                r == Err::<PolygonArray, GeoArrowError>(GeoArrowError::ShapeMismatch)
            } else if total_len(target) <= width.limit() && total_len2(target) <= width.limit() {
                &&& r matches Ok(a)
                &&& a.wf()
                &&& a.compact()
                &&& a.values() == target
                &&& a.validity_bits() == array.validity_bits()
                &&& a.spec_width() == width
                &&& a.spec_coord_type() == coord_type
                &&& a.spec_metadata() == array.spec_metadata()
            } else {
                r == Err::<PolygonArray, GeoArrowError>(GeoArrowError::IndexOverflow)
            }
        }),
{
    if !mixed_all_readable_as(array, Shape::Polygon) {
        return Err(GeoArrowError::ShapeMismatch);
    }
    let ghost target = polygons_of(array.values(), array.validity_bits());
    let ghost bits = array.validity_bits();
    let n = array.len();
    let mut builder = PolygonBuilder::with_capacity_and_options(
        width,
        PolygonCapacity::new_empty(),
        coord_type,
        array.metadata().duplicate(),
    );
    let mut i: usize = 0;
    proof {
        assert(bits.take(0) =~= Seq::<bool>::empty());
        assert(target.take(0) =~= Seq::<Seq<Seq<Coord>>>::empty());
    }
    while i < n
        invariant
            array.wf(),
            n == array.values().len(),
            n == array.validity_bits().len(),
            i <= n,
            target == polygons_of(array.values(), array.validity_bits()),
            bits == array.validity_bits(),
            all_readable_as(array.values(), array.validity_bits(), Shape::Polygon),
            builder.wf(),
            builder.values() == target.take(i as int),
            builder.validity_bits() == bits.take(i as int),
            builder.spec_width() == width,
            builder.spec_coord_type() == coord_type,
            builder.spec_metadata() == array.spec_metadata(),
        decreases n - i,
    {
        let value = array.value(i);
        proof {
            assert(target.take(i + 1) =~= target.take(i as int).push(target[i as int]));
            assert(bits.take(i + 1) =~= bits.take(i as int).push(bits[i as int]));
            assert(bits[i as int] ==> readable_as(array.values()[i as int], Shape::Polygon));
            lemma_total_len_step(target, i as int);
            lemma_total_len_prefix(target, i + 1);
            lemma_total_len_empty::<Coord>();
            lemma_total_len2_step(target, i as int);
            lemma_total_len2_prefix(target, i + 1);
        }
        let pushed = if array.is_valid(i) {
            match value {
                Geometry::Polygon(g) => builder.push_polygon(Some(&g)),
                _ => {
                    assert(false);
                    return Err(GeoArrowError::ShapeMismatch);
                },
            }
        } else {
            builder.push_polygon::<Polygon<'_>>(None)
        };
        match pushed {
            Ok(()) => {},
            Err(e) => {
                return Err(e);
            },
        }
        i += 1;
    }
    proof {
        assert(target.take(n as int) =~= target);
        assert(bits.take(n as int) =~= bits);
        builder.lemma_within_limit();
    }
    Ok(builder.finish())
}

/// Reads geometries of mixed shape as multi points.
fn mixed_to_multi_points(array: &MixedGeometryArray, width: OffsetWidth, coord_type: CoordType) -> (r: Result<
    MultiPointArray,
    GeoArrowError,
>)
    requires
        array.wf(),
    ensures
        ({
            let target = multi_points_of(array.values(), array.validity_bits());
            if !all_readable_as(array.values(), array.validity_bits(), Shape::MultiPoint) {
                r == Err::<MultiPointArray, GeoArrowError>(GeoArrowError::ShapeMismatch)
            } else if total_len(target) <= width.limit() {
                &&& r matches Ok(a)
                &&& a.wf()
                &&& a.compact()
                &&& a.values() == target
                &&& a.validity_bits() == array.validity_bits()
                &&& a.spec_width() == width
                &&& a.spec_coord_type() == coord_type
                &&& a.spec_metadata() == array.spec_metadata()
            } else {
                r == Err::<MultiPointArray, GeoArrowError>(GeoArrowError::IndexOverflow)
            }
        }),
{
    if !mixed_all_readable_as(array, Shape::MultiPoint) {
        return Err(GeoArrowError::ShapeMismatch);
    }
    let ghost target = multi_points_of(array.values(), array.validity_bits());
    let ghost bits = array.validity_bits();
    let n = array.len();
    let mut builder = MultiPointBuilder::with_capacity_and_options(
        width,
        MultiPointCapacity::new_empty(),
        coord_type,
        array.metadata().duplicate(),
    );
    let mut i: usize = 0;
    proof {
        assert(bits.take(0) =~= Seq::<bool>::empty());
        assert(target.take(0) =~= Seq::<Seq<Coord>>::empty());
    }
    while i < n
        invariant
            array.wf(),
            n == array.values().len(),
            n == array.validity_bits().len(),
            i <= n,
            target == multi_points_of(array.values(), array.validity_bits()),
            bits == array.validity_bits(),
            all_readable_as(array.values(), array.validity_bits(), Shape::MultiPoint),
            builder.wf(),
            builder.values() == target.take(i as int),
            builder.validity_bits() == bits.take(i as int),
            builder.spec_width() == width,
            builder.spec_coord_type() == coord_type,
            builder.spec_metadata() == array.spec_metadata(),
        decreases n - i,
    {
        let value = array.value(i);
        proof {
            assert(target.take(i + 1) =~= target.take(i as int).push(target[i as int]));
            assert(bits.take(i + 1) =~= bits.take(i as int).push(bits[i as int]));
            assert(bits[i as int] ==> readable_as(array.values()[i as int], Shape::MultiPoint));
            lemma_total_len_step(target, i as int);
            lemma_total_len_prefix(target, i + 1);
            lemma_total_len_empty::<Coord>();
        }
        let pushed = if array.is_valid(i) {
            match value {
                Geometry::MultiPoint(g) => builder.push_multi_point(Some(&g)),
                _ => {
                    assert(false);
                    return Err(GeoArrowError::ShapeMismatch);
                },
            }
        } else {
            builder.push_multi_point::<MultiPoint<'_>>(None)
        };
        match pushed {
            Ok(()) => {},
            Err(e) => {
                return Err(e);
            },
        }
        i += 1;
    }
    proof {
        assert(target.take(n as int) =~= target);
        assert(bits.take(n as int) =~= bits);
        builder.lemma_within_limit();
    }
    Ok(builder.finish())
}

/// Reads geometries of mixed shape as multi line strings.
fn mixed_to_multi_line_strings(array: &MixedGeometryArray, width: OffsetWidth, coord_type: CoordType) -> (r: Result<
    MultiLineStringArray,
    GeoArrowError,
>)
    requires
        array.wf(),
    ensures
        ({
            let target = multi_line_strings_of(array.values(), array.validity_bits());
            if !all_readable_as(array.values(), array.validity_bits(), Shape::MultiLineString) {
                r == Err::<MultiLineStringArray, GeoArrowError>(GeoArrowError::ShapeMismatch)
            } else if total_len(target) <= width.limit() && total_len2(target) <= width.limit() {
                &&& r matches Ok(a)
                &&& a.wf()
                &&& a.compact()
                &&& a.values() == target
                &&& a.validity_bits() == array.validity_bits()
                &&& a.spec_width() == width
                &&& a.spec_coord_type() == coord_type
                &&& a.spec_metadata() == array.spec_metadata()
            } else {
                r == Err::<MultiLineStringArray, GeoArrowError>(GeoArrowError::IndexOverflow)
            }
        }),
{
    if !mixed_all_readable_as(array, Shape::MultiLineString) {
        return Err(GeoArrowError::ShapeMismatch);
    }
    let ghost target = multi_line_strings_of(array.values(), array.validity_bits());
    let ghost bits = array.validity_bits();
    let n = array.len();
    let mut builder = MultiLineStringBuilder::with_capacity_and_options(
        width,
        MultiLineStringCapacity::new_empty(),
        coord_type,
        array.metadata().duplicate(),
    );
    let mut i: usize = 0;
    proof {
        assert(bits.take(0) =~= Seq::<bool>::empty());
        assert(target.take(0) =~= Seq::<Seq<Seq<Coord>>>::empty());
    }
    while i < n
        invariant
            array.wf(),
            n == array.values().len(),
            n == array.validity_bits().len(),
            i <= n,
            target == multi_line_strings_of(array.values(), array.validity_bits()),
            bits == array.validity_bits(),
            all_readable_as(array.values(), array.validity_bits(), Shape::MultiLineString),
            builder.wf(),
            builder.values() == target.take(i as int),
            builder.validity_bits() == bits.take(i as int),
            builder.spec_width() == width,
            builder.spec_coord_type() == coord_type,
            builder.spec_metadata() == array.spec_metadata(),
        decreases n - i,
    {
        let value = array.value(i);
        proof {
            assert(target.take(i + 1) =~= target.take(i as int).push(target[i as int]));
            assert(bits.take(i + 1) =~= bits.take(i as int).push(bits[i as int]));
            assert(bits[i as int] ==> readable_as(array.values()[i as int], Shape::MultiLineString));
            lemma_total_len_step(target, i as int);
            lemma_total_len_prefix(target, i + 1);
            lemma_total_len_empty::<Coord>();
            lemma_total_len2_step(target, i as int);
            lemma_total_len2_prefix(target, i + 1);
            if let GeometryModel::LineString(l) = array.values()[i as int] {
                lemma_total_len_one(l);
            }
        }
        let pushed = if array.is_valid(i) {
            match value {
                Geometry::MultiLineString(g) => builder.push_multi_line_string(Some(&g)),
                _ => {
                    assert(false);
                    return Err(GeoArrowError::ShapeMismatch);
                },
            }
        } else {
            builder.push_multi_line_string::<MultiLineString<'_>>(None)
        };
        match pushed {
            Ok(()) => {},
            Err(e) => {
                return Err(e);
            },
        }
        i += 1;
    }
    proof {
        assert(target.take(n as int) =~= target);
        assert(bits.take(n as int) =~= bits);
        builder.lemma_within_limit();
    }
    Ok(builder.finish())
}

/// Reads geometries of mixed shape as multi polygons.
fn mixed_to_multi_polygons(array: &MixedGeometryArray, width: OffsetWidth, coord_type: CoordType) -> (r: Result<
    MultiPolygonArray,
    GeoArrowError,
>)
    requires
        array.wf(),
    ensures
        ({
            let target = multi_polygons_of(array.values(), array.validity_bits());
            if !all_readable_as(array.values(), array.validity_bits(), Shape::MultiPolygon) {
                r == Err::<MultiPolygonArray, GeoArrowError>(GeoArrowError::ShapeMismatch)
            } else if total_len(target) <= width.limit() && total_len2(target) <= width.limit()
                && total_len3(target) <= width.limit() {
                &&& r matches Ok(a)
                &&& a.wf()
                &&& a.compact()
                &&& a.values() == target
                &&& a.validity_bits() == array.validity_bits()
                &&& a.spec_width() == width
                &&& a.spec_coord_type() == coord_type
                &&& a.spec_metadata() == array.spec_metadata()
            } else {
                r == Err::<MultiPolygonArray, GeoArrowError>(GeoArrowError::IndexOverflow)
            }
        }),
{
    if !mixed_all_readable_as(array, Shape::MultiPolygon) {
        return Err(GeoArrowError::ShapeMismatch);
    }
    let ghost target = multi_polygons_of(array.values(), array.validity_bits());
    let ghost bits = array.validity_bits();
    let n = array.len();
    let mut builder = MultiPolygonBuilder::with_capacity_and_options(
        width,
        MultiPolygonCapacity::new_empty(),
        coord_type,
        array.metadata().duplicate(),
    );
    let mut i: usize = 0;
    proof {
        assert(bits.take(0) =~= Seq::<bool>::empty());
        assert(target.take(0) =~= Seq::<Seq<Seq<Seq<Coord>>>>::empty());
    }
    while i < n
        invariant
            array.wf(),
            n == array.values().len(),
            n == array.validity_bits().len(),
            i <= n,
            target == multi_polygons_of(array.values(), array.validity_bits()),
            bits == array.validity_bits(),
            all_readable_as(array.values(), array.validity_bits(), Shape::MultiPolygon),
            builder.wf(),
            builder.values() == target.take(i as int),
            builder.validity_bits() == bits.take(i as int),
            builder.spec_width() == width,
            builder.spec_coord_type() == coord_type,
            builder.spec_metadata() == array.spec_metadata(),
        decreases n - i,
    {
        let value = array.value(i);
        proof {
            assert(target.take(i + 1) =~= target.take(i as int).push(target[i as int]));
            assert(bits.take(i + 1) =~= bits.take(i as int).push(bits[i as int]));
            assert(bits[i as int] ==> readable_as(array.values()[i as int], Shape::MultiPolygon));
            lemma_total_len_step(target, i as int);
            lemma_total_len_prefix(target, i + 1);
            lemma_total_len_empty::<Coord>();
            lemma_total_len2_step(target, i as int);
            lemma_total_len2_prefix(target, i + 1);
            lemma_total_len3_step(target, i as int);
            lemma_total_len3_prefix(target, i + 1);
            if let GeometryModel::Polygon(p) = array.values()[i as int] {
                lemma_total_len_one(p);
                lemma_total_len2_one(p);
            }
        }
        let pushed = if array.is_valid(i) {
            match value {
                Geometry::MultiPolygon(g) => builder.push_multi_polygon(Some(&g)),
                _ => {
                    assert(false);
                    return Err(GeoArrowError::ShapeMismatch);
                },
            }
        } else {
            builder.push_multi_polygon::<MultiPolygon<'_>>(None)
        };
        match pushed {
            Ok(()) => {},
            Err(e) => {
                return Err(e);
            },
        }
        i += 1;
    }
    proof {
        assert(target.take(n as int) =~= target);
        assert(bits.take(n as int) =~= bits);
        builder.lemma_within_limit();
    }
    Ok(builder.finish())
}

/// Rebuilds geometries of mixed shape with another coordinate layout or offset
/// width.
fn mixed_to_mixeds(array: &MixedGeometryArray, width: OffsetWidth, coord_type: CoordType) -> (r:
    Result<MixedGeometryArray, GeoArrowError>)
    requires
        array.wf(),
    ensures
        ({
            let target = present_geometries(array.values(), array.validity_bits());
            if all_fit(target, width) {
                &&& r matches Ok(a)
                &&& a.wf()
                &&& a.compact()
                &&& a.values() == target
                &&& a.validity_bits() == array.validity_bits()
                &&& a.spec_width() == width
                &&& a.spec_coord_type() == coord_type
                &&& a.spec_metadata() == array.spec_metadata()
            } else {
                r == Err::<MixedGeometryArray, GeoArrowError>(GeoArrowError::IndexOverflow)
            }
        }),
{
    let ghost target = present_geometries(array.values(), array.validity_bits());
    let ghost bits = array.validity_bits();
    let n = array.len();
    let mut builder = MixedGeometryBuilder::with_capacity_and_options(
        width,
        array.buffer_lengths(),
        coord_type,
        array.metadata().duplicate(),
        false,
    );
    let mut i: usize = 0;
    proof {
        assert(bits.take(0) =~= Seq::<bool>::empty());
        assert(target.take(0) =~= Seq::<GeometryModel>::empty());
    }
    while i < n
        invariant
            array.wf(),
            n == array.values().len(),
            n == array.validity_bits().len(),
            i <= n,
            target == present_geometries(array.values(), array.validity_bits()),
            bits == array.validity_bits(),
            builder.wf(),
            builder.values() == target.take(i as int),
            all_fit(target.take(i as int), width),
            !builder.spec_prefer_multi(),
            builder.validity_bits() == bits.take(i as int),
            builder.spec_width() == width,
            builder.spec_coord_type() == coord_type,
            builder.spec_metadata() == array.spec_metadata(),
        decreases n - i,
    {
        let value = array.value(i);
        proof {
            assert(target.take(i + 1) =~= target.take(i as int).push(target[i as int]));
            assert(bits.take(i + 1) =~= bits.take(i as int).push(bits[i as int]));
            lemma_children_push(target.take(i as int), target[i as int], width);
            if all_fit(target, width) {
                lemma_all_fit_prefix(target, width, i + 1);
            }
        }
        let pushed = if array.is_valid(i) {
            builder.push_geometry(Some(&value))
        } else {
            match value {
                Geometry::Point(_) => builder.push_point::<Point<'_>>(None),
                Geometry::LineString(_) => builder.push_line_string::<LineString<'_>>(None),
                Geometry::Polygon(_) => builder.push_polygon::<Polygon<'_>>(None),
                Geometry::MultiPoint(_) => builder.push_multi_point::<MultiPoint<'_>>(None),
                Geometry::MultiLineString(_) => builder.push_multi_line_string::<
                    MultiLineString<'_>,
                >(None),
                Geometry::MultiPolygon(_) => builder.push_multi_polygon::<MultiPolygon<'_>>(None),
            }
        };
        match pushed {
            Ok(()) => {},
            Err(e) => {
                return Err(e);
            },
        }
        i += 1;
    }
    proof {
        assert(target.take(n as int) =~= target);
        assert(bits.take(n as int) =~= bits);
    }
    Ok(builder.finish())
}

/// Wraps geometries of mixed shape into geometry collections of one member each.
fn mixed_to_geometry_collections(
    array: &MixedGeometryArray,
    width: OffsetWidth,
    coord_type: CoordType,
) -> (r: Result<GeometryCollectionArray, GeoArrowError>)
    requires
        array.wf(),
    ensures
        ({
            let target = present_geometries(array.values(), array.validity_bits());
            if collections_fit(target, array.validity_bits(), width) {
                &&& r matches Ok(a)
                &&& a.wf()
                &&& a.compact()
                &&& a.values() == singletons(target, array.validity_bits())
                &&& a.validity_bits() == array.validity_bits()
                &&& a.member_bits() == singletons(
                    Seq::new(target.len(), |i: int| true),
                    array.validity_bits(),
                )
                &&& a.spec_width() == width
                &&& a.spec_coord_type() == coord_type
                &&& a.spec_metadata() == array.spec_metadata()
            } else {
                r == Err::<GeometryCollectionArray, GeoArrowError>(GeoArrowError::IndexOverflow)
            }
        }),
{
    let ghost target = present_geometries(array.values(), array.validity_bits());
    let ghost bits = array.validity_bits();
    let ghost collections = singletons(target, bits);
    let ghost units = singletons(Seq::new(target.len(), |i: int| true), bits);
    let n = array.len();
    let mut builder = GeometryCollectionBuilder::with_capacity_and_options(
        width,
        GeometryCollectionCapacity::new(array.buffer_lengths(), n),
        coord_type,
        array.metadata().duplicate(),
    );
    let mut i: usize = 0;
    proof {
        assert(bits.take(0) =~= Seq::<bool>::empty());
        assert(collections.take(0) =~= Seq::<Seq<GeometryModel>>::empty());
        assert(units.take(0) =~= Seq::<Seq<bool>>::empty());
        assert(target.take(0) =~= Seq::<GeometryModel>::empty());
    }
    while i < n
        invariant
            array.wf(),
            n == array.values().len(),
            n == array.validity_bits().len(),
            i <= n,
            target == present_geometries(array.values(), array.validity_bits()),
            bits == array.validity_bits(),
            builder.wf(),
            collections == singletons(target, bits),
            units == singletons(Seq::new(target.len(), |i: int| true), bits),
            builder.values() == collections.take(i as int),
            builder.member_bits() == units.take(i as int),
            builder.members() == members_of(target.take(i as int), bits.take(i as int)),
            collections_fit(target.take(i as int), bits.take(i as int), width),
            builder.validity_bits() == bits.take(i as int),
            builder.spec_width() == width,
            builder.spec_coord_type() == coord_type,
            builder.spec_metadata() == array.spec_metadata(),
        decreases n - i,
    {
        let value = array.value(i);
        proof {
            assert(target.take(i + 1) =~= target.take(i as int).push(target[i as int]));
            assert(bits.take(i + 1) =~= bits.take(i as int).push(bits[i as int]));
            lemma_collections_step(target, bits, width, i as int);
            if collections_fit(target, bits, width) {
                lemma_collections_fit_prefix(target, bits, width, i + 1);
            }
            assert(units.take(i + 1) =~= units.take(i as int).push(units[i as int]));
            assert(collections.take(i + 1) =~= collections.take(i as int).push(
                collections[i as int],
            ));
        }
        let pushed = if array.is_valid(i) {
            builder.push_geometry(Some(&value), false)
        } else {
            builder.push_geometry::<Geometry<'_>>(None, false)
        };
        match pushed {
            Ok(()) => {},
            Err(e) => {
                return Err(e);
            },
        }
        i += 1;
    }
    proof {
        assert(target.take(n as int) =~= target);
        assert(bits.take(n as int) =~= bits);
        assert(collections.take(n as int) =~= collections);
        assert(units.take(n as int) =~= units);
    }
    Ok(builder.finish())
}

/// Casts geometries of mixed shape to the type `to_type` of points.
fn cast_mixed_to_point(array: &MixedGeometryArray, to_type: &GeoDataType, coord_type: CoordType)
    -> (r: Result<GeometryArray, GeoArrowError>)
    requires
        array.wf(),
        to_type.spec_shape() == Some(Shape::Point),
        to_type.spec_coord_type() == Some(coord_type),
    ensures
        if all_readable_as(array.values(), array.validity_bits(), Shape::Point) {
            point_result(
                r,
                points_of(array.values(), array.validity_bits()),
                array.validity_bits(),
                *to_type,
                array.spec_metadata(),
            )
        } else {
            r == Err::<GeometryArray, GeoArrowError>(GeoArrowError::ShapeMismatch)
        },
{
    match mixed_to_points(array, coord_type) {
        Ok(a) => Ok(GeometryArray::Point(a)),
        Err(e) => Err(e),
    }
}

/// Casts geometries of mixed shape to the type `to_type` of line strings.
fn cast_mixed_to_line_string(array: &MixedGeometryArray, to_type: &GeoDataType, coord_type: CoordType)
    -> (r: Result<GeometryArray, GeoArrowError>)
    requires
        array.wf(),
        to_type.spec_shape() == Some(Shape::LineString),
        to_type.spec_coord_type() == Some(coord_type),
    ensures
        if all_readable_as(array.values(), array.validity_bits(), Shape::LineString) {
            line_string_result(
                r,
                line_strings_of(array.values(), array.validity_bits()),
                array.validity_bits(),
                *to_type,
                array.spec_metadata(),
            )
        } else {
            r == Err::<GeometryArray, GeoArrowError>(GeoArrowError::ShapeMismatch)
        },
{
    match mixed_to_line_strings(array, to_type.width(), coord_type) {
        Ok(a) => Ok(GeometryArray::LineString(a)),
        Err(e) => Err(e),
    }
}

/// Casts geometries of mixed shape to the type `to_type` of polygons.
fn cast_mixed_to_polygon(array: &MixedGeometryArray, to_type: &GeoDataType, coord_type: CoordType)
    -> (r: Result<GeometryArray, GeoArrowError>)
    requires
        array.wf(),
        to_type.spec_shape() == Some(Shape::Polygon),
        to_type.spec_coord_type() == Some(coord_type),
    ensures
        if all_readable_as(array.values(), array.validity_bits(), Shape::Polygon) {
            polygon_result(
                r,
                polygons_of(array.values(), array.validity_bits()),
                array.validity_bits(),
                *to_type,
                array.spec_metadata(),
            )
        } else {
            r == Err::<GeometryArray, GeoArrowError>(GeoArrowError::ShapeMismatch)
        },
{
    match mixed_to_polygons(array, to_type.width(), coord_type) {
        Ok(a) => Ok(GeometryArray::Polygon(a)),
        Err(e) => Err(e),
    }
}

/// Casts geometries of mixed shape to the type `to_type` of multi points.
fn cast_mixed_to_multi_point(array: &MixedGeometryArray, to_type: &GeoDataType, coord_type: CoordType)
    -> (r: Result<GeometryArray, GeoArrowError>)
    requires
        array.wf(),
        to_type.spec_shape() == Some(Shape::MultiPoint),
        to_type.spec_coord_type() == Some(coord_type),
    ensures
        if all_readable_as(array.values(), array.validity_bits(), Shape::MultiPoint) {
            multi_point_result(
                r,
                multi_points_of(array.values(), array.validity_bits()),
                array.validity_bits(),
                *to_type,
                array.spec_metadata(),
            )
        } else {
            r == Err::<GeometryArray, GeoArrowError>(GeoArrowError::ShapeMismatch)
        },
{
    match mixed_to_multi_points(array, to_type.width(), coord_type) {
        Ok(a) => Ok(GeometryArray::MultiPoint(a)),
        Err(e) => Err(e),
    }
}

/// Casts geometries of mixed shape to the type `to_type` of multi line strings.
fn cast_mixed_to_multi_line_string(array: &MixedGeometryArray, to_type: &GeoDataType, coord_type: CoordType)
    -> (r: Result<GeometryArray, GeoArrowError>)
    requires
        array.wf(),
        to_type.spec_shape() == Some(Shape::MultiLineString),
        to_type.spec_coord_type() == Some(coord_type),
    ensures
        if all_readable_as(array.values(), array.validity_bits(), Shape::MultiLineString) {
            multi_line_string_result(
                r,
                multi_line_strings_of(array.values(), array.validity_bits()),
                array.validity_bits(),
                *to_type,
                array.spec_metadata(),
            )
        } else {
            r == Err::<GeometryArray, GeoArrowError>(GeoArrowError::ShapeMismatch)
        },
{
    match mixed_to_multi_line_strings(array, to_type.width(), coord_type) {
        Ok(a) => Ok(GeometryArray::MultiLineString(a)),
        Err(e) => Err(e),
    }
}

/// Casts geometries of mixed shape to the type `to_type` of multi polygons.
fn cast_mixed_to_multi_polygon(array: &MixedGeometryArray, to_type: &GeoDataType, coord_type: CoordType)
    -> (r: Result<GeometryArray, GeoArrowError>)
    requires
        array.wf(),
        to_type.spec_shape() == Some(Shape::MultiPolygon),
        to_type.spec_coord_type() == Some(coord_type),
    ensures
        if all_readable_as(array.values(), array.validity_bits(), Shape::MultiPolygon) {
            multi_polygon_result(
                r,
                multi_polygons_of(array.values(), array.validity_bits()),
                array.validity_bits(),
                *to_type,
                array.spec_metadata(),
            )
        } else {
            r == Err::<GeometryArray, GeoArrowError>(GeoArrowError::ShapeMismatch)
        },
{
    match mixed_to_multi_polygons(array, to_type.width(), coord_type) {
        Ok(a) => Ok(GeometryArray::MultiPolygon(a)),
        Err(e) => Err(e),
    }
}

/// Casts geometries of mixed shape to the type `to_type` of mixed shape.
fn cast_mixed_to_mixed(array: &MixedGeometryArray, to_type: &GeoDataType, coord_type: CoordType)
    -> (r: Result<GeometryArray, GeoArrowError>)
    requires
        array.wf(),
        to_type.spec_shape() == Some(Shape::Mixed),
        to_type.spec_coord_type() == Some(coord_type),
    ensures
        mixed_result(
            r,
            present_geometries(array.values(), array.validity_bits()),
            array.validity_bits(),
            *to_type,
            array.spec_metadata(),
        ),
{
    match mixed_to_mixeds(array, to_type.width(), coord_type) {
        Ok(a) => Ok(GeometryArray::Mixed(a)),
        Err(e) => Err(e),
    }
}

/// Casts geometries of mixed shape to the type `to_type` of geometry
/// collections.
fn cast_mixed_to_geometry_collection(
    array: &MixedGeometryArray,
    to_type: &GeoDataType,
    coord_type: CoordType,
) -> (r: Result<GeometryArray, GeoArrowError>)
    requires
        array.wf(),
        to_type.spec_shape() == Some(Shape::GeometryCollection),
        to_type.spec_coord_type() == Some(coord_type),
    ensures
        collection_result(
            r,
            present_geometries(array.values(), array.validity_bits()),
            array.validity_bits(),
            *to_type,
            array.spec_metadata(),
        ),
{
    match mixed_to_geometry_collections(array, to_type.width(), coord_type) {
        Ok(a) => Ok(GeometryArray::GeometryCollection(a)),
        Err(e) => Err(e),
    }
}

/// What casting `array` to `to_type` returns.
///
/// A cast to one of the six simple shapes fails with
/// [`GeoArrowError::ShapeMismatch`] where some present element has another shape
/// than that one: a point among the elements keeps the array from being cast to
/// multi points, as a multi point keeps it from being cast to points. Where all
/// have the shape, the cast may still fail with
/// [`GeoArrowError::IndexOverflow`]. Absent elements become absent elements of
/// the target, whatever child they were stored in.
pub open spec fn mixed_cast(
    array: &MixedGeometryArray,
    to_type: GeoDataType,
    r: Result<GeometryArray, GeoArrowError>,
) -> bool {
    match to_type.spec_shape() {
        Some(Shape::Point) => if all_readable_as(array.values(), array.validity_bits(), Shape::Point) {
            point_result(
                r,
                points_of(array.values(), array.validity_bits()),
                array.validity_bits(),
                to_type,
                array.spec_metadata(),
            )
        } else {
            r == Err::<GeometryArray, GeoArrowError>(GeoArrowError::ShapeMismatch)
        },
        Some(Shape::LineString) => if all_readable_as(array.values(), array.validity_bits(), Shape::LineString) {
            line_string_result(
                r,
                line_strings_of(array.values(), array.validity_bits()),
                array.validity_bits(),
                to_type,
                array.spec_metadata(),
            )
        } else {
            r == Err::<GeometryArray, GeoArrowError>(GeoArrowError::ShapeMismatch)
        },
        Some(Shape::Polygon) => if all_readable_as(array.values(), array.validity_bits(), Shape::Polygon) {
            polygon_result(
                r,
                polygons_of(array.values(), array.validity_bits()),
                array.validity_bits(),
                to_type,
                array.spec_metadata(),
            )
        } else {
            r == Err::<GeometryArray, GeoArrowError>(GeoArrowError::ShapeMismatch)
        },
        Some(Shape::MultiPoint) => if all_readable_as(array.values(), array.validity_bits(), Shape::MultiPoint) {
            multi_point_result(
                r,
                multi_points_of(array.values(), array.validity_bits()),
                array.validity_bits(),
                to_type,
                array.spec_metadata(),
            )
        } else {
            r == Err::<GeometryArray, GeoArrowError>(GeoArrowError::ShapeMismatch)
        },
        Some(Shape::MultiLineString) => if all_readable_as(array.values(), array.validity_bits(), Shape::MultiLineString) {
            multi_line_string_result(
                r,
                multi_line_strings_of(array.values(), array.validity_bits()),
                array.validity_bits(),
                to_type,
                array.spec_metadata(),
            )
        } else {
            r == Err::<GeometryArray, GeoArrowError>(GeoArrowError::ShapeMismatch)
        },
        Some(Shape::MultiPolygon) => if all_readable_as(array.values(), array.validity_bits(), Shape::MultiPolygon) {
            multi_polygon_result(
                r,
                multi_polygons_of(array.values(), array.validity_bits()),
                array.validity_bits(),
                to_type,
                array.spec_metadata(),
            )
        } else {
            r == Err::<GeometryArray, GeoArrowError>(GeoArrowError::ShapeMismatch)
        },
        Some(Shape::Mixed) => mixed_result(
            r,
            present_geometries(array.values(), array.validity_bits()),
            array.validity_bits(),
            to_type,
            array.spec_metadata(),
        ),
        Some(Shape::GeometryCollection) => collection_result(
            r,
            present_geometries(array.values(), array.validity_bits()),
            array.validity_bits(),
            to_type,
            array.spec_metadata(),
        ),
        _ => r == Err::<GeometryArray, GeoArrowError>(GeoArrowError::ShapeMismatch),
    }
}

/// Casts an array of geometries of mixed shape to `to_type`.
///
/// A cast to one of the six simple shapes first checks every present element
/// and only then rebuilds.
pub fn cast_mixed_array(array: &MixedGeometryArray, to_type: &GeoDataType) -> (r: Result<
    GeometryArray,
    GeoArrowError,
>)
    requires
        array.wf(),
    ensures
        mixed_cast(array, *to_type, r),
{
    match (to_type.shape(), to_type.coord_type()) {
        (Some(Shape::Point), Some(coord_type)) => cast_mixed_to_point(array, to_type, coord_type),
        (Some(Shape::LineString), Some(coord_type)) => cast_mixed_to_line_string(array, to_type, coord_type),
        (Some(Shape::Polygon), Some(coord_type)) => cast_mixed_to_polygon(array, to_type, coord_type),
        (Some(Shape::MultiPoint), Some(coord_type)) => cast_mixed_to_multi_point(array, to_type, coord_type),
        (Some(Shape::MultiLineString), Some(coord_type)) => cast_mixed_to_multi_line_string(array, to_type, coord_type),
        (Some(Shape::MultiPolygon), Some(coord_type)) => cast_mixed_to_multi_polygon(array, to_type, coord_type),
        (Some(Shape::Mixed), Some(coord_type)) => cast_mixed_to_mixed(array, to_type, coord_type),
        (Some(Shape::GeometryCollection), Some(coord_type)) => cast_mixed_to_geometry_collection(
            array,
            to_type,
            coord_type,
        ),
        _ => Err(GeoArrowError::ShapeMismatch),
    }
}

/// The first member of every collection.
pub open spec fn first_members(values: Seq<Seq<GeometryModel>>) -> Seq<GeometryModel> {
    Seq::new(values.len(), |i: int| values[i][0])
}

/// Which elements are present when collections of one member are read as their
/// member: those whose collection is present and whose member is.
pub open spec fn first_member_presence(member_bits: Seq<Seq<bool>>, valid: Seq<bool>) -> Seq<bool> {
    Seq::new(valid.len(), |i: int| valid[i] && member_bits[i][0])
}

/// What an array of mixed shape stores for collections of one member each.
pub open spec fn unwrapped(array: &GeometryCollectionArray) -> Seq<GeometryModel> {
    present_geometries(
        first_members(array.values()),
        first_member_presence(array.member_bits(), array.validity_bits()),
    )
}

/// Unwraps geometry collections of one member each into geometries of mixed
/// shape.
fn geometry_collections_to_mixeds(
    array: &GeometryCollectionArray,
    width: OffsetWidth,
    coord_type: CoordType,
) -> (r: Result<MixedGeometryArray, GeoArrowError>)
    requires
        array.wf(),
    ensures
        ({
            let target = unwrapped(array);
            if !all_single(array.values()) {
                r == Err::<MixedGeometryArray, GeoArrowError>(GeoArrowError::ShapeMismatch)
            } else if all_fit(target, width) {
                &&& r matches Ok(a)
                &&& a.wf()
                &&& a.compact()
                &&& a.values() == target
                &&& a.validity_bits() == first_member_presence(
                    array.member_bits(),
                    array.validity_bits(),
                )
                &&& a.spec_width() == width
                &&& a.spec_coord_type() == coord_type
                &&& a.spec_metadata() == array.spec_metadata()
            } else {
                r == Err::<MixedGeometryArray, GeoArrowError>(GeoArrowError::IndexOverflow)
            }
        }),
{
    proof {
        array.lemma_values();
        let all = array.spec_members().len_facts();
    }
    if !all_runs_single(array.geom_offsets()) {
        proof {
            let j = choose|j: int|
                0 <= j < run_count(array.spec_geom_offsets()) && #[trigger] array.spec_geom_offsets()[j
                    + 1] - array.spec_geom_offsets()[j] != 1;
            assert(array.spec_geom_offsets()[j + 1] <= array.spec_geom_offsets().last());
            assert(array.values()[j].len() != 1);
        }
        return Err(GeoArrowError::ShapeMismatch);
    }
    proof {
        assert forall|j: int| 0 <= j < array.values().len() implies (#[trigger] array.values()[j]).len()
            == 1 by {
            assert(array.spec_geom_offsets()[j + 1] - array.spec_geom_offsets()[j] == 1);
            assert(array.spec_geom_offsets()[j + 1] <= array.spec_geom_offsets().last());
        }
    }
    let ghost target = unwrapped(array);
    let ghost bits = first_member_presence(array.member_bits(), array.validity_bits());
    let n = array.len();
    let mut builder = MixedGeometryBuilder::with_capacity_and_options(
        width,
        MixedCapacity::new_empty(),
        coord_type,
        array.metadata().duplicate(),
        false,
    );
    let mut i: usize = 0;
    proof {
        assert(bits.take(0) =~= Seq::<bool>::empty());
        assert(target.take(0) =~= Seq::<GeometryModel>::empty());
    }
    while i < n
        invariant
            array.wf(),
            n == array.values().len(),
            n == array.validity_bits().len(),
            n == array.member_bits().len(),
            i <= n,
            all_single(array.values()),
            target == unwrapped(array),
            bits == first_member_presence(array.member_bits(), array.validity_bits()),
            builder.wf(),
            builder.values() == target.take(i as int),
            !builder.spec_prefer_multi(),
            builder.validity_bits() == bits.take(i as int),
            builder.spec_width() == width,
            builder.spec_coord_type() == coord_type,
            builder.spec_metadata() == array.spec_metadata(),
        decreases n - i,
    {
        let collection = array.value(i);
        assert(array.values()[i as int].len() == 1);
        let member = collection.geometry(0).unwrap();
        let present = array.is_valid(i) && collection.is_member_valid(0);
        proof {
            assert(target.take(i + 1) =~= target.take(i as int).push(target[i as int]));
            assert(bits.take(i + 1) =~= bits.take(i as int).push(bits[i as int]));
            lemma_children_push(target.take(i as int), target[i as int], width);
            if all_fit(target, width) {
                lemma_all_fit_prefix(target, width, i + 1);
            }
        }
        let pushed = if present {
            builder.push_geometry(Some(&member))
        } else {
            match member {
                Geometry::Point(_) => builder.push_point::<Point<'_>>(None),
                Geometry::LineString(_) => builder.push_line_string::<LineString<'_>>(None),
                Geometry::Polygon(_) => builder.push_polygon::<Polygon<'_>>(None),
                Geometry::MultiPoint(_) => builder.push_multi_point::<MultiPoint<'_>>(None),
                Geometry::MultiLineString(_) => builder.push_multi_line_string::<
                    MultiLineString<'_>,
                >(None),
                Geometry::MultiPolygon(_) => builder.push_multi_polygon::<MultiPolygon<'_>>(None),
            }
        };
        match pushed {
            Ok(()) => {},
            Err(e) => {
                return Err(e);
            },
        }
        i += 1;
    }
    proof {
        assert(target.take(n as int) =~= target);
        assert(bits.take(n as int) =~= bits);
        builder.lemma_fitted();
    }
    Ok(builder.finish())
}

/// What rebuilding collections with another coordinate layout or offset width
/// returns: the same collections over rebuilt members.
pub open spec fn rebuilt_collections(
    array: &GeometryCollectionArray,
    to_type: GeoDataType,
    r: Result<GeometryArray, GeoArrowError>,
) -> bool {
    let members = array.spec_members();
    let target = present_geometries(members.values(), members.validity_bits());
    if all_fit(target, to_type.spec_width()) && array.spec_geom_offsets().last()
        <= to_type.spec_width().limit() {
        &&& r matches Ok(GeometryArray::GeometryCollection(a))
        &&& a.wf()
        &&& a.spec_members().compact()
        &&& a.spec_members().values() == target
        &&& a.spec_geom_offsets() == array.spec_geom_offsets()
        &&& a.has_bitmap() == array.has_bitmap()
        &&& a.values() == runs(target, array.spec_geom_offsets())
        &&& a.member_bits() == array.member_bits()
        &&& a.validity_bits() == array.validity_bits()
        &&& a.spec_width() == to_type.spec_width()
        &&& Some(a.spec_coord_type()) == to_type.spec_coord_type()
        &&& a.spec_metadata() == array.spec_metadata()
    } else {
        r == Err::<GeometryArray, GeoArrowError>(GeoArrowError::IndexOverflow)
    }
}

/// Rebuilds geometry collections with another coordinate layout or offset width.
fn geometry_collections_to_geometry_collections(
    array: &GeometryCollectionArray,
    to_type: &GeoDataType,
    coord_type: CoordType,
) -> (r: Result<GeometryArray, GeoArrowError>)
    requires
        array.wf(),
        to_type.spec_shape() == Some(Shape::GeometryCollection),
        to_type.spec_coord_type() == Some(coord_type),
    ensures
        rebuilt_collections(array, *to_type, r),
{
    proof {
        array.lemma_values();
        let all = array.spec_members().len_facts();
    }
    let width = to_type.width();
    let members = match mixed_to_mixeds(array.members(), width, coord_type) {
        Ok(m) => m,
        Err(e) => {
            return Err(e);
        },
    };
    let offsets = match array.geom_offsets().to_width(width) {
        Some(o) => o,
        None => {
            return Err(GeoArrowError::IndexOverflow);
        },
    };
    let a = GeometryCollectionArray::new(
        members,
        offsets,
        array.validity(),
        array.metadata().duplicate(),
    );
    Ok(GeometryArray::GeometryCollection(a))
}

/// What casting `array` to `to_type` returns.
///
/// A cast to collections keeps the collections and rebuilds their members. A
/// cast to any other shape needs every collection to hold exactly one member and
/// fails with [`GeoArrowError::ShapeMismatch`] where one does not; where all do,
/// the result is that of casting the array of mixed shape that holds the
/// members.
pub open spec fn geometry_collection_cast(
    array: &GeometryCollectionArray,
    to_type: GeoDataType,
    r: Result<GeometryArray, GeoArrowError>,
) -> bool {
    match to_type.spec_shape() {
        Some(Shape::GeometryCollection) => rebuilt_collections(array, to_type, r),
        Some(_) => if !all_single(array.values()) {
            r == Err::<GeometryArray, GeoArrowError>(GeoArrowError::ShapeMismatch)
        } else if !all_fit(unwrapped(array), to_type.spec_width()) {
            r == Err::<GeometryArray, GeoArrowError>(GeoArrowError::IndexOverflow)
        } else {
            exists|mixed: MixedGeometryArray|
                {
                    &&& mixed.wf()
                    &&& mixed.values() == unwrapped(array)
                    &&& mixed.validity_bits() == first_member_presence(
                        array.member_bits(),
                        array.validity_bits(),
                    )
                    &&& mixed.spec_metadata() == array.spec_metadata()
                    &&& #[trigger] mixed_cast(&mixed, to_type, r)
                }
        },
        None => r == Err::<GeometryArray, GeoArrowError>(GeoArrowError::ShapeMismatch),
    }
}

/// Casts an array of geometry collections to `to_type`.
pub fn cast_geometry_collection_array(array: &GeometryCollectionArray, to_type: &GeoDataType) -> (r:
    Result<GeometryArray, GeoArrowError>)
    requires
        array.wf(),
    ensures
        geometry_collection_cast(array, *to_type, r),
{
    match (to_type.shape(), to_type.coord_type()) {
        (Some(Shape::GeometryCollection), Some(coord_type)) => {
            geometry_collections_to_geometry_collections(array, to_type, coord_type)
        },
        (Some(_), Some(coord_type)) => {
            match geometry_collections_to_mixeds(array, to_type.width(), coord_type) {
                Ok(mixed) => {
                    let r = cast_mixed_array(&mixed, to_type);
                    proof {
                        assert(mixed_cast(&mixed, *to_type, r));
                    }
                    r
                },
                Err(e) => Err(e),
            }
        },
        _ => Err(GeoArrowError::ShapeMismatch),
    }
}

/// What casting `array` to `to_type` returns, whatever the shape of `array`.
pub open spec fn array_cast(
    array: &GeometryArray,
    to_type: GeoDataType,
    r: Result<GeometryArray, GeoArrowError>,
) -> bool {
    match array {
        GeometryArray::Point(a) => point_cast(a, to_type, r),
        GeometryArray::LineString(a) => line_string_cast(a, to_type, r),
        GeometryArray::Polygon(a) => polygon_cast(a, to_type, r),
        GeometryArray::MultiPoint(a) => multi_point_cast(a, to_type, r),
        GeometryArray::MultiLineString(a) => multi_line_string_cast(a, to_type, r),
        GeometryArray::MultiPolygon(a) => multi_polygon_cast(a, to_type, r),
        GeometryArray::Mixed(a) => mixed_cast(a, to_type, r),
        GeometryArray::GeometryCollection(a) => geometry_collection_cast(a, to_type, r),
    }
}

/// Whether arrays of shape `from` can be cast to arrays of shape `to`: to the
/// same shape, between the single and the multi shape of a family, and from and
/// to the mixed shape and collections.
pub open spec fn spec_can_cast(from: Shape, to: Shape) -> bool {
    match (from, to) {
        (Shape::GeometryCollection, _) => true,
        (_, Shape::Mixed) | (_, Shape::GeometryCollection) | (Shape::Mixed, _) => true,
        (Shape::Point, Shape::Point)
        | (Shape::Point, Shape::MultiPoint)
        | (Shape::MultiPoint, Shape::Point)
        | (Shape::MultiPoint, Shape::MultiPoint)
        | (Shape::LineString, Shape::LineString)
        | (Shape::LineString, Shape::MultiLineString)
        | (Shape::MultiLineString, Shape::LineString)
        | (Shape::MultiLineString, Shape::MultiLineString)
        | (Shape::Polygon, Shape::Polygon)
        | (Shape::Polygon, Shape::MultiPolygon)
        | (Shape::MultiPolygon, Shape::Polygon)
        | (Shape::MultiPolygon, Shape::MultiPolygon) => true,
        _ => false,
    }
}

/// Whether arrays of type `from_type` can be cast to `to_type`. Where they
/// cannot, every such cast fails with [`GeoArrowError::ShapeMismatch`]; where they
/// can, whether a cast succeeds depends on the elements.
pub fn can_cast_types(from_type: &GeoDataType, to_type: &GeoDataType) -> (b: bool)
    ensures
        b == match (from_type.spec_shape(), to_type.spec_shape()) {
            (Some(from), Some(to)) => spec_can_cast(from, to),
            _ => false,
        },
{
    match (from_type.shape(), to_type.shape()) {
        (Some(Shape::GeometryCollection), Some(_)) => true,
        (Some(_), Some(Shape::Mixed)) => true,
        (Some(_), Some(Shape::GeometryCollection)) => true,
        (Some(Shape::Mixed), Some(_)) => true,
        (Some(Shape::Point), Some(Shape::Point)) => true,
        (Some(Shape::Point), Some(Shape::MultiPoint)) => true,
        (Some(Shape::MultiPoint), Some(Shape::Point)) => true,
        (Some(Shape::MultiPoint), Some(Shape::MultiPoint)) => true,
        (Some(Shape::LineString), Some(Shape::LineString)) => true,
        (Some(Shape::LineString), Some(Shape::MultiLineString)) => true,
        (Some(Shape::MultiLineString), Some(Shape::LineString)) => true,
        (Some(Shape::MultiLineString), Some(Shape::MultiLineString)) => true,
        (Some(Shape::Polygon), Some(Shape::Polygon)) => true,
        (Some(Shape::Polygon), Some(Shape::MultiPolygon)) => true,
        (Some(Shape::MultiPolygon), Some(Shape::Polygon)) => true,
        (Some(Shape::MultiPolygon), Some(Shape::MultiPolygon)) => true,
        _ => false,
    }
}

/// Casting to a given geometry type.
pub trait Cast {
    /// What a cast returns.
    type Output;

    /// The value is in a state in which it can be cast.
    spec fn castable(&self) -> bool;

    /// Casts to `to_type`.
    fn cast(&self, to_type: &GeoDataType) -> Self::Output
        requires
            self.castable(),
    ;
}

impl Cast for GeometryArray {
    type Output = Result<GeometryArray, GeoArrowError>;

    open spec fn castable(&self) -> bool {
        self.wf()
    }

    fn cast(&self, to_type: &GeoDataType) -> (r: Result<GeometryArray, GeoArrowError>)
        ensures
            array_cast(self, *to_type, r),
    {
        match self {
            GeometryArray::Point(a) => cast_point_array(a, to_type),
            GeometryArray::LineString(a) => cast_line_string_array(a, to_type),
            GeometryArray::Polygon(a) => cast_polygon_array(a, to_type),
            GeometryArray::MultiPoint(a) => cast_multi_point_array(a, to_type),
            GeometryArray::MultiLineString(a) => cast_multi_line_string_array(a, to_type),
            GeometryArray::MultiPolygon(a) => cast_multi_polygon_array(a, to_type),
            GeometryArray::Mixed(a) => cast_mixed_array(a, to_type),
            GeometryArray::GeometryCollection(a) => cast_geometry_collection_array(a, to_type),
        }
    }
}

/// A logical array held as a sequence of chunks, each an array built on its own.
pub struct ChunkedGeometryArray {
    /// The chunks, in order.
    pub chunks: Vec<GeometryArray>,
}

impl ChunkedGeometryArray {
    /// Every chunk is well formed.
    pub open spec fn wf(&self) -> bool {
        forall|i: int| 0 <= i < self.chunks@.len() ==> (#[trigger] self.chunks@[i]).wf()
    }

    /// The chunks as one logical array.
    pub fn new(chunks: Vec<GeometryArray>) -> (a: ChunkedGeometryArray)
        ensures
            a.chunks == chunks,
    {
        ChunkedGeometryArray { chunks }
    }

    /// The number of elements, all chunks together; `None` where the machine
    /// cannot count that many.
    pub fn len(&self) -> (n: Option<usize>)
        requires
            self.wf(),
        ensures
            n matches Some(k) ==> k == chunked_len(self.chunks@),
            n is None ==> chunked_len(self.chunks@) > usize::MAX,
    {
        let mut total: usize = 0;
        let mut i: usize = 0;
        assert(self.chunks@.take(0) =~= Seq::<GeometryArray>::empty());
        while i < self.chunks.len()
            invariant
                self.wf(),
                i <= self.chunks@.len(),
                total == chunked_len(self.chunks@.take(i as int)),
            decreases self.chunks@.len() - i,
        {
            proof {
                assert(self.chunks@.take(i + 1).drop_last() =~= self.chunks@.take(i as int));
                lemma_chunked_len_prefix(self.chunks@, i + 1);
            }
            match total.checked_add(self.chunks[i].len()) {
                Some(sum) => {
                    total = sum;
                },
                None => {
                    return None;
                },
            }
            i += 1;
        }
        assert(self.chunks@.take(i as int) =~= self.chunks@);
        Some(total)
    }
}

/// The number of elements of a sequence of chunks.
pub open spec fn chunked_len(chunks: Seq<GeometryArray>) -> nat
    decreases chunks.len(),
{
    if chunks.len() == 0 {
        0
    } else {
        chunked_len(chunks.drop_last()) + chunks.last().spec_len()
    }
}

/// A prefix of the chunks holds no more elements than all of them.
pub proof fn lemma_chunked_len_prefix(chunks: Seq<GeometryArray>, k: int)
    requires
        0 <= k <= chunks.len(),
    ensures
        chunked_len(chunks.take(k)) <= chunked_len(chunks),
    decreases chunks.len(),
{
    if k < chunks.len() {
        lemma_chunked_len_prefix(chunks.drop_last(), k);
        assert(chunks.drop_last().take(k) =~= chunks.take(k));
    } else {
        assert(chunks.take(k) =~= chunks);
    }
}

/// What casting the chunks one by one to `to_type` returns: the cast chunks in
/// order, or the failure of the first chunk that cannot be cast. No chunk's
/// cast depends on another chunk.
pub open spec fn chunked_cast(
    chunks: Seq<GeometryArray>,
    to_type: GeoDataType,
    r: Result<ChunkedGeometryArray, GeoArrowError>,
) -> bool {
    match r {
        Ok(cast) => {
            &&& cast.chunks@.len() == chunks.len()
            &&& forall|i: int|
                0 <= i < chunks.len() ==> array_cast(
                    &#[trigger] chunks[i],
                    to_type,
                    Ok(cast.chunks@[i]),
                )
        },
        Err(e) => exists|k: int|
            {
                &&& 0 <= k < chunks.len()
                &&& array_cast(&#[trigger] chunks[k], to_type, Err(e))
                &&& forall|i: int|
                    0 <= i < k ==> !array_cast(
                        &#[trigger] chunks[i],
                        to_type,
                        Err::<GeometryArray, GeoArrowError>(GeoArrowError::ShapeMismatch),
                    ) && !array_cast(
                        &chunks[i],
                        to_type,
                        Err::<GeometryArray, GeoArrowError>(GeoArrowError::IndexOverflow),
                    )
            },
    }
}

impl Cast for ChunkedGeometryArray {
    type Output = Result<ChunkedGeometryArray, GeoArrowError>;

    open spec fn castable(&self) -> bool {
        self.wf()
    }

    fn cast(&self, to_type: &GeoDataType) -> (r: Result<ChunkedGeometryArray, GeoArrowError>)
        ensures
            chunked_cast(self.chunks@, *to_type, r),
    {
        let mut out: Vec<GeometryArray> = Vec::with_capacity(self.chunks.len());
        let mut i: usize = 0;
        while i < self.chunks.len()
            invariant
                self.wf(),
                i <= self.chunks@.len(),
                out@.len() == i,
                forall|j: int|
                    0 <= j < i ==> array_cast(&#[trigger] self.chunks@[j], *to_type, Ok(out@[j])),
            decreases self.chunks@.len() - i,
        {
            match self.chunks[i].cast(to_type) {
                Ok(chunk) => {
                    out.push(chunk);
                },
                Err(e) => {
                    proof {
                        assert(array_cast(&self.chunks@[i as int], *to_type, Err(e)));
                        assert forall|j: int| 0 <= j < i implies !array_cast(
                            &#[trigger] self.chunks@[j],
                            *to_type,
                            Err::<GeometryArray, GeoArrowError>(GeoArrowError::ShapeMismatch),
                        ) && !array_cast(
                            &self.chunks@[j],
                            *to_type,
                            Err::<GeometryArray, GeoArrowError>(GeoArrowError::IndexOverflow),
                        ) by {
                            let mismatch = Err::<GeometryArray, GeoArrowError>(
                                GeoArrowError::ShapeMismatch,
                            );
                            let overflow = Err::<GeometryArray, GeoArrowError>(
                                GeoArrowError::IndexOverflow,
                            );
                            if array_cast(&self.chunks@[j], *to_type, mismatch) {
                                lemma_cast_is_a_function(
                                    &self.chunks@[j],
                                    *to_type,
                                    Ok(out@[j]),
                                    mismatch,
                                );
                            }
                            if array_cast(&self.chunks@[j], *to_type, overflow) {
                                lemma_cast_is_a_function(
                                    &self.chunks@[j],
                                    *to_type,
                                    Ok(out@[j]),
                                    overflow,
                                );
                            }
                        }
                    }
                    return Err(e);
                },
            }
            i += 1;
        }
        Ok(ChunkedGeometryArray { chunks: out })
    }
}

/// A cast of given elements to a given type either succeeds or fails, and always
/// in the same way: two results of the same cast are both successes or the same
/// failure.
pub proof fn lemma_cast_is_a_function(
    array: &GeometryArray,
    to_type: GeoDataType,
    r1: Result<GeometryArray, GeoArrowError>,
    r2: Result<GeometryArray, GeoArrowError>,
)
    requires
        array_cast(array, to_type, r1),
        array_cast(array, to_type, r2),
    ensures
        r1 is Ok <==> r2 is Ok,
        r1 is Err ==> r1 == r2,
{
}

/// Casting points up to multi points and back down returns the points: where
/// every point is present, so that every multi point holds exactly one point, the
/// downward cast succeeds and its array is equal to the points it started from,
/// element by element.
pub proof fn lemma_point_round_trip(
    points: &PointArray,
    up: GeoDataType,
    multi_points: MultiPointArray,
    down: GeoDataType,
    r: Result<GeometryArray, GeoArrowError>,
)
    requires
        up.spec_shape() == Some(Shape::MultiPoint),
        down.spec_shape() == Some(Shape::Point),
        points.values().len() == points.validity_bits().len(),
        forall|i: int| 0 <= i < points.values().len() ==> points.validity_bits()[i],
        point_cast(points, up, Ok(GeometryArray::MultiPoint(multi_points))),
        multi_point_cast(&multi_points, down, r),
    ensures
        r matches Ok(GeometryArray::Point(back)) && back.values() == points.values()
            && back.validity_bits() == points.validity_bits() && back@ == points@,
{
    let bits = points.validity_bits();
    let up_values = singletons(points.values(), bits);
    if total_len(up_values) <= up.spec_width().limit() {
        assert(multi_points.values() == up_values);
        assert(all_single(multi_points.values()));
        let back_values = firsts(multi_points.values(), multi_points.validity_bits(), absent_point());
        assert(back_values =~= points.values());
    }
}

/// A downward cast does not drop or pick parts: where some multi point holds no
/// point or more than one, casting the array to points fails with
/// [`GeoArrowError::ShapeMismatch`].
pub proof fn lemma_downward_cast_rejects(
    multi_points: &MultiPointArray,
    down: GeoDataType,
    r: Result<GeometryArray, GeoArrowError>,
    i: int,
)
    requires
        down.spec_shape() == Some(Shape::Point),
        0 <= i < multi_points.values().len(),
        multi_points.values()[i].len() != 1,
        multi_point_cast(multi_points, down, r),
    ensures
        r == Err::<GeometryArray, GeoArrowError>(GeoArrowError::ShapeMismatch),
{
}

/// The children that hold line strings only: the child of line strings holds
/// them all, in order, every other child is empty, and every line string
/// stands at its own position.
pub proof fn lemma_children_of_line_strings(lines: Seq<Seq<Coord>>, k: int)
    requires
        0 <= k <= lines.len(),
    ensures
        children_of(Seq::new(lines.len(), |i: int| GeometryModel::LineString(lines[i])).take(k))
            == (MixedChildren { line_strings: lines.take(k), ..MixedChildren::empty() }),
        k < lines.len() ==> position(
            Seq::new(lines.len(), |i: int| GeometryModel::LineString(lines[i])),
            k,
        ) == k,
    decreases k,
{
    let elements = Seq::new(lines.len(), |i: int| GeometryModel::LineString(lines[i]));
    if k == 0 {
        assert(lines.take(0) =~= Seq::<Seq<Coord>>::empty());
        assert(elements.take(0) =~= Seq::<GeometryModel>::empty());
    } else {
        lemma_children_of_line_strings(lines, k - 1);
        assert(elements.take(k).drop_last() =~= elements.take(k - 1));
        assert(lines.take(k) =~= lines.take(k - 1).push(lines[k - 1]));
    }
}

/// Wrapping points into multi points adds one level of runs of one point each:
/// where every point is present, the offsets of the multi points are `0`, `1`,
/// up to the number of points, and their coordinate buffer holds as many
/// coordinates as there are points.
pub proof fn lemma_wrapped_points(
    points: &PointArray,
    up: GeoDataType,
    multi_points: MultiPointArray,
    k: int,
)
    requires
        up.spec_shape() == Some(Shape::MultiPoint),
        points.values().len() == points.validity_bits().len(),
        forall|i: int| 0 <= i < points.values().len() ==> points.validity_bits()[i],
        point_cast(points, up, Ok(GeometryArray::MultiPoint(multi_points))),
        0 <= k <= points.values().len(),
    ensures
        multi_points.spec_geom_offsets().len() == points.values().len() + 1,
        multi_points.spec_geom_offsets()[k] == k,
        multi_points.spec_coords().len() == points.values().len(),
        !multi_points.has_bitmap(),
{
    let target = singletons(points.values(), points.validity_bits());
    lemma_all_singles_total(target, k);
    lemma_all_singles_total(target, target.len() as int);
    assert(target.take(target.len() as int) =~= target);
    if total_len(target) <= up.spec_width().limit() {
        multi_points.lemma_compact(k);
    }
}

/// Elements of one part each hold as many parts as there are elements.
pub proof fn lemma_all_singles_total<T>(values: Seq<Seq<T>>, k: int)
    requires
        all_single(values),
        0 <= k <= values.len(),
    ensures
        total_len(values.take(k)) == k,
    decreases k,
{
    if k > 0 {
        lemma_all_singles_total(values, k - 1);
        lemma_total_len_step(values, k - 1);
    } else {
        lemma_total_len_empty::<T>();
        assert(values.take(0) =~= Seq::<Seq<T>>::empty());
    }
}

/// Casting line strings to mixed shape and back returns the line strings: where
/// their coordinates fit the offsets asked for, the cast back succeeds and its
/// array is equal to the line strings it started from, element by element, absent
/// elements included. No coordinate is added or lost on the way: the child of
/// line strings of the array of mixed shape and the array cast back both hold
/// exactly the coordinates of the present line strings, every other child is
/// empty, and every element stands at its own position in its child.
pub proof fn lemma_line_string_round_trip(
    line_strings: &LineStringArray,
    up: GeoDataType,
    mixed: MixedGeometryArray,
    down: GeoDataType,
    r: Result<GeometryArray, GeoArrowError>,
)
    requires
        up.spec_shape() == Some(Shape::Mixed),
        down.spec_shape() == Some(Shape::LineString),
        line_strings.values().len() == line_strings.validity_bits().len(),
        total_len(present(line_strings.values(), line_strings.validity_bits()))
            <= down.spec_width().limit(),
        line_string_cast(line_strings, up, Ok(GeometryArray::Mixed(mixed))),
        mixed_cast(&mixed, down, r),
    ensures
        r matches Ok(GeometryArray::LineString(back)) && back.values() == present(
            line_strings.values(),
            line_strings.validity_bits(),
        ) && back.validity_bits() == line_strings.validity_bits() && back@ == line_strings@
            && back.spec_coords().len() == total_len(
            present(line_strings.values(), line_strings.validity_bits()),
        ) && back.compact(),
        mixed.children() == (MixedChildren {
            line_strings: present(line_strings.values(), line_strings.validity_bits()),
            ..MixedChildren::empty()
        }),
        mixed.spec_line_strings().spec_coords().len() == total_len(
            present(line_strings.values(), line_strings.validity_bits()),
        ),
        forall|i: int|
            0 <= i < line_strings.values().len() ==> #[trigger] mixed.spec_offsets()[i] == i,
{
    let bits = line_strings.validity_bits();
    let kept = present(line_strings.values(), bits);
    let elements = line_string_elements(line_strings.values(), bits);
    assert(elements =~= Seq::new(kept.len(), |i: int| GeometryModel::LineString(kept[i])));
    lemma_children_of_line_strings(kept, kept.len() as int);
    assert(kept.take(kept.len() as int) =~= kept);
    assert(elements.take(kept.len() as int) =~= elements);
    assert forall|i: int| 0 <= i < kept.len() implies position(elements, i) == i by {
        lemma_children_of_line_strings(kept, i);
    }
    if all_fit(elements, up.spec_width()) {
        assert(mixed.values() == elements);
        mixed.lemma_children_wf();
        mixed.spec_line_strings().lemma_compact(0);
        assert(all_readable_as(mixed.values(), mixed.validity_bits(), Shape::LineString));
        let back_values = line_strings_of(mixed.values(), mixed.validity_bits());
        assert(back_values =~= kept);
        if let Ok(GeometryArray::LineString(back)) = r {
            assert(back@ =~= line_strings@);
            back.lemma_compact(0);
        }
    }
}

/// A cast whose target shape the source cannot be read as fails with
/// [`GeoArrowError::ShapeMismatch`], whatever the elements.
pub proof fn lemma_cast_needs_compatible_shapes(
    array: &GeometryArray,
    to_type: GeoDataType,
    r: Result<GeometryArray, GeoArrowError>,
)
    requires
        array_cast(array, to_type, r),
        match to_type.spec_shape() {
            Some(to) => !spec_can_cast(array.spec_shape(), to),
            None => true,
        },
    ensures
        r == Err::<GeometryArray, GeoArrowError>(GeoArrowError::ShapeMismatch),
{
}

/// An upward cast of elements that fit always succeeds: casting points to multi
/// points whose count fits the offsets asked for returns an array.
pub proof fn lemma_upward_cast_succeeds(
    points: &PointArray,
    up: GeoDataType,
    r: Result<GeometryArray, GeoArrowError>,
)
    requires
        up.spec_shape() == Some(Shape::MultiPoint),
        points.values().len() == points.validity_bits().len(),
        points.values().len() <= up.spec_width().limit(),
        point_cast(points, up, r),
    ensures
        r is Ok,
{
    let target = singletons(points.values(), points.validity_bits());
    lemma_singletons_total(points.values(), points.validity_bits(), target.len() as int);
    assert(target.take(target.len() as int) =~= target);
}

/// Wrapped elements count at most one part each.
pub proof fn lemma_singletons_total<T>(values: Seq<T>, valid: Seq<bool>, k: int)
    requires
        0 <= k <= values.len(),
    ensures
        total_len(singletons(values, valid).take(k)) <= k,
    decreases k,
{
    if k > 0 {
        lemma_singletons_total(values, valid, k - 1);
        lemma_total_len_step(singletons(values, valid), k - 1);
    } else {
        lemma_total_len_empty::<T>();
        assert(singletons(values, valid).take(0) =~= Seq::<Seq<T>>::empty());
    }
}

impl GeometryArray {
    /// Which elements are present.
    pub open spec fn spec_validity(&self) -> Seq<bool> {
        match self {
            GeometryArray::Point(a) => a.validity_bits(),
            GeometryArray::LineString(a) => a.validity_bits(),
            GeometryArray::Polygon(a) => a.validity_bits(),
            GeometryArray::MultiPoint(a) => a.validity_bits(),
            GeometryArray::MultiLineString(a) => a.validity_bits(),
            GeometryArray::MultiPolygon(a) => a.validity_bits(),
            GeometryArray::Mixed(a) => a.validity_bits(),
            GeometryArray::GeometryCollection(a) => a.validity_bits(),
        }
    }

    /// The metadata of the array.
    pub open spec fn spec_metadata(&self) -> ArrayMetadata {
        match self {
            GeometryArray::Point(a) => a.spec_metadata(),
            GeometryArray::LineString(a) => a.spec_metadata(),
            GeometryArray::Polygon(a) => a.spec_metadata(),
            GeometryArray::MultiPoint(a) => a.spec_metadata(),
            GeometryArray::MultiLineString(a) => a.spec_metadata(),
            GeometryArray::MultiPolygon(a) => a.spec_metadata(),
            GeometryArray::Mixed(a) => a.spec_metadata(),
            GeometryArray::GeometryCollection(a) => a.spec_metadata(),
        }
    }

    /// The layout of the coordinates.
    pub open spec fn spec_coord_type(&self) -> CoordType {
        match self {
            GeometryArray::Point(a) => a.spec_coord_type(),
            GeometryArray::LineString(a) => a.spec_coord_type(),
            GeometryArray::Polygon(a) => a.spec_coord_type(),
            GeometryArray::MultiPoint(a) => a.spec_coord_type(),
            GeometryArray::MultiLineString(a) => a.spec_coord_type(),
            GeometryArray::MultiPolygon(a) => a.spec_coord_type(),
            GeometryArray::Mixed(a) => a.spec_coord_type(),
            GeometryArray::GeometryCollection(a) => a.spec_coord_type(),
        }
    }

    /// The width of the offsets. Points have no offsets and count as `Small`.
    pub open spec fn spec_width(&self) -> OffsetWidth {
        match self {
            GeometryArray::Point(_) => OffsetWidth::Small,
            GeometryArray::LineString(a) => a.spec_width(),
            GeometryArray::Polygon(a) => a.spec_width(),
            GeometryArray::MultiPoint(a) => a.spec_width(),
            GeometryArray::MultiLineString(a) => a.spec_width(),
            GeometryArray::MultiPolygon(a) => a.spec_width(),
            GeometryArray::Mixed(a) => a.spec_width(),
            GeometryArray::GeometryCollection(a) => a.spec_width(),
        }
    }

    /// How many ordinates the coordinates have: two.
    pub fn dimension(&self) -> (d: Dimension)
        ensures
            d == Dimension::XY,
    {
        Dimension::XY
    }

    /// The geometry stored for element `i` of an array whose elements are
    /// geometries of the six simple shapes.
    pub open spec fn spec_geometry(&self, i: int) -> GeometryModel {
        match self {
            GeometryArray::Point(a) => GeometryModel::Point(a.values()[i]),
            GeometryArray::LineString(a) => GeometryModel::LineString(a.values()[i]),
            GeometryArray::Polygon(a) => GeometryModel::Polygon(a.values()[i]),
            GeometryArray::MultiPoint(a) => GeometryModel::MultiPoint(a.values()[i]),
            GeometryArray::MultiLineString(a) => GeometryModel::MultiLineString(a.values()[i]),
            GeometryArray::MultiPolygon(a) => GeometryModel::MultiPolygon(a.values()[i]),
            GeometryArray::Mixed(a) => a.values()[i],
            GeometryArray::GeometryCollection(_) => arbitrary(),
        }
    }

    /// Whether the elements are collections rather than geometries of the six
    /// simple shapes.
    pub fn holds_collections(&self) -> (b: bool)
        ensures
            b == (self is GeometryCollection),
    {
        match self {
            GeometryArray::GeometryCollection(_) => true,
            _ => false,
        }
    }

    /// Whether element `i` is present.
    pub fn is_valid(&self, i: usize) -> (b: bool)
        requires
            self.wf(),
            i < self.spec_len(),
        ensures
            b == self.spec_validity()[i as int],
    {
        match self {
            GeometryArray::Point(a) => a.is_valid(i),
            GeometryArray::LineString(a) => a.is_valid(i),
            GeometryArray::Polygon(a) => a.is_valid(i),
            GeometryArray::MultiPoint(a) => a.is_valid(i),
            GeometryArray::MultiLineString(a) => a.is_valid(i),
            GeometryArray::MultiPolygon(a) => a.is_valid(i),
            GeometryArray::Mixed(a) => a.is_valid(i),
            GeometryArray::GeometryCollection(a) => a.is_valid(i),
        }
    }

    /// The scalar at `i`, whether or not the element is present; `None` for an
    /// array of collections, whose elements are not geometries of the six simple
    /// shapes.
    pub fn geometry(&self, i: usize) -> (g: Option<Geometry<'_>>)
        requires
            self.wf(),
            i < self.spec_len(),
        ensures
            g is None <==> self is GeometryCollection,
            g matches Some(scalar) ==> scalar.wf() && scalar.model() == self.spec_geometry(
                i as int,
            ),
    {
        match self {
            GeometryArray::Point(a) => Some(Geometry::Point(a.value(i))),
            GeometryArray::LineString(a) => Some(Geometry::LineString(a.value(i))),
            GeometryArray::Polygon(a) => Some(Geometry::Polygon(a.value(i))),
            GeometryArray::MultiPoint(a) => Some(Geometry::MultiPoint(a.value(i))),
            GeometryArray::MultiLineString(a) => Some(Geometry::MultiLineString(a.value(i))),
            GeometryArray::MultiPolygon(a) => Some(Geometry::MultiPolygon(a.value(i))),
            GeometryArray::Mixed(a) => Some(a.value(i)),
            GeometryArray::GeometryCollection(_) => None,
        }
    }

    /// The metadata of the array.
    pub fn metadata(&self) -> (m: &ArrayMetadata)
        ensures
            *m == self.spec_metadata(),
    {
        match self {
            GeometryArray::Point(a) => a.metadata(),
            GeometryArray::LineString(a) => a.metadata(),
            GeometryArray::Polygon(a) => a.metadata(),
            GeometryArray::MultiPoint(a) => a.metadata(),
            GeometryArray::MultiLineString(a) => a.metadata(),
            GeometryArray::MultiPolygon(a) => a.metadata(),
            GeometryArray::Mixed(a) => a.metadata(),
            GeometryArray::GeometryCollection(a) => a.metadata(),
        }
    }
}

} // verus!
