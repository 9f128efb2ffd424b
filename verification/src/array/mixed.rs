//! Arrays of geometries of mixed shape and their builder.
//!
//! An array of mixed shape is a union of six child arrays, one per simple shape.
//! Every element has a type tag, which names the child that holds it, and a
//! position in that child. A builder appends each geometry to the child of its
//! shape, so finishing it assembles children that are already built.

use vstd::prelude::*;
use crate::array::linestring::{LineStringArray, LineStringBuilder, LineStringCapacity};
use crate::array::metadata::ArrayMetadata;
use crate::array::multilinestring::{
    MultiLineStringArray, MultiLineStringBuilder, MultiLineStringCapacity,
};
use crate::array::multipoint::{MultiPointArray, MultiPointBuilder, MultiPointCapacity};
use crate::array::multipolygon::{MultiPolygonArray, MultiPolygonBuilder, MultiPolygonCapacity};
use crate::array::point::{PointArray, PointBuilder};
use crate::array::polygon::{PolygonArray, PolygonBuilder, PolygonCapacity};
use crate::array::util::{
    lemma_total_len2_one, lemma_total_len_empty, lemma_total_len_one,
    multi_line_string_coord_count, multi_polygon_counts, polygon_coord_count, total_len,
    total_len2, total_len3,
};
use crate::buffer::{IndexBuffer, TypeIdBuffer, index_values, type_id_values};
use crate::coord::{Coord, CoordType};
use crate::datatypes::{GeoDataType, Shape};
use crate::error::GeoArrowError;
use crate::geo_traits::{
    LineStringTrait, MultiLineStringTrait, MultiPointTrait, MultiPolygonTrait, PointTrait,
    PolygonTrait, polygon_num_rings,
};
use crate::geometry::{GeometryCollectionTrait, GeometryModel, GeometryTrait, GeometryType};
use crate::offsets::OffsetWidth;
use crate::scalar::geometry::Geometry;
use crate::validity::masked;

verus! {

/// Whether builders store single geometries in the child of the multi shape
/// unless told otherwise.
pub const DEFAULT_PREFER_MULTI: bool = false;

/// The type tag of points.
pub const POINT_TYPE_ID: i8 = 1;

/// The type tag of line strings.
pub const LINE_STRING_TYPE_ID: i8 = 2;

/// The type tag of polygons.
pub const POLYGON_TYPE_ID: i8 = 3;

/// The type tag of multi points.
pub const MULTI_POINT_TYPE_ID: i8 = 4;

/// The type tag of multi line strings.
pub const MULTI_LINE_STRING_TYPE_ID: i8 = 5;

/// The type tag of multi polygons.
pub const MULTI_POLYGON_TYPE_ID: i8 = 6;

/// The shape that a type tag stands for.
pub open spec fn shape_of_type_id(type_id: i8) -> Shape {
    if type_id == 1 {
        Shape::Point
    } else if type_id == 2 {
        Shape::LineString
    } else if type_id == 3 {
        Shape::Polygon
    } else if type_id == 4 {
        Shape::MultiPoint
    } else if type_id == 5 {
        Shape::MultiLineString
    } else {
        Shape::MultiPolygon
    }
}

/// How much room the children of an array of mixed shape need.
#[derive(Clone, Copy, Debug, PartialEq, Eq, Structural)]
pub struct MixedCapacity {
    /// The number of points.
    pub point: usize,
    /// The room for line strings.
    pub line_string: LineStringCapacity,
    /// The room for polygons.
    pub polygon: PolygonCapacity,
    /// The room for multi points.
    pub multi_point: MultiPointCapacity,
    /// The room for multi line strings.
    pub multi_line_string: MultiLineStringCapacity,
    /// The room for multi polygons.
    pub multi_polygon: MultiPolygonCapacity,
}

impl MixedCapacity {
    /// No room at all.
    pub fn new_empty() -> (c: MixedCapacity)
        ensures
            c.point == 0,
            c.line_string == (LineStringCapacity { coord_capacity: 0, geom_capacity: 0 }),
            c.polygon == (PolygonCapacity { coord_capacity: 0, ring_capacity: 0, geom_capacity: 0 }),
            c.multi_point == (MultiPointCapacity { coord_capacity: 0, geom_capacity: 0 }),
            c.multi_line_string == (MultiLineStringCapacity {
                coord_capacity: 0,
                ring_capacity: 0,
                geom_capacity: 0,
            }),
            c.multi_polygon == (MultiPolygonCapacity {
                coord_capacity: 0,
                ring_capacity: 0,
                polygon_capacity: 0,
                geom_capacity: 0,
            }),
            c.spec_total_num_geoms() == 0,
    {
        MixedCapacity {
            point: 0,
            line_string: LineStringCapacity::new_empty(),
            polygon: PolygonCapacity::new_empty(),
            multi_point: MultiPointCapacity::new_empty(),
            multi_line_string: MultiLineStringCapacity::new_empty(),
            multi_polygon: MultiPolygonCapacity::new_empty(),
        }
    }

    /// The number of geometries, all children together.
    pub open spec fn spec_total_num_geoms(self) -> int {
        self.point + self.line_string.geom_capacity + self.polygon.geom_capacity
            + self.multi_point.geom_capacity + self.multi_line_string.geom_capacity
            + self.multi_polygon.geom_capacity
    }

    /// The number of geometries, all children together; `usize::MAX` where the
    /// sum is larger.
    pub fn total_num_geoms(&self) -> (n: usize)
        ensures
            self.spec_total_num_geoms() <= usize::MAX ==> n == self.spec_total_num_geoms(),
            self.spec_total_num_geoms() > usize::MAX ==> n == usize::MAX,
    {
        let mut total: usize = self.point;
        total = total.saturating_add(self.line_string.geom_capacity);
        total = total.saturating_add(self.polygon.geom_capacity);
        total = total.saturating_add(self.multi_point.geom_capacity);
        total = total.saturating_add(self.multi_line_string.geom_capacity);
        total = total.saturating_add(self.multi_polygon.geom_capacity);
        total
    }
}

/// An immutable array of geometries of mixed shape.
pub struct MixedGeometryArray {
    type_ids: TypeIdBuffer,
    offsets: IndexBuffer,
    points: PointArray,
    line_strings: LineStringArray,
    polygons: PolygonArray,
    multi_points: MultiPointArray,
    multi_line_strings: MultiLineStringArray,
    multi_polygons: MultiPolygonArray,
    metadata: ArrayMetadata,
}

impl View for MixedGeometryArray {
    type V = Seq<Option<GeometryModel>>;

    open spec fn view(&self) -> Seq<Option<GeometryModel>> {
        masked(self.values(), self.validity_bits())
    }
}

impl MixedGeometryArray {
    /// The number of elements of the child that type tag `type_id` names.
    pub closed spec fn child_len(&self, type_id: i8) -> nat {
        if type_id == 1 {
            self.points.values().len()
        } else if type_id == 2 {
            self.line_strings.values().len()
        } else if type_id == 3 {
            self.polygons.values().len()
        } else if type_id == 4 {
            self.multi_points.values().len()
        } else if type_id == 5 {
            self.multi_line_strings.values().len()
        } else {
            self.multi_polygons.values().len()
        }
    }

    /// The geometry at position `index` of the child that `type_id` names.
    pub closed spec fn child_value(&self, type_id: i8, index: int) -> GeometryModel {
        if type_id == 1 {
            GeometryModel::Point(self.points.values()[index])
        } else if type_id == 2 {
            GeometryModel::LineString(self.line_strings.values()[index])
        } else if type_id == 3 {
            GeometryModel::Polygon(self.polygons.values()[index])
        } else if type_id == 4 {
            GeometryModel::MultiPoint(self.multi_points.values()[index])
        } else if type_id == 5 {
            GeometryModel::MultiLineString(self.multi_line_strings.values()[index])
        } else {
            GeometryModel::MultiPolygon(self.multi_polygons.values()[index])
        }
    }

    /// Whether the element at position `index` of the child that `type_id` names
    /// is present.
    pub closed spec fn child_valid(&self, type_id: i8, index: int) -> bool {
        if type_id == 1 {
            self.points.validity_bits()[index]
        } else if type_id == 2 {
            self.line_strings.validity_bits()[index]
        } else if type_id == 3 {
            self.polygons.validity_bits()[index]
        } else if type_id == 4 {
            self.multi_points.validity_bits()[index]
        } else if type_id == 5 {
            self.multi_line_strings.validity_bits()[index]
        } else {
            self.multi_polygons.validity_bits()[index]
        }
    }

    /// The type tags, one per element.
    pub closed spec fn spec_type_ids(&self) -> Seq<i8> {
        type_id_values(self.type_ids)
    }

    /// The positions in the children, one per element.
    pub closed spec fn spec_offsets(&self) -> Seq<i32> {
        index_values(self.offsets)
    }

    /// The children are well formed and agree on offset width and coordinate
    /// layout; every element has a type tag from 1 to 6 and a position inside the
    /// child that the tag names.
    pub closed spec fn wf(&self) -> bool {
        &&& self.children_wf()
        &&& self.spec_type_ids().len() == self.spec_offsets().len()
        &&& forall|i: int|
            0 <= i < self.spec_type_ids().len() ==> 1 <= #[trigger] self.spec_type_ids()[i] <= 6
                && 0 <= self.spec_offsets()[i] < self.child_len(self.spec_type_ids()[i])
    }

    /// The children are well formed and agree on offset width and coordinate
    /// layout.
    pub closed spec fn children_wf(&self) -> bool {
        &&& self.points.wf()
        &&& self.line_strings.wf()
        &&& self.polygons.wf()
        &&& self.multi_points.wf()
        &&& self.multi_line_strings.wf()
        &&& self.multi_polygons.wf()
        &&& self.polygons.spec_width() == self.line_strings.spec_width()
        &&& self.multi_points.spec_width() == self.line_strings.spec_width()
        &&& self.multi_line_strings.spec_width() == self.line_strings.spec_width()
        &&& self.multi_polygons.spec_width() == self.line_strings.spec_width()
        &&& self.line_strings.spec_coord_type() == self.points.spec_coord_type()
        &&& self.polygons.spec_coord_type() == self.points.spec_coord_type()
        &&& self.multi_points.spec_coord_type() == self.points.spec_coord_type()
        &&& self.multi_line_strings.spec_coord_type() == self.points.spec_coord_type()
        &&& self.multi_polygons.spec_coord_type() == self.points.spec_coord_type()
    }

    /// The geometry stored for each element, absent elements included.
    pub closed spec fn values(&self) -> Seq<GeometryModel> {
        Seq::new(
            self.spec_type_ids().len(),
            |i: int| self.child_value(self.spec_type_ids()[i], self.spec_offsets()[i] as int),
        )
    }

    /// Which elements are present. An element is present when its child says so.
    pub closed spec fn validity_bits(&self) -> Seq<bool> {
        Seq::new(
            self.spec_type_ids().len(),
            |i: int| self.child_valid(self.spec_type_ids()[i], self.spec_offsets()[i] as int),
        )
    }

    /// The layout of the coordinates.
    pub closed spec fn spec_coord_type(&self) -> CoordType {
        self.points.spec_coord_type()
    }

    /// The width of the offsets of the children.
    pub closed spec fn spec_width(&self) -> OffsetWidth {
        self.line_strings.spec_width()
    }

    /// The metadata of the array.
    pub closed spec fn spec_metadata(&self) -> ArrayMetadata {
        self.metadata
    }

    /// What the children hold.
    pub open spec fn children(&self) -> MixedChildren {
        MixedChildren {
            points: self.spec_points().values(),
            line_strings: self.spec_line_strings().values(),
            polygons: self.spec_polygons().values(),
            multi_points: self.spec_multi_points().values(),
            multi_line_strings: self.spec_multi_line_strings().values(),
            multi_polygons: self.spec_multi_polygons().values(),
        }
    }

    /// The array holds its elements and nothing beside them: every child holds
    /// exactly the elements of its shape, in their order, and nothing beside
    /// them; and the position of every element is the number of elements of its
    /// shape before it.
    pub open spec fn compact(&self) -> bool {
        &&& self.spec_points().compact()
        &&& self.spec_line_strings().compact()
        &&& self.spec_polygons().compact()
        &&& self.spec_multi_points().compact()
        &&& self.spec_multi_line_strings().compact()
        &&& self.spec_multi_polygons().compact()
        &&& self.children() == children_of(self.values())
        &&& forall|i: int|
            0 <= i < self.values().len() ==> #[trigger] self.spec_offsets()[i] == position(
                self.values(),
                i,
            )
    }

    /// The children of a well-formed array are well formed.
    pub proof fn lemma_children_wf(&self)
        requires
            self.wf(),
        ensures
            self.spec_points().wf(),
            self.spec_line_strings().wf(),
            self.spec_polygons().wf(),
            self.spec_multi_points().wf(),
            self.spec_multi_line_strings().wf(),
            self.spec_multi_polygons().wf(),
    {
    }

    /// The child that holds the points.
    pub closed spec fn spec_points(&self) -> PointArray {
        self.points
    }

    /// The child that holds the line strings.
    pub closed spec fn spec_line_strings(&self) -> LineStringArray {
        self.line_strings
    }

    /// The child that holds the polygons.
    pub closed spec fn spec_polygons(&self) -> PolygonArray {
        self.polygons
    }

    /// The child that holds the multi points.
    pub closed spec fn spec_multi_points(&self) -> MultiPointArray {
        self.multi_points
    }

    /// The child that holds the multi line strings.
    pub closed spec fn spec_multi_line_strings(&self) -> MultiLineStringArray {
        self.multi_line_strings
    }

    /// The child that holds the multi polygons.
    pub closed spec fn spec_multi_polygons(&self) -> MultiPolygonArray {
        self.multi_polygons
    }

    /// An array holds as many validity bits and as many elements as values.
    pub proof fn len_facts(&self) -> (n: nat)
        ensures
            n == self.values().len(),
            n == self.validity_bits().len(),
            n == self@.len(),
    {
        self.values().len()
    }

    /// What the tags and positions mean, element by element: the value and the
    /// validity of an element are those of the child that its tag names, at its
    /// position.
    pub proof fn lemma_element(&self, i: int)
        requires
            self.wf(),
            0 <= i < self.values().len(),
        ensures
            self.values().len() == self.spec_type_ids().len(),
            self.validity_bits().len() == self.spec_type_ids().len(),
            1 <= self.spec_type_ids()[i] <= 6,
            self.values()[i].shape() == shape_of_type_id(self.spec_type_ids()[i]),
            self.spec_points().wf(),
            self.spec_line_strings().wf(),
            self.spec_polygons().wf(),
            self.spec_multi_points().wf(),
            self.spec_multi_line_strings().wf(),
            self.spec_multi_polygons().wf(),
            self.spec_type_ids()[i] == 1 ==> 0 <= self.spec_offsets()[i] < self.spec_points().values().len()
                && self.values()[i] == GeometryModel::Point(
                self.spec_points().values()[self.spec_offsets()[i] as int],
            ) && self.validity_bits()[i] == self.spec_points().validity_bits()[self.spec_offsets()[i] as int],
            self.spec_type_ids()[i] == 2 ==> 0 <= self.spec_offsets()[i] < self.spec_line_strings().values().len()
                && self.values()[i] == GeometryModel::LineString(
                self.spec_line_strings().values()[self.spec_offsets()[i] as int],
            ) && self.validity_bits()[i] == self.spec_line_strings().validity_bits()[self.spec_offsets()[i] as int],
            self.spec_type_ids()[i] == 3 ==> 0 <= self.spec_offsets()[i] < self.spec_polygons().values().len()
                && self.values()[i] == GeometryModel::Polygon(
                self.spec_polygons().values()[self.spec_offsets()[i] as int],
            ) && self.validity_bits()[i] == self.spec_polygons().validity_bits()[self.spec_offsets()[i] as int],
            self.spec_type_ids()[i] == 4 ==> 0 <= self.spec_offsets()[i] < self.spec_multi_points().values().len()
                && self.values()[i] == GeometryModel::MultiPoint(
                self.spec_multi_points().values()[self.spec_offsets()[i] as int],
            ) && self.validity_bits()[i] == self.spec_multi_points().validity_bits()[self.spec_offsets()[i] as int],
            self.spec_type_ids()[i] == 5 ==> 0 <= self.spec_offsets()[i] < self.spec_multi_line_strings().values().len()
                && self.values()[i] == GeometryModel::MultiLineString(
                self.spec_multi_line_strings().values()[self.spec_offsets()[i] as int],
            ) && self.validity_bits()[i] == self.spec_multi_line_strings().validity_bits()[self.spec_offsets()[i] as int],
            self.spec_type_ids()[i] == 6 ==> 0 <= self.spec_offsets()[i] < self.spec_multi_polygons().values().len()
                && self.values()[i] == GeometryModel::MultiPolygon(
                self.spec_multi_polygons().values()[self.spec_offsets()[i] as int],
            ) && self.validity_bits()[i] == self.spec_multi_polygons().validity_bits()[self.spec_offsets()[i] as int],
    {
    }

    /// The array that the parts make.
    pub closed spec fn of_parts(
        type_ids: TypeIdBuffer,
        offsets: IndexBuffer,
        points: PointArray,
        line_strings: LineStringArray,
        polygons: PolygonArray,
        multi_points: MultiPointArray,
        multi_line_strings: MultiLineStringArray,
        multi_polygons: MultiPolygonArray,
        metadata: ArrayMetadata,
    ) -> MixedGeometryArray {
        MixedGeometryArray {
            type_ids,
            offsets,
            points,
            line_strings,
            polygons,
            multi_points,
            multi_line_strings,
            multi_polygons,
            metadata,
        }
    }

    /// An array from its parts.
    pub(crate) fn new(
        type_ids: TypeIdBuffer,
        offsets: IndexBuffer,
        points: PointArray,
        line_strings: LineStringArray,
        polygons: PolygonArray,
        multi_points: MultiPointArray,
        multi_line_strings: MultiLineStringArray,
        multi_polygons: MultiPolygonArray,
        metadata: ArrayMetadata,
    ) -> (a: MixedGeometryArray)
        requires
            MixedGeometryArray::of_parts(
                type_ids,
                offsets,
                points,
                line_strings,
                polygons,
                multi_points,
                multi_line_strings,
                multi_polygons,
                metadata,
            ).wf(),
        ensures
            a.wf(),
            a == MixedGeometryArray::of_parts(
                type_ids,
                offsets,
                points,
                line_strings,
                polygons,
                multi_points,
                multi_line_strings,
                multi_polygons,
                metadata,
            ),
    {
        MixedGeometryArray {
            type_ids,
            offsets,
            points,
            line_strings,
            polygons,
            multi_points,
            multi_line_strings,
            multi_polygons,
            metadata,
        }
    }

    /// Whether the tags and positions name elements of the children: as many
    /// positions as tags, every tag from 1 to 6, every position inside the child
    /// that its tag names.
    pub open spec fn tags_fit(
        type_ids: Seq<i8>,
        offsets: Seq<i32>,
        points: nat,
        line_strings: nat,
        polygons: nat,
        multi_points: nat,
        multi_line_strings: nat,
        multi_polygons: nat,
    ) -> bool {
        &&& type_ids.len() == offsets.len()
        &&& forall|i: int|
            0 <= i < type_ids.len() ==> 1 <= #[trigger] type_ids[i] <= 6 && 0 <= offsets[i] < (
            if type_ids[i] == 1 {
                points
            } else if type_ids[i] == 2 {
                line_strings
            } else if type_ids[i] == 3 {
                polygons
            } else if type_ids[i] == 4 {
                multi_points
            } else if type_ids[i] == 5 {
                multi_line_strings
            } else {
                multi_polygons
            })
    }

    /// Whether the children agree on offset width and coordinate layout.
    pub open spec fn children_agree(
        points: &PointArray,
        line_strings: &LineStringArray,
        polygons: &PolygonArray,
        multi_points: &MultiPointArray,
        multi_line_strings: &MultiLineStringArray,
        multi_polygons: &MultiPolygonArray,
    ) -> bool {
        &&& polygons.spec_width() == line_strings.spec_width()
        &&& multi_points.spec_width() == line_strings.spec_width()
        &&& multi_line_strings.spec_width() == line_strings.spec_width()
        &&& multi_polygons.spec_width() == line_strings.spec_width()
        &&& line_strings.spec_coord_type() == points.spec_coord_type()
        &&& polygons.spec_coord_type() == points.spec_coord_type()
        &&& multi_points.spec_coord_type() == points.spec_coord_type()
        &&& multi_line_strings.spec_coord_type() == points.spec_coord_type()
        &&& multi_polygons.spec_coord_type() == points.spec_coord_type()
    }

    /// An array from type tags, positions and children, or
    /// [`GeoArrowError::ShapeMismatch`] where the tags and positions do not name
    /// elements of the children or the children disagree on offset width or
    /// coordinate layout.
    pub fn try_new(
        type_ids: Vec<i8>,
        offsets: Vec<i32>,
        points: PointArray,
        line_strings: LineStringArray,
        polygons: PolygonArray,
        multi_points: MultiPointArray,
        multi_line_strings: MultiLineStringArray,
        multi_polygons: MultiPolygonArray,
        metadata: ArrayMetadata,
    ) -> (r: Result<MixedGeometryArray, GeoArrowError>)
        requires
            points.wf(),
            line_strings.wf(),
            polygons.wf(),
            multi_points.wf(),
            multi_line_strings.wf(),
            multi_polygons.wf(),
        ensures
            ({
                let fit = MixedGeometryArray::tags_fit(
                    type_ids@,
                    offsets@,
                    points.values().len(),
                    line_strings.values().len(),
                    polygons.values().len(),
                    multi_points.values().len(),
                    multi_line_strings.values().len(),
                    multi_polygons.values().len(),
                ) && MixedGeometryArray::children_agree(
                    &points,
                    &line_strings,
                    &polygons,
                    &multi_points,
                    &multi_line_strings,
                    &multi_polygons,
                );
                &&& fit ==> r is Ok
                &&& !fit ==> r == Err::<MixedGeometryArray, GeoArrowError>(
                    GeoArrowError::ShapeMismatch,
                )
                &&& r matches Ok(a) ==> {
                    &&& a.wf()
                    &&& a.spec_type_ids() == type_ids@
                    &&& a.spec_offsets() == offsets@
                    &&& a.spec_points() == points
                    &&& a.spec_line_strings() == line_strings
                    &&& a.spec_polygons() == polygons
                    &&& a.spec_multi_points() == multi_points
                    &&& a.spec_multi_line_strings() == multi_line_strings
                    &&& a.spec_multi_polygons() == multi_polygons
                    &&& a.spec_metadata() == metadata
                }
            }),
    {
        let w = line_strings.width();
        let ct = points.coord_type();
        if !(polygons.width() == w && multi_points.width() == w && multi_line_strings.width() == w
            && multi_polygons.width() == w && line_strings.coord_type() == ct
            && polygons.coord_type() == ct && multi_points.coord_type() == ct
            && multi_line_strings.coord_type() == ct && multi_polygons.coord_type() == ct) {
            return Err(GeoArrowError::ShapeMismatch);
        }
        if type_ids.len() != offsets.len() {
            return Err(GeoArrowError::ShapeMismatch);
        }
        let n = type_ids.len();
        let lens = [
            points.len(),
            line_strings.len(),
            polygons.len(),
            multi_points.len(),
            multi_line_strings.len(),
            multi_polygons.len(),
        ];
        let mut i: usize = 0;
        while i < n
            invariant
                n == type_ids@.len(),
                n == offsets@.len(),
                i <= n,
                lens@.len() == 6,
                lens@[0] == points.values().len(),
                lens@[1] == line_strings.values().len(),
                lens@[2] == polygons.values().len(),
                lens@[3] == multi_points.values().len(),
                lens@[4] == multi_line_strings.values().len(),
                lens@[5] == multi_polygons.values().len(),
                MixedGeometryArray::tags_fit(
                    type_ids@.take(i as int),
                    offsets@.take(i as int),
                    points.values().len(),
                    line_strings.values().len(),
                    polygons.values().len(),
                    multi_points.values().len(),
                    multi_line_strings.values().len(),
                    multi_polygons.values().len(),
                ),
            decreases n - i,
        {
            let t = type_ids[i];
            let o = offsets[i];
            let fits = 1 <= t && t <= 6 && 0 <= o && (o as usize) < lens[(t - 1) as usize];
            if !fits {
                proof {
                    assert(!(1 <= type_ids@[i as int] <= 6 && 0 <= offsets@[i as int] < (
                    if type_ids@[i as int] == 1 {
                        points.values().len()
                    } else if type_ids@[i as int] == 2 {
                        line_strings.values().len()
                    } else if type_ids@[i as int] == 3 {
                        polygons.values().len()
                    } else if type_ids@[i as int] == 4 {
                        multi_points.values().len()
                    } else if type_ids@[i as int] == 5 {
                        multi_line_strings.values().len()
                    } else {
                        multi_polygons.values().len()
                    })));
                }
                return Err(GeoArrowError::ShapeMismatch);
            }
            proof {
                let ids = type_ids@.take(i + 1);
                let offs = offsets@.take(i + 1);
                assert forall|j: int| 0 <= j < ids.len() implies 1 <= #[trigger] ids[j] <= 6 && 0
                    <= offs[j] < (if ids[j] == 1 {
                    points.values().len()
                } else if ids[j] == 2 {
                    line_strings.values().len()
                } else if ids[j] == 3 {
                    polygons.values().len()
                } else if ids[j] == 4 {
                    multi_points.values().len()
                } else if ids[j] == 5 {
                    multi_line_strings.values().len()
                } else {
                    multi_polygons.values().len()
                }) by {
                    if j < i {
                        assert(type_ids@.take(i as int)[j] == ids[j]);
                        assert(offsets@.take(i as int)[j] == offs[j]);
                    }
                }
            }
            i += 1;
        }
        proof {
            assert(type_ids@.take(n as int) =~= type_ids@);
            assert(offsets@.take(n as int) =~= offsets@);
        }
        let a = MixedGeometryArray {
            type_ids: TypeIdBuffer::from_vec(type_ids),
            offsets: IndexBuffer::from_vec(offsets),
            points,
            line_strings,
            polygons,
            multi_points,
            multi_line_strings,
            multi_polygons,
            metadata,
        };
        proof {
            assert forall|j: int| 0 <= j < a.spec_type_ids().len() implies 1
                <= #[trigger] a.spec_type_ids()[j] <= 6 && 0 <= a.spec_offsets()[j] < a.child_len(
                a.spec_type_ids()[j],
            ) by {
                assert(1 <= type_ids@[j] <= 6);
            }
        }
        Ok(a)
    }

    /// The number of elements.
    pub fn len(&self) -> (n: usize)
        requires
            self.wf(),
        ensures
            n == self@.len(),
            n == self.values().len(),
            n == self.validity_bits().len(),
    {
        self.type_ids.len()
    }

    /// The type tag of element `i`.
    pub fn type_id(&self, i: usize) -> (t: i8)
        requires
            self.wf(),
            i < self.values().len(),
        ensures
            t == self.spec_type_ids()[i as int],
            1 <= t <= 6,
            self.values()[i as int].shape() == shape_of_type_id(t),
    {
        self.type_ids.get(i)
    }

    /// The position of element `i` in the child that holds it.
    pub fn child_index(&self, i: usize) -> (index: usize)
        requires
            self.wf(),
            i < self.values().len(),
        ensures
            index == self.spec_offsets()[i as int],
            index < self.child_len(self.spec_type_ids()[i as int]),
    {
        assert(1 <= self.spec_type_ids()[i as int] <= 6);
        self.offsets.get(i) as usize
    }

    /// Whether element `i` is present.
    pub fn is_valid(&self, i: usize) -> (b: bool)
        requires
            self.wf(),
            i < self@.len(),
        ensures
            b == self.validity_bits()[i as int],
            b == (self@[i as int] is Some),
    {
        let t = self.type_ids.get(i);
        assert(1 <= self.spec_type_ids()[i as int] <= 6);
        let index = self.offsets.get(i) as usize;
        if t == 1 {
            self.points.is_valid(index)
        } else if t == 2 {
            self.line_strings.is_valid(index)
        } else if t == 3 {
            self.polygons.is_valid(index)
        } else if t == 4 {
            self.multi_points.is_valid(index)
        } else if t == 5 {
            self.multi_line_strings.is_valid(index)
        } else {
            self.multi_polygons.is_valid(index)
        }
    }

    /// Whether element `i` is absent.
    pub fn is_null(&self, i: usize) -> (b: bool)
        requires
            self.wf(),
            i < self@.len(),
        ensures
            b == !self.validity_bits()[i as int],
            b == (self@[i as int] is None),
    {
        !self.is_valid(i)
    }

    /// The scalar at `i`, whether or not the element is present.
    pub fn value(&self, i: usize) -> (g: Geometry<'_>)
        requires
            self.wf(),
            i < self@.len(),
        ensures
            g.wf(),
            g.model() == self.values()[i as int],
    {
        let t = self.type_ids.get(i);
        assert(1 <= self.spec_type_ids()[i as int] <= 6);
        let index = self.offsets.get(i) as usize;
        if t == 1 {
            Geometry::Point(self.points.value(index))
        } else if t == 2 {
            Geometry::LineString(self.line_strings.value(index))
        } else if t == 3 {
            Geometry::Polygon(self.polygons.value(index))
        } else if t == 4 {
            Geometry::MultiPoint(self.multi_points.value(index))
        } else if t == 5 {
            Geometry::MultiLineString(self.multi_line_strings.value(index))
        } else {
            Geometry::MultiPolygon(self.multi_polygons.value(index))
        }
    }

    /// The scalar at `i`, or `None` where the element is absent.
    pub fn get(&self, i: usize) -> (g: Option<Geometry<'_>>)
        requires
            self.wf(),
            i < self@.len(),
        ensures
            g is Some == (self@[i as int] is Some),
            g matches Some(scalar) ==> scalar.wf() && Some(scalar.model()) == self@[i as int],
    {
        if self.is_valid(i) {
            Some(self.value(i))
        } else {
            None
        }
    }

    /// The `length` elements that start at `offset`, sharing the buffers of this
    /// array. The children are shared whole.
    pub fn slice(&self, offset: usize, length: usize) -> (a: MixedGeometryArray)
        requires
            self.wf(),
            offset + length <= self@.len(),
        ensures
            a.wf(),
            a.values() == self.values().subrange(offset as int, offset + length),
            a.validity_bits() == self.validity_bits().subrange(offset as int, offset + length),
            a@ == self@.subrange(offset as int, offset + length),
            a.children() == self.children(),
            a.spec_type_ids() == self.spec_type_ids().subrange(offset as int, offset + length),
            a.spec_offsets() == self.spec_offsets().subrange(offset as int, offset + length),
            offset == 0 && length == self@.len() ==> a@ == self@ && a.values() == self.values(),
            a.spec_coord_type() == self.spec_coord_type(),
            a.spec_width() == self.spec_width(),
            a.spec_metadata() == self.spec_metadata(),
    {
        let a = MixedGeometryArray {
            type_ids: self.type_ids.slice(offset, length),
            offsets: self.offsets.slice(offset, length),
            points: self.points.slice(0, self.points.len()),
            line_strings: self.line_strings.slice(0, self.line_strings.len()),
            polygons: self.polygons.slice(0, self.polygons.len()),
            multi_points: self.multi_points.slice(0, self.multi_points.len()),
            multi_line_strings: self.multi_line_strings.slice(0, self.multi_line_strings.len()),
            multi_polygons: self.multi_polygons.slice(0, self.multi_polygons.len()),
            metadata: self.metadata.duplicate(),
        };
        proof {
            assert(a.points.values() =~= self.points.values());
            assert(a.line_strings.values() =~= self.line_strings.values());
            assert(a.polygons.values() =~= self.polygons.values());
            assert(a.multi_points.values() =~= self.multi_points.values());
            assert(a.multi_line_strings.values() =~= self.multi_line_strings.values());
            assert(a.multi_polygons.values() =~= self.multi_polygons.values());
            assert(a.points.validity_bits() =~= self.points.validity_bits());
            assert(a.line_strings.validity_bits() =~= self.line_strings.validity_bits());
            assert(a.polygons.validity_bits() =~= self.polygons.validity_bits());
            assert(a.multi_points.validity_bits() =~= self.multi_points.validity_bits());
            assert(a.multi_line_strings.validity_bits() =~= self.multi_line_strings.validity_bits());
            assert(a.multi_polygons.validity_bits() =~= self.multi_polygons.validity_bits());
            assert forall|i: int| 0 <= i < a.spec_type_ids().len() implies 1
                <= #[trigger] a.spec_type_ids()[i] <= 6 && 0 <= a.spec_offsets()[i] < a.child_len(
                a.spec_type_ids()[i],
            ) by {
                assert(a.spec_type_ids()[i] == self.spec_type_ids()[offset + i]);
                assert(a.spec_offsets()[i] == self.spec_offsets()[offset + i]);
            }
            assert(a.values() =~= self.values().subrange(offset as int, offset + length));
            assert(a.validity_bits() =~= self.validity_bits().subrange(
                offset as int,
                offset + length,
            ));
            assert(a@ =~= self@.subrange(offset as int, offset + length));
            assert(offset == 0 && length == self@.len() ==> a@ =~= self@ && a.values()
                =~= self.values());
        }
        a
    }

    /// `c` is the room that a builder needs to take the children over: for each
    /// child, one run per element and the items up to the last offset of each
    /// level.
    pub open spec fn room(&self, c: MixedCapacity) -> bool {
        &&& c.point == self.spec_points().values().len()
        &&& c.line_string.geom_capacity == self.spec_line_strings().values().len()
        &&& c.line_string.coord_capacity == self.spec_line_strings().spec_geom_offsets().last()
        &&& c.polygon.geom_capacity == self.spec_polygons().values().len()
        &&& c.polygon.ring_capacity == self.spec_polygons().spec_geom_offsets().last()
        &&& c.polygon.coord_capacity == self.spec_polygons().spec_ring_offsets().last()
        &&& c.multi_point.geom_capacity == self.spec_multi_points().values().len()
        &&& c.multi_point.coord_capacity == self.spec_multi_points().spec_geom_offsets().last()
        &&& c.multi_line_string.geom_capacity == self.spec_multi_line_strings().values().len()
        &&& c.multi_line_string.ring_capacity == self.spec_multi_line_strings().spec_geom_offsets().last()
        &&& c.multi_line_string.coord_capacity == self.spec_multi_line_strings().spec_ring_offsets().last()
        &&& c.multi_polygon.geom_capacity == self.spec_multi_polygons().values().len()
        &&& c.multi_polygon.polygon_capacity == self.spec_multi_polygons().spec_geom_offsets().last()
        &&& c.multi_polygon.ring_capacity == self.spec_multi_polygons().spec_polygon_offsets().last()
        &&& c.multi_polygon.coord_capacity == self.spec_multi_polygons().spec_ring_offsets().last()
    }

    /// How much room a builder needs to take the children over.
    pub fn buffer_lengths(&self) -> (c: MixedCapacity)
        requires
            self.wf(),
        ensures
            self.room(c),
    {
        MixedCapacity {
            point: self.points.buffer_lengths(),
            line_string: self.line_strings.buffer_lengths(),
            polygon: self.polygons.buffer_lengths(),
            multi_point: self.multi_points.buffer_lengths(),
            multi_line_string: self.multi_line_strings.buffer_lengths(),
            multi_polygon: self.multi_polygons.buffer_lengths(),
        }
    }

    /// The layout of the coordinates.
    pub fn coord_type(&self) -> (t: CoordType)
        ensures
            t == self.spec_coord_type(),
    {
        self.points.coord_type()
    }

    /// The width of the offsets of the children.
    pub fn width(&self) -> (w: OffsetWidth)
        ensures
            w == self.spec_width(),
    {
        self.line_strings.width()
    }

    /// The logical type of the array.
    pub fn data_type(&self) -> (t: GeoDataType)
        ensures
            t.spec_shape() == Some(Shape::Mixed),
            t.spec_width() == self.spec_width(),
            t.spec_coord_type() == Some(self.spec_coord_type()),
    {
        GeoDataType::of(Shape::Mixed, self.line_strings.width(), self.points.coord_type())
    }

    /// The metadata of the array.
    pub fn metadata(&self) -> (m: &ArrayMetadata)
        ensures
            *m == self.spec_metadata(),
    {
        &self.metadata
    }

    /// The child that holds the points.
    pub fn points(&self) -> (child: &PointArray)
        requires
            self.wf(),
        ensures
            child.wf(),
            *child == self.spec_points(),
    {
        &self.points
    }

    /// The child that holds the line strings.
    pub fn line_strings(&self) -> (child: &LineStringArray)
        requires
            self.wf(),
        ensures
            child.wf(),
            *child == self.spec_line_strings(),
    {
        &self.line_strings
    }

    /// The child that holds the polygons.
    pub fn polygons(&self) -> (child: &PolygonArray)
        requires
            self.wf(),
        ensures
            child.wf(),
            *child == self.spec_polygons(),
    {
        &self.polygons
    }

    /// The child that holds the multi points.
    pub fn multi_points(&self) -> (child: &MultiPointArray)
        requires
            self.wf(),
        ensures
            child.wf(),
            *child == self.spec_multi_points(),
    {
        &self.multi_points
    }

    /// The child that holds the multi line strings.
    pub fn multi_line_strings(&self) -> (child: &MultiLineStringArray)
        requires
            self.wf(),
        ensures
            child.wf(),
            *child == self.spec_multi_line_strings(),
    {
        &self.multi_line_strings
    }

    /// The child that holds the multi polygons.
    pub fn multi_polygons(&self) -> (child: &MultiPolygonArray)
        requires
            self.wf(),
        ensures
            child.wf(),
            *child == self.spec_multi_polygons(),
    {
        &self.multi_polygons
    }
}

/// What the children of a builder of mixed shape hold: the values pushed to
/// each, in order.
pub struct MixedChildren {
    /// The points.
    pub points: Seq<Coord>,
    /// The line strings.
    pub line_strings: Seq<Seq<Coord>>,
    /// The polygons.
    pub polygons: Seq<Seq<Seq<Coord>>>,
    /// The multi points.
    pub multi_points: Seq<Seq<Coord>>,
    /// The multi line strings.
    pub multi_line_strings: Seq<Seq<Seq<Coord>>>,
    /// The multi polygons.
    pub multi_polygons: Seq<Seq<Seq<Seq<Coord>>>>,
}

impl MixedChildren {
    /// Children that hold nothing.
    pub open spec fn empty() -> MixedChildren {
        MixedChildren {
            points: Seq::empty(),
            line_strings: Seq::empty(),
            polygons: Seq::empty(),
            multi_points: Seq::empty(),
            multi_line_strings: Seq::empty(),
            multi_polygons: Seq::empty(),
        }
    }

    /// The children after `g` was appended to the child of its shape.
    pub open spec fn with(self, g: GeometryModel) -> MixedChildren {
        match g {
            GeometryModel::Point(c) => MixedChildren { points: self.points.push(c), ..self },
            GeometryModel::LineString(l) => MixedChildren {
                line_strings: self.line_strings.push(l),
                ..self
            },
            GeometryModel::Polygon(p) => MixedChildren { polygons: self.polygons.push(p), ..self },
            GeometryModel::MultiPoint(m) => MixedChildren {
                multi_points: self.multi_points.push(m),
                ..self
            },
            GeometryModel::MultiLineString(m) => MixedChildren {
                multi_line_strings: self.multi_line_strings.push(m),
                ..self
            },
            GeometryModel::MultiPolygon(m) => MixedChildren {
                multi_polygons: self.multi_polygons.push(m),
                ..self
            },
        }
    }

    /// Whether `g` can still be appended to the child of its shape: its position
    /// in the child fits a 32-bit index, and on every level of the child what was
    /// pushed so far and `g` together stay within what offsets of `width` hold.
    pub open spec fn fits(self, g: GeometryModel, width: OffsetWidth) -> bool {
        match g {
            GeometryModel::Point(_) => self.points.len() <= i32::MAX,
            GeometryModel::LineString(l) => {
                &&& self.line_strings.len() <= i32::MAX
                &&& total_len(self.line_strings) + l.len() <= width.limit()
            },
            GeometryModel::Polygon(p) => {
                &&& self.polygons.len() <= i32::MAX
                &&& total_len(self.polygons) + p.len() <= width.limit()
                &&& total_len2(self.polygons) + total_len(p) <= width.limit()
            },
            GeometryModel::MultiPoint(m) => {
                &&& self.multi_points.len() <= i32::MAX
                &&& total_len(self.multi_points) + m.len() <= width.limit()
            },
            GeometryModel::MultiLineString(m) => {
                &&& self.multi_line_strings.len() <= i32::MAX
                &&& total_len(self.multi_line_strings) + m.len() <= width.limit()
                &&& total_len2(self.multi_line_strings) + total_len(m) <= width.limit()
            },
            GeometryModel::MultiPolygon(m) => {
                &&& self.multi_polygons.len() <= i32::MAX
                &&& total_len(self.multi_polygons) + m.len() <= width.limit()
                &&& total_len2(self.multi_polygons) + total_len(m) <= width.limit()
                &&& total_len3(self.multi_polygons) + total_len2(m) <= width.limit()
            },
        }
    }
}

/// What the children hold after the geometries `values` were pushed in order.
pub open spec fn children_of(values: Seq<GeometryModel>) -> MixedChildren
    decreases values.len(),
{
    if values.len() == 0 {
        MixedChildren::empty()
    } else {
        children_of(values.drop_last()).with(values.last())
    }
}

/// The position of element `i` in the child of its shape: the number of
/// elements of that shape before it.
pub open spec fn position(values: Seq<GeometryModel>, i: int) -> nat {
    children_of(values.take(i)).count(values[i])
}

/// Whether the geometries `values` can be pushed in order to a builder of mixed
/// shape whose offsets have width `width`: each fits when its turn comes.
pub open spec fn all_fit(values: Seq<GeometryModel>, width: OffsetWidth) -> bool
    decreases values.len(),
{
    if values.len() == 0 {
        true
    } else {
        all_fit(values.drop_last(), width) && children_of(values.drop_last()).fits(
            values.last(),
            width,
        )
    }
}

/// One more geometry extends the children by it, and all fit when the earlier
/// ones do and the new one does in its turn.
pub proof fn lemma_children_push(values: Seq<GeometryModel>, g: GeometryModel, width: OffsetWidth)
    ensures
        children_of(values.push(g)) == children_of(values).with(g),
        all_fit(values.push(g), width) == (all_fit(values, width) && children_of(values).fits(
            g,
            width,
        )),
{
    assert(values.push(g).drop_last() =~= values);
}

impl MixedChildren {
    /// The number of elements of the child that holds geometries of the shape of
    /// `g`.
    pub open spec fn count(self, g: GeometryModel) -> nat {
        match g {
            GeometryModel::Point(_) => self.points.len(),
            GeometryModel::LineString(_) => self.line_strings.len(),
            GeometryModel::Polygon(_) => self.polygons.len(),
            GeometryModel::MultiPoint(_) => self.multi_points.len(),
            GeometryModel::MultiLineString(_) => self.multi_line_strings.len(),
            GeometryModel::MultiPolygon(_) => self.multi_polygons.len(),
        }
    }

    /// The number of coordinates that the children hold, all together.
    pub open spec fn coord_count(self) -> nat {
        self.points.len() + total_len(self.line_strings) + total_len2(self.polygons) + total_len(
            self.multi_points,
        ) + total_len2(self.multi_line_strings) + total_len3(self.multi_polygons)
    }

    /// Whether the children stay within what a builder with offsets of `width`
    /// can hold: every child has at most as many elements as 32-bit positions
    /// name, and on every level of every child the items stay within the limit of
    /// the offsets.
    pub open spec fn within(self, width: OffsetWidth) -> bool {
        &&& self.points.len() <= i32::MAX + 1
        &&& self.line_strings.len() <= i32::MAX + 1
        &&& total_len(self.line_strings) <= width.limit()
        &&& self.polygons.len() <= i32::MAX + 1
        &&& total_len(self.polygons) <= width.limit()
        &&& total_len2(self.polygons) <= width.limit()
        &&& self.multi_points.len() <= i32::MAX + 1
        &&& total_len(self.multi_points) <= width.limit()
        &&& self.multi_line_strings.len() <= i32::MAX + 1
        &&& total_len(self.multi_line_strings) <= width.limit()
        &&& total_len2(self.multi_line_strings) <= width.limit()
        &&& self.multi_polygons.len() <= i32::MAX + 1
        &&& total_len(self.multi_polygons) <= width.limit()
        &&& total_len2(self.multi_polygons) <= width.limit()
        &&& total_len3(self.multi_polygons) <= width.limit()
    }

    /// The children with one more geometry stay within the limits exactly where
    /// they did before and the geometry fitted.
    pub proof fn lemma_with_within(self, g: GeometryModel, width: OffsetWidth)
        ensures
            self.with(g).within(width) == (self.within(width) && self.fits(g, width)),
    {
        self.lemma_with_totals(g);
    }
}

/// Geometries can be pushed in order exactly where the children that hold them
/// all stay within the limits.
pub proof fn lemma_all_fit_within(values: Seq<GeometryModel>, width: OffsetWidth)
    ensures
        all_fit(values, width) == children_of(values).within(width),
    decreases values.len(),
{
    if values.len() == 0 {
        lemma_total_len_empty::<Coord>();
        lemma_total_len_empty::<Seq<Coord>>();
        lemma_total_len_empty::<Seq<Seq<Coord>>>();
    } else {
        lemma_all_fit_within(values.drop_last(), width);
        children_of(values.drop_last()).lemma_with_within(values.last(), width);
    }
}

/// Where all geometries fit, so does every prefix of them.
pub proof fn lemma_all_fit_prefix(values: Seq<GeometryModel>, width: OffsetWidth, k: int)
    requires
        0 <= k <= values.len(),
        all_fit(values, width),
    ensures
        all_fit(values.take(k), width),
    decreases values.len(),
{
    if k < values.len() {
        lemma_all_fit_prefix(values.drop_last(), width, k);
        assert(values.drop_last().take(k) =~= values.take(k));
    } else {
        assert(values.take(k) =~= values);
    }
}

/// The element that pushing a point stores: the point itself, or a multi point
/// of that one point where multi shapes are preferred. An absent point is
/// stored as a multi point without points, whatever is preferred: the child of
/// points has no offsets, so that an absent point there would take the room of
/// a coordinate.
pub open spec fn point_element(value: Option<Coord>, prefer_multi: bool) -> GeometryModel {
    match value {
        Some(c) => if prefer_multi {
            GeometryModel::MultiPoint(seq![c])
        } else {
            GeometryModel::Point(c)
        },
        None => GeometryModel::MultiPoint(Seq::empty()),
    }
}

/// The element that pushing a line string stores: the line string itself, or a
/// multi line string of that one part where multi shapes are preferred. An absent
/// line string stores nothing.
pub open spec fn line_string_element(value: Option<Seq<Coord>>, prefer_multi: bool)
    -> GeometryModel {
    if prefer_multi {
        GeometryModel::MultiLineString(
            match value {
                Some(l) => seq![l],
                None => Seq::empty(),
            },
        )
    } else {
        GeometryModel::LineString(
            match value {
                Some(l) => l,
                None => Seq::empty(),
            },
        )
    }
}

/// The element that pushing a polygon stores: the polygon itself, or a multi
/// polygon of that one polygon where multi shapes are preferred. An absent
/// polygon stores nothing.
pub open spec fn polygon_element(value: Option<Seq<Seq<Coord>>>, prefer_multi: bool)
    -> GeometryModel {
    if prefer_multi {
        GeometryModel::MultiPolygon(
            match value {
                Some(p) => seq![p],
                None => Seq::empty(),
            },
        )
    } else {
        GeometryModel::Polygon(
            match value {
                Some(p) => p,
                None => Seq::empty(),
            },
        )
    }
}

/// The element that pushing a geometry stores: what pushing it through the
/// function of its shape stores. An absent geometry is stored as an absent point.
pub open spec fn geometry_element(value: Option<GeometryModel>, prefer_multi: bool)
    -> GeometryModel {
    match value {
        Some(GeometryModel::Point(c)) => point_element(Some(c), prefer_multi),
        Some(GeometryModel::LineString(l)) => line_string_element(Some(l), prefer_multi),
        Some(GeometryModel::Polygon(p)) => polygon_element(Some(p), prefer_multi),
        Some(g) => g,
        None => point_element(None, prefer_multi),
    }
}

/// A growing array of geometries of mixed shape.
pub struct MixedGeometryBuilder {
    metadata: ArrayMetadata,
    types: Vec<i8>,
    points: PointBuilder,
    line_strings: LineStringBuilder,
    polygons: PolygonBuilder,
    multi_points: MultiPointBuilder,
    multi_line_strings: MultiLineStringBuilder,
    multi_polygons: MultiPolygonBuilder,
    offsets: Vec<i32>,
    prefer_multi: bool,
}

impl MixedGeometryBuilder {
    /// The number of elements of the child that type tag `type_id` names.
    pub closed spec fn child_len(&self, type_id: i8) -> nat {
        if type_id == 1 {
            self.points.values().len()
        } else if type_id == 2 {
            self.line_strings.values().len()
        } else if type_id == 3 {
            self.polygons.values().len()
        } else if type_id == 4 {
            self.multi_points.values().len()
        } else if type_id == 5 {
            self.multi_line_strings.values().len()
        } else {
            self.multi_polygons.values().len()
        }
    }

    /// The geometry at position `index` of the child that `type_id` names.
    pub closed spec fn child_value(&self, type_id: i8, index: int) -> GeometryModel {
        if type_id == 1 {
            GeometryModel::Point(self.points.values()[index])
        } else if type_id == 2 {
            GeometryModel::LineString(self.line_strings.values()[index])
        } else if type_id == 3 {
            GeometryModel::Polygon(self.polygons.values()[index])
        } else if type_id == 4 {
            GeometryModel::MultiPoint(self.multi_points.values()[index])
        } else if type_id == 5 {
            GeometryModel::MultiLineString(self.multi_line_strings.values()[index])
        } else {
            GeometryModel::MultiPolygon(self.multi_polygons.values()[index])
        }
    }

    /// Whether the element at position `index` of the child that `type_id` names
    /// is present.
    pub closed spec fn child_valid(&self, type_id: i8, index: int) -> bool {
        if type_id == 1 {
            self.points.validity_bits()[index]
        } else if type_id == 2 {
            self.line_strings.validity_bits()[index]
        } else if type_id == 3 {
            self.polygons.validity_bits()[index]
        } else if type_id == 4 {
            self.multi_points.validity_bits()[index]
        } else if type_id == 5 {
            self.multi_line_strings.validity_bits()[index]
        } else {
            self.multi_polygons.validity_bits()[index]
        }
    }

    /// What the children hold.
    pub closed spec fn children(&self) -> MixedChildren {
        MixedChildren {
            points: self.points.values(),
            line_strings: self.line_strings.values(),
            polygons: self.polygons.values(),
            multi_points: self.multi_points.values(),
            multi_line_strings: self.multi_line_strings.values(),
            multi_polygons: self.multi_polygons.values(),
        }
    }

    /// The children are well formed and agree on offset width and coordinate
    /// layout.
    pub closed spec fn children_wf(&self) -> bool {
        &&& self.points.wf()
        &&& self.line_strings.wf()
        &&& self.polygons.wf()
        &&& self.multi_points.wf()
        &&& self.multi_line_strings.wf()
        &&& self.multi_polygons.wf()
        &&& self.polygons.spec_width() == self.line_strings.spec_width()
        &&& self.multi_points.spec_width() == self.line_strings.spec_width()
        &&& self.multi_line_strings.spec_width() == self.line_strings.spec_width()
        &&& self.multi_polygons.spec_width() == self.line_strings.spec_width()
        &&& self.line_strings.spec_coord_type() == self.points.spec_coord_type()
        &&& self.polygons.spec_coord_type() == self.points.spec_coord_type()
        &&& self.multi_points.spec_coord_type() == self.points.spec_coord_type()
        &&& self.multi_line_strings.spec_coord_type() == self.points.spec_coord_type()
        &&& self.multi_polygons.spec_coord_type() == self.points.spec_coord_type()
    }

    /// The children are well formed; every element pushed has a type tag and a
    /// position inside the child that the tag names; the children hold exactly the
    /// elements pushed, each child in the order of pushing; and every element
    /// fitted in its turn.
    pub closed spec fn wf(&self) -> bool {
        &&& self.children_wf()
        &&& self.types@.len() == self.offsets@.len()
        &&& forall|i: int|
            0 <= i < self.types@.len() ==> 1 <= #[trigger] self.types@[i] <= 6 && 0
                <= self.offsets@[i] < self.child_len(self.types@[i])
        &&& self.children() == children_of(self.values())
        &&& all_fit(self.values(), self.spec_width())
        &&& forall|i: int|
            0 <= i < self.types@.len() ==> #[trigger] self.offsets@[i] == position(self.values(), i)
    }

    /// The geometry stored for each element pushed, absent elements included.
    pub closed spec fn values(&self) -> Seq<GeometryModel> {
        Seq::new(
            self.types@.len(),
            |i: int| self.child_value(self.types@[i], self.offsets@[i] as int),
        )
    }

    /// Which of the elements pushed are present.
    pub closed spec fn validity_bits(&self) -> Seq<bool> {
        Seq::new(
            self.types@.len(),
            |i: int| self.child_valid(self.types@[i], self.offsets@[i] as int),
        )
    }

    /// The elements pushed so far as a finished array will show them.
    pub open spec fn view(&self) -> Seq<Option<GeometryModel>> {
        masked(self.values(), self.validity_bits())
    }

    /// The layout of the coordinates.
    pub closed spec fn spec_coord_type(&self) -> CoordType {
        self.points.spec_coord_type()
    }

    /// The width of the offsets of the children.
    pub closed spec fn spec_width(&self) -> OffsetWidth {
        self.line_strings.spec_width()
    }

    /// The metadata that the finished array will carry.
    pub closed spec fn spec_metadata(&self) -> ArrayMetadata {
        self.metadata
    }

    /// Whether single geometries are stored in the child of the multi shape.
    pub closed spec fn spec_prefer_multi(&self) -> bool {
        self.prefer_multi
    }

    /// Whether `g` can still be pushed.
    pub open spec fn fits(&self, g: GeometryModel) -> bool {
        children_of(self.values()).fits(g, self.spec_width())
    }

    /// What a push that succeeded has done: one more element `g`, present or
    /// not, and nothing else changed.
    pub open spec fn pushed(&self, before: &MixedGeometryBuilder, g: GeometryModel, present: bool)
        -> bool {
        &&& self.wf()
        &&& self.values() == before.values().push(g)
        &&& self.validity_bits() == before.validity_bits().push(present)
        &&& self.spec_coord_type() == before.spec_coord_type()
        &&& self.spec_width() == before.spec_width()
        &&& self.spec_metadata() == before.spec_metadata()
        &&& self.spec_prefer_multi() == before.spec_prefer_multi()
    }

    /// What a push has done: where `g` fitted, it is the last element now;
    /// where it did not, the push failed with [`GeoArrowError::IndexOverflow`] and
    /// the builder is as before.
    pub open spec fn push_result(
        &self,
        before: &MixedGeometryBuilder,
        g: GeometryModel,
        present: bool,
        r: Result<(), GeoArrowError>,
    ) -> bool {
        if before.fits(g) {
            r is Ok && self.pushed(before, g, present)
        } else {
            r == Err::<(), GeoArrowError>(GeoArrowError::IndexOverflow) && *self == *before
        }
    }

    /// Every element of a builder fitted when it was pushed.
    pub proof fn lemma_fitted(&self)
        requires
            self.wf(),
        ensures
            all_fit(self.values(), self.spec_width()),
            self.values().len() == self.validity_bits().len(),
    {
    }

    /// An empty builder with room for `capacity`.
    pub fn with_capacity_and_options(
        width: OffsetWidth,
        capacity: MixedCapacity,
        coord_type: CoordType,
        metadata: ArrayMetadata,
        prefer_multi: bool,
    ) -> (b: MixedGeometryBuilder)
        ensures
            b.wf(),
            b.values() == Seq::<GeometryModel>::empty(),
            b.validity_bits() == Seq::<bool>::empty(),
            b.spec_coord_type() == coord_type,
            b.spec_width() == width,
            b.spec_metadata() == metadata,
            b.spec_prefer_multi() == prefer_multi,
    {
        // the children carry no metadata of their own
        let b = MixedGeometryBuilder {
            metadata,
            types: Vec::new(),
            points: PointBuilder::with_capacity_and_options(
                capacity.point,
                coord_type,
                ArrayMetadata::new(),
            ),
            line_strings: LineStringBuilder::with_capacity_and_options(
                width,
                capacity.line_string,
                coord_type,
                ArrayMetadata::new(),
            ),
            polygons: PolygonBuilder::with_capacity_and_options(
                width,
                capacity.polygon,
                coord_type,
                ArrayMetadata::new(),
            ),
            multi_points: MultiPointBuilder::with_capacity_and_options(
                width,
                capacity.multi_point,
                coord_type,
                ArrayMetadata::new(),
            ),
            multi_line_strings: MultiLineStringBuilder::with_capacity_and_options(
                width,
                capacity.multi_line_string,
                coord_type,
                ArrayMetadata::new(),
            ),
            multi_polygons: MultiPolygonBuilder::with_capacity_and_options(
                width,
                capacity.multi_polygon,
                coord_type,
                ArrayMetadata::new(),
            ),
            offsets: Vec::new(),
            prefer_multi,
        };
        assert(b.values() =~= Seq::<GeometryModel>::empty());
        assert(b.validity_bits() =~= Seq::<bool>::empty());
        b
    }

    /// An empty builder with interleaved coordinates and no metadata, which
    /// stores single geometries in the child of their own shape.
    pub fn new(width: OffsetWidth) -> (b: MixedGeometryBuilder)
        ensures
            b.wf(),
            b.values() == Seq::<GeometryModel>::empty(),
            b.validity_bits() == Seq::<bool>::empty(),
            b.spec_coord_type() == CoordType::Interleaved,
            b.spec_width() == width,
            !b.spec_prefer_multi(),
    {
        MixedGeometryBuilder::new_with_options(
            width,
            CoordType::Interleaved,
            ArrayMetadata::new(),
            DEFAULT_PREFER_MULTI,
        )
    }

    /// An empty builder.
    pub fn new_with_options(
        width: OffsetWidth,
        coord_type: CoordType,
        metadata: ArrayMetadata,
        prefer_multi: bool,
    ) -> (b: MixedGeometryBuilder)
        ensures
            b.wf(),
            b.values() == Seq::<GeometryModel>::empty(),
            b.validity_bits() == Seq::<bool>::empty(),
            b.spec_coord_type() == coord_type,
            b.spec_width() == width,
            b.spec_metadata() == metadata,
            b.spec_prefer_multi() == prefer_multi,
    {
        MixedGeometryBuilder::with_capacity_and_options(
            width,
            MixedCapacity::new_empty(),
            coord_type,
            metadata,
            prefer_multi,
        )
    }

    /// An empty builder with room for `capacity`, interleaved coordinates and no
    /// metadata.
    pub fn with_capacity(width: OffsetWidth, capacity: MixedCapacity) -> (b: MixedGeometryBuilder)
        ensures
            b.wf(),
            b.values() == Seq::<GeometryModel>::empty(),
            b.validity_bits() == Seq::<bool>::empty(),
            b.spec_coord_type() == CoordType::Interleaved,
            b.spec_width() == width,
            !b.spec_prefer_multi(),
    {
        MixedGeometryBuilder::with_capacity_and_options(
            width,
            capacity,
            CoordType::Interleaved,
            ArrayMetadata::new(),
            DEFAULT_PREFER_MULTI,
        )
    }

    /// An empty builder for `geom_capacity` geometries whose shapes are not known
    /// yet. No room is set aside: nothing says which children will take them.
    pub fn with_geom_capacity_and_options(
        width: OffsetWidth,
        geom_capacity: usize,
        coord_type: CoordType,
        metadata: ArrayMetadata,
    ) -> (b: MixedGeometryBuilder)
        ensures
            b.wf(),
            b.values() == Seq::<GeometryModel>::empty(),
            b.validity_bits() == Seq::<bool>::empty(),
            b.spec_coord_type() == coord_type,
            b.spec_width() == width,
            b.spec_metadata() == metadata,
            !b.spec_prefer_multi(),
    {
        MixedGeometryBuilder::with_capacity_and_options(
            width,
            MixedCapacity::new_empty(),
            coord_type,
            metadata,
            DEFAULT_PREFER_MULTI,
        )
    }

    /// Makes room for `additional` more in each child.
    pub fn reserve(&mut self, additional: MixedCapacity)
        requires
            old(self).wf(),
        ensures
            final(self).wf(),
            final(self).values() == old(self).values(),
            final(self).validity_bits() == old(self).validity_bits(),
            final(self).spec_coord_type() == old(self).spec_coord_type(),
            final(self).spec_width() == old(self).spec_width(),
            final(self).spec_metadata() == old(self).spec_metadata(),
            final(self).spec_prefer_multi() == old(self).spec_prefer_multi(),
    {
        let total = additional.total_num_geoms();
        self.types.reserve(total);
        self.offsets.reserve(total);
        self.points.reserve(additional.point);
        self.line_strings.reserve(additional.line_string);
        self.polygons.reserve(additional.polygon);
        self.multi_points.reserve(additional.multi_point);
        self.multi_line_strings.reserve(additional.multi_line_string);
        self.multi_polygons.reserve(additional.multi_polygon);
        assert(self.values() =~= old(self).values());
        assert(self.validity_bits() =~= old(self).validity_bits());
    }

    /// Makes room for `additional` more in each child.
    pub fn reserve_exact(&mut self, additional: MixedCapacity)
        requires
            old(self).wf(),
        ensures
            final(self).wf(),
            final(self).values() == old(self).values(),
            final(self).validity_bits() == old(self).validity_bits(),
            final(self).spec_coord_type() == old(self).spec_coord_type(),
            final(self).spec_width() == old(self).spec_width(),
            final(self).spec_metadata() == old(self).spec_metadata(),
            final(self).spec_prefer_multi() == old(self).spec_prefer_multi(),
    {
        self.reserve(additional)
    }

    /// The number of elements pushed so far.
    pub fn len(&self) -> (n: usize)
        requires
            self.wf(),
        ensures
            n == self.values().len(),
            n == self.validity_bits().len(),
    {
        self.types.len()
    }

    /// Whether single geometries are stored in the child of the multi shape.
    pub fn prefer_multi(&self) -> (b: bool)
        ensures
            b == self.spec_prefer_multi(),
    {
        self.prefer_multi
    }

    /// The layout of the coordinates.
    pub fn coord_type(&self) -> (t: CoordType)
        ensures
            t == self.spec_coord_type(),
    {
        self.points.coord_type()
    }

    /// Replaces the metadata that the finished array will carry.
    pub fn set_metadata(&mut self, metadata: ArrayMetadata)
        requires
            old(self).wf(),
        ensures
            final(self).wf(),
            final(self).values() == old(self).values(),
            final(self).validity_bits() == old(self).validity_bits(),
            final(self).spec_coord_type() == old(self).spec_coord_type(),
            final(self).spec_width() == old(self).spec_width(),
            final(self).spec_metadata() == metadata,
            final(self).spec_prefer_multi() == old(self).spec_prefer_multi(),
    {
        self.metadata = metadata;
        assert(self.values() =~= old(self).values());
        assert(self.validity_bits() =~= old(self).validity_bits());
    }

    /// The metadata that the finished array will carry.
    pub fn metadata(&self) -> (m: &ArrayMetadata)
        ensures
            *m == self.spec_metadata(),
    {
        &self.metadata
    }

    /// Records the element that a child has just taken: its type tag and its
    /// position in the child.
    fn record(
        &mut self,
        type_id: i8,
        index: usize,
        Ghost(g): Ghost<GeometryModel>,
        Ghost(present): Ghost<bool>,
    )
        requires
            old(self).children_wf(),
            old(self).types@.len() == old(self).offsets@.len(),
            forall|i: int|
                0 <= i < old(self).types@.len() ==> 1 <= #[trigger] old(self).types@[i] <= 6 && 0
                    <= old(self).offsets@[i] < old(self).child_len(old(self).types@[i]),
            old(self).children() == children_of(old(self).values()).with(g),
            all_fit(old(self).values(), old(self).spec_width()),
            children_of(old(self).values()).fits(g, old(self).spec_width()),
            forall|i: int|
                0 <= i < old(self).types@.len() ==> #[trigger] old(self).offsets@[i] == position(
                    old(self).values(),
                    i,
                ),
            1 <= type_id <= 6,
            index + 1 == old(self).child_len(type_id),
            index <= i32::MAX,
            old(self).child_value(type_id, index as int) == g,
            old(self).child_valid(type_id, index as int) == present,
        ensures
            final(self).wf(),
            final(self).values() == old(self).values().push(g),
            final(self).validity_bits() == old(self).validity_bits().push(present),
            final(self).spec_coord_type() == old(self).spec_coord_type(),
            final(self).spec_width() == old(self).spec_width(),
            final(self).spec_metadata() == old(self).spec_metadata(),
            final(self).spec_prefer_multi() == old(self).spec_prefer_multi(),
    {
        self.types.push(type_id);
        self.offsets.push(index as i32);
        proof {
            let before = old(self).values();
            assert(self.values() =~= before.push(g));
            assert(self.validity_bits() =~= old(self).validity_bits().push(present));
            lemma_children_push(before, g, self.spec_width());
            assert forall|i: int| 0 <= i < self.types@.len() implies #[trigger] self.offsets@[i]
                == position(self.values(), i) by {
                if i < before.len() {
                    assert(self.values().take(i) =~= before.take(i));
                    assert(self.offsets@[i] == old(self).offsets@[i]);
                } else {
                    assert(self.values().take(i) =~= before);
                    assert(old(self).children().count(g) == children_of(before).count(g) + 1);
                    assert(old(self).children().count(g) == old(self).child_len(type_id));
                }
            }
        }
    }

    /// Appends a point to the child of points; an absent one to the child of
    /// multi points, as a multi point without points.
    #[verifier::rlimit(60)]
    pub(crate) fn point_to_points<P: PointTrait>(&mut self, value: Option<&P>) -> (r: Result<
        (),
        GeoArrowError,
    >)
        requires
            old(self).wf(),
            value matches Some(g) ==> g.wf(),
        ensures
            final(self).push_result(old(self), point_element(match value {
                Some(g) => Some(g.model()),
                None => None,
            }, false), value is Some, r),
    {
        if value.is_none() {
            return self.point_to_multi_points(value);
        }
        let index = self.points.len();
        if index > 0x7fff_ffff {
            return Err(GeoArrowError::IndexOverflow);
        }
        self.points.push_point(value);
        proof {
            self.points.lemma_lengths();
            assert(self.values() =~= old(self).values());
            assert(self.validity_bits() =~= old(self).validity_bits());
        }
        self.record(POINT_TYPE_ID, index, Ghost(point_element(match value {
                Some(g) => Some(g.model()),
                None => None,
            }, false)), Ghost(true));
        Ok(())
    }

    /// Appends a point to the child of multi points.
    #[verifier::rlimit(60)]
    pub(crate) fn point_to_multi_points<P: PointTrait>(&mut self, value: Option<&P>) -> (r: Result<
        (),
        GeoArrowError,
    >)
        requires
            old(self).wf(),
            value matches Some(g) ==> g.wf(),
        ensures
            final(self).push_result(old(self), GeometryModel::MultiPoint(match value {
                Some(g) => seq![g.model()],
                None => Seq::empty(),
            }), value is Some, r),
    {
        let index = self.multi_points.len();
        if index > 0x7fff_ffff {
            return Err(GeoArrowError::IndexOverflow);
        }
        proof {
            self.multi_points.lemma_within_limit();
        }
        match self.multi_points.push_point(value) {
            Ok(()) => {},
            Err(e) => {
                return Err(e);
            },
        }
        proof {
            self.multi_points.lemma_lengths();
            assert(self.values() =~= old(self).values());
            assert(self.validity_bits() =~= old(self).validity_bits());
        }
        self.record(MULTI_POINT_TYPE_ID, index, Ghost(GeometryModel::MultiPoint(match value {
                Some(g) => seq![g.model()],
                None => Seq::empty(),
            })), Ghost(value is Some));
        Ok(())
    }

    /// Appends a line string to the child of line strings.
    #[verifier::rlimit(60)]
    pub(crate) fn line_string_to_line_strings<L: LineStringTrait>(&mut self, value: Option<&L>) -> (r: Result<
        (),
        GeoArrowError,
    >)
        requires
            old(self).wf(),
            value matches Some(g) ==> g.wf(),
        ensures
            final(self).push_result(old(self), GeometryModel::LineString(match value {
                Some(g) => g.model(),
                None => Seq::empty(),
            }), value is Some, r),
    {
        let index = self.line_strings.len();
        if index > 0x7fff_ffff {
            return Err(GeoArrowError::IndexOverflow);
        }
        proof {
            self.line_strings.lemma_within_limit();
        }
        match self.line_strings.push_line_string(value) {
            Ok(()) => {},
            Err(e) => {
                return Err(e);
            },
        }
        proof {
            self.line_strings.lemma_lengths();
            assert(self.values() =~= old(self).values());
            assert(self.validity_bits() =~= old(self).validity_bits());
        }
        self.record(LINE_STRING_TYPE_ID, index, Ghost(GeometryModel::LineString(match value {
                Some(g) => g.model(),
                None => Seq::empty(),
            })), Ghost(value is Some));
        Ok(())
    }

    /// Appends a line string to the child of multi line strings.
    #[verifier::rlimit(60)]
    pub(crate) fn line_string_to_multi_line_strings<L: LineStringTrait>(&mut self, value: Option<&L>) -> (r: Result<
        (),
        GeoArrowError,
    >)
        requires
            old(self).wf(),
            value matches Some(g) ==> g.wf(),
        ensures
            final(self).push_result(old(self), GeometryModel::MultiLineString(match value {
                Some(g) => seq![g.model()],
                None => Seq::empty(),
            }), value is Some, r),
    {
        let index = self.multi_line_strings.len();
        if index > 0x7fff_ffff {
            return Err(GeoArrowError::IndexOverflow);
        }
        proof {
            self.multi_line_strings.lemma_within_limit();
            if let Some(g) = value {
                lemma_total_len_one(g.model());
            }
        }
        match self.multi_line_strings.push_line_string(value) {
            Ok(()) => {},
            Err(e) => {
                return Err(e);
            },
        }
        proof {
            self.multi_line_strings.lemma_lengths();
            assert(self.values() =~= old(self).values());
            assert(self.validity_bits() =~= old(self).validity_bits());
        }
        self.record(MULTI_LINE_STRING_TYPE_ID, index, Ghost(GeometryModel::MultiLineString(match value {
                Some(g) => seq![g.model()],
                None => Seq::empty(),
            })), Ghost(value is Some));
        Ok(())
    }

    /// Appends a polygon to the child of polygons.
    #[verifier::rlimit(60)]
    pub(crate) fn polygon_to_polygons<P: PolygonTrait>(&mut self, value: Option<&P>) -> (r: Result<
        (),
        GeoArrowError,
    >)
        requires
            old(self).wf(),
            value matches Some(g) ==> g.wf(),
        ensures
            final(self).push_result(old(self), GeometryModel::Polygon(match value {
                Some(g) => g.model(),
                None => Seq::empty(),
            }), value is Some, r),
    {
        let index = self.polygons.len();
        if index > 0x7fff_ffff {
            return Err(GeoArrowError::IndexOverflow);
        }
        proof {
            self.polygons.lemma_within_limit();
        }
        match self.polygons.push_polygon(value) {
            Ok(()) => {},
            Err(e) => {
                return Err(e);
            },
        }
        proof {
            self.polygons.lemma_lengths();
            assert(self.values() =~= old(self).values());
            assert(self.validity_bits() =~= old(self).validity_bits());
        }
        self.record(POLYGON_TYPE_ID, index, Ghost(GeometryModel::Polygon(match value {
                Some(g) => g.model(),
                None => Seq::empty(),
            })), Ghost(value is Some));
        Ok(())
    }

    /// Appends a polygon to the child of multi polygons.
    #[verifier::rlimit(60)]
    pub(crate) fn polygon_to_multi_polygons<P: PolygonTrait>(&mut self, value: Option<&P>) -> (r: Result<
        (),
        GeoArrowError,
    >)
        requires
            old(self).wf(),
            value matches Some(g) ==> g.wf(),
        ensures
            final(self).push_result(old(self), GeometryModel::MultiPolygon(match value {
                Some(g) => seq![g.model()],
                None => Seq::empty(),
            }), value is Some, r),
    {
        let index = self.multi_polygons.len();
        if index > 0x7fff_ffff {
            return Err(GeoArrowError::IndexOverflow);
        }
        proof {
            self.multi_polygons.lemma_within_limit();
            if let Some(g) = value {
                lemma_total_len_one(g.model());
                lemma_total_len2_one(g.model());
            }
        }
        match self.multi_polygons.push_polygon(value) {
            Ok(()) => {},
            Err(e) => {
                return Err(e);
            },
        }
        proof {
            self.multi_polygons.lemma_lengths();
            assert(self.values() =~= old(self).values());
            assert(self.validity_bits() =~= old(self).validity_bits());
        }
        self.record(MULTI_POLYGON_TYPE_ID, index, Ghost(GeometryModel::MultiPolygon(match value {
                Some(g) => seq![g.model()],
                None => Seq::empty(),
            })), Ghost(value is Some));
        Ok(())
    }

    /// Appends one element: the multi point `value`, or an absent multi point for
    /// `None`. Where it no longer fits, the push fails with
    /// [`GeoArrowError::IndexOverflow`] and changes nothing.
    #[verifier::rlimit(60)]
    pub fn push_multi_point<M: MultiPointTrait>(&mut self, value: Option<&M>) -> (r: Result<
        (),
        GeoArrowError,
    >)
        requires
            old(self).wf(),
            value matches Some(g) ==> g.wf(),
        ensures
            final(self).push_result(old(self), GeometryModel::MultiPoint(match value {
                Some(g) => g.model(),
                None => Seq::empty(),
            }), value is Some, r),
    {
        let index = self.multi_points.len();
        if index > 0x7fff_ffff {
            return Err(GeoArrowError::IndexOverflow);
        }
        proof {
            self.multi_points.lemma_within_limit();
        }
        match self.multi_points.push_multi_point(value) {
            Ok(()) => {},
            Err(e) => {
                return Err(e);
            },
        }
        proof {
            self.multi_points.lemma_lengths();
            assert(self.values() =~= old(self).values());
            assert(self.validity_bits() =~= old(self).validity_bits());
        }
        self.record(MULTI_POINT_TYPE_ID, index, Ghost(GeometryModel::MultiPoint(match value {
                Some(g) => g.model(),
                None => Seq::empty(),
            })), Ghost(value is Some));
        Ok(())
    }

    /// Appends one element: the multi line string `value`, or an absent multi line
    /// string for `None`. Where it no longer fits, the push fails with
    /// [`GeoArrowError::IndexOverflow`] and changes nothing.
    #[verifier::rlimit(60)]
    pub fn push_multi_line_string<M: MultiLineStringTrait>(&mut self, value: Option<&M>) -> (r: Result<
        (),
        GeoArrowError,
    >)
        requires
            old(self).wf(),
            value matches Some(g) ==> g.wf(),
        ensures
            final(self).push_result(old(self), GeometryModel::MultiLineString(match value {
                Some(g) => g.model(),
                None => Seq::empty(),
            }), value is Some, r),
    {
        let index = self.multi_line_strings.len();
        if index > 0x7fff_ffff {
            return Err(GeoArrowError::IndexOverflow);
        }
        proof {
            self.multi_line_strings.lemma_within_limit();
        }
        match self.multi_line_strings.push_multi_line_string(value) {
            Ok(()) => {},
            Err(e) => {
                return Err(e);
            },
        }
        proof {
            self.multi_line_strings.lemma_lengths();
            assert(self.values() =~= old(self).values());
            assert(self.validity_bits() =~= old(self).validity_bits());
        }
        self.record(MULTI_LINE_STRING_TYPE_ID, index, Ghost(GeometryModel::MultiLineString(match value {
                Some(g) => g.model(),
                None => Seq::empty(),
            })), Ghost(value is Some));
        Ok(())
    }

    /// Appends one element: the multi polygon `value`, or an absent multi polygon
    /// for `None`. Where it no longer fits, the push fails with
    /// [`GeoArrowError::IndexOverflow`] and changes nothing.
    #[verifier::rlimit(60)]
    pub fn push_multi_polygon<M: MultiPolygonTrait>(&mut self, value: Option<&M>) -> (r: Result<
        (),
        GeoArrowError,
    >)
        requires
            old(self).wf(),
            value matches Some(g) ==> g.wf(),
        ensures
            final(self).push_result(old(self), GeometryModel::MultiPolygon(match value {
                Some(g) => g.model(),
                None => Seq::empty(),
            }), value is Some, r),
    {
        let index = self.multi_polygons.len();
        if index > 0x7fff_ffff {
            return Err(GeoArrowError::IndexOverflow);
        }
        proof {
            self.multi_polygons.lemma_within_limit();
        }
        match self.multi_polygons.push_multi_polygon(value) {
            Ok(()) => {},
            Err(e) => {
                return Err(e);
            },
        }
        proof {
            self.multi_polygons.lemma_lengths();
            assert(self.values() =~= old(self).values());
            assert(self.validity_bits() =~= old(self).validity_bits());
        }
        self.record(MULTI_POLYGON_TYPE_ID, index, Ghost(GeometryModel::MultiPolygon(match value {
                Some(g) => g.model(),
                None => Seq::empty(),
            })), Ghost(value is Some));
        Ok(())
    }

    /// Appends one element: the point `value`, or an absent element for `None`,
    /// which is stored as a multi point without points.
    /// A point is stored in the child of points, or as a multi point of one part where
    /// multi shapes are preferred. Where it no longer fits, the push fails with
    /// [`GeoArrowError::IndexOverflow`] and changes nothing.
    pub fn push_point<P: PointTrait>(&mut self, value: Option<&P>) -> (r: Result<
        (),
        GeoArrowError,
    >)
        requires
            old(self).wf(),
            value matches Some(g) ==> g.wf(),
        ensures
            final(self).push_result(
                old(self),
                point_element(
                    match value {
                        Some(g) => Some(g.model()),
                        None => None,
                    },
                    old(self).spec_prefer_multi(),
                ),
                value is Some,
                r,
            ),
    {
        if self.prefer_multi {
            self.point_to_multi_points(value)
        } else {
            self.point_to_points(value)
        }
    }

    /// Appends one element: the line string `value`, or an absent line string for `None`.
    /// It is stored in the child of line strings, or as a multi line string of one part where
    /// multi shapes are preferred. Where it no longer fits, the push fails with
    /// [`GeoArrowError::IndexOverflow`] and changes nothing.
    pub fn push_line_string<L: LineStringTrait>(&mut self, value: Option<&L>) -> (r: Result<
        (),
        GeoArrowError,
    >)
        requires
            old(self).wf(),
            value matches Some(g) ==> g.wf(),
        ensures
            final(self).push_result(
                old(self),
                line_string_element(
                    match value {
                        Some(g) => Some(g.model()),
                        None => None,
                    },
                    old(self).spec_prefer_multi(),
                ),
                value is Some,
                r,
            ),
    {
        if self.prefer_multi {
            self.line_string_to_multi_line_strings(value)
        } else {
            self.line_string_to_line_strings(value)
        }
    }

    /// Appends one element: the polygon `value`, or an absent polygon for `None`.
    /// It is stored in the child of polygons, or as a multi polygon of one part where
    /// multi shapes are preferred. Where it no longer fits, the push fails with
    /// [`GeoArrowError::IndexOverflow`] and changes nothing.
    pub fn push_polygon<P: PolygonTrait>(&mut self, value: Option<&P>) -> (r: Result<
        (),
        GeoArrowError,
    >)
        requires
            old(self).wf(),
            value matches Some(g) ==> g.wf(),
        ensures
            final(self).push_result(
                old(self),
                polygon_element(
                    match value {
                        Some(g) => Some(g.model()),
                        None => None,
                    },
                    old(self).spec_prefer_multi(),
                ),
                value is Some,
                r,
            ),
    {
        if self.prefer_multi {
            self.polygon_to_multi_polygons(value)
        } else {
            self.polygon_to_polygons(value)
        }
    }

    /// Appends an absent element. It is stored as an absent multi point: one
    /// more empty run in the offsets of that child, and no coordinate in any
    /// child.
    pub fn push_null(&mut self) -> (r: Result<(), GeoArrowError>)
        requires
            old(self).wf(),
        ensures
            final(self).push_result(
                old(self),
                GeometryModel::MultiPoint(Seq::empty()),
                false,
                r,
            ),
            children_of(final(self).values()).points == children_of(old(self).values()).points,
            children_of(final(self).values()).coord_count() == children_of(
                old(self).values(),
            ).coord_count(),
    {
        proof {
            lemma_children_push(
                self.values(),
                GeometryModel::MultiPoint(Seq::empty()),
                self.spec_width(),
            );
            children_of(self.values()).lemma_with_totals(GeometryModel::MultiPoint(Seq::empty()));
        }
        self.point_to_multi_points::<Coord>(None)
    }

    /// Appends one element: the geometry `value` through the function of its
    /// shape, or an absent element for `None`. Where it no longer fits, the push
    /// fails with [`GeoArrowError::IndexOverflow`] and changes nothing.
    pub fn push_geometry<G: GeometryTrait>(&mut self, value: Option<&G>) -> (r: Result<
        (),
        GeoArrowError,
    >)
        requires
            old(self).wf(),
            value matches Some(g) ==> g.wf(),
        ensures
            final(self).push_result(
                old(self),
                geometry_element(
                    match value {
                        Some(g) => Some(g.model()),
                        None => None,
                    },
                    old(self).spec_prefer_multi(),
                ),
                value is Some,
                r,
            ),
    {
        match value {
            Some(geom) => match geom.as_type() {
                GeometryType::Point(g) => self.push_point(Some(&g)),
                GeometryType::LineString(g) => self.push_line_string(Some(&g)),
                GeometryType::Polygon(g) => self.push_polygon(Some(&g)),
                GeometryType::MultiPoint(g) => self.push_multi_point(Some(&g)),
                GeometryType::MultiLineString(g) => self.push_multi_line_string(Some(&g)),
                GeometryType::MultiPolygon(g) => self.push_multi_polygon(Some(&g)),
            },
            None => self.push_null(),
        }
    }

    /// Appends one element for the collection `value`: its one member, where it
    /// holds exactly one, or an absent element for `None`. A collection of no
    /// member or of several cannot stand for one element: the push fails with
    /// [`GeoArrowError::UnsupportedNesting`] and changes nothing. Where the one
    /// member no longer fits, it fails with [`GeoArrowError::IndexOverflow`] and
    /// changes nothing.
    pub fn push_geometry_collection<C: GeometryCollectionTrait>(&mut self, value: Option<&C>) -> (r:
        Result<(), GeoArrowError>)
        requires
            old(self).wf(),
            value matches Some(c) ==> c.wf(),
        ensures
            match value {
                None => final(self).push_result(
                    old(self),
                    GeometryModel::MultiPoint(Seq::empty()),
                    false,
                    r,
                ),
                Some(c) => if c.model().len() == 1 {
                    final(self).push_result(
                        old(self),
                        geometry_element(Some(c.model()[0]), old(self).spec_prefer_multi()),
                        true,
                        r,
                    )
                } else {
                    r == Err::<(), GeoArrowError>(GeoArrowError::UnsupportedNesting) && *final(self)
                        == *old(self)
                },
            },
    {
        match value {
            None => self.push_null(),
            Some(collection) => {
                if collection.num_geometries() != 1 {
                    return Err(GeoArrowError::UnsupportedNesting);
                }
                match collection.geometry(0) {
                    Some(member) => self.push_geometry(Some(&member)),
                    None => Err(GeoArrowError::UnsupportedNesting),
                }
            },
        }
    }

    /// Appends the geometry `value`, a single geometry as its multi shape where
    /// `prefer_multi` says so, whatever the builder itself prefers. Where it no
    /// longer fits, the push fails with [`GeoArrowError::IndexOverflow`] and
    /// changes nothing.
    pub(crate) fn push_geometry_as<G: GeometryTrait>(&mut self, value: &G, prefer_multi: bool) -> (r:
        Result<(), GeoArrowError>)
        requires
            old(self).wf(),
            value.wf(),
        ensures
            final(self).push_result(
                old(self),
                geometry_element(Some(value.model()), prefer_multi),
                true,
                r,
            ),
    {
        match value.as_type() {
            GeometryType::Point(g) => if prefer_multi {
                self.point_to_multi_points(Some(&g))
            } else {
                self.point_to_points(Some(&g))
            },
            GeometryType::LineString(g) => if prefer_multi {
                self.line_string_to_multi_line_strings(Some(&g))
            } else {
                self.line_string_to_line_strings(Some(&g))
            },
            GeometryType::Polygon(g) => if prefer_multi {
                self.polygon_to_multi_polygons(Some(&g))
            } else {
                self.polygon_to_polygons(Some(&g))
            },
            GeometryType::MultiPoint(g) => self.push_multi_point(Some(&g)),
            GeometryType::MultiLineString(g) => self.push_multi_line_string(Some(&g)),
            GeometryType::MultiPolygon(g) => self.push_multi_polygon(Some(&g)),
        }
    }

    /// How much the children hold.
    pub fn buffer_lengths(&self) -> (c: MixedCapacity)
        requires
            self.wf(),
        ensures
            children_of(self.values()).room(c),
    {
        MixedCapacity {
            point: self.points.len(),
            line_string: self.line_strings.buffer_lengths(),
            polygon: self.polygons.buffer_lengths(),
            multi_point: self.multi_points.buffer_lengths(),
            multi_line_string: self.multi_line_strings.buffer_lengths(),
            multi_polygon: self.multi_polygons.buffer_lengths(),
        }
    }

    /// The elements pushed, as an immutable array: the children that were built
    /// along the way, the type tags and the positions.
    pub fn finish(self) -> (a: MixedGeometryArray)
        requires
            self.wf(),
        ensures
            a.wf(),
            a.values() == self.values(),
            a.validity_bits() == self.validity_bits(),
            a@ == self.view(),
            a.compact(),
            a.spec_coord_type() == self.spec_coord_type(),
            a.spec_width() == self.spec_width(),
            a.spec_metadata() == self.spec_metadata(),
    {
        let ghost types = self.types@;
        let ghost offsets = self.offsets@;
        let type_ids = TypeIdBuffer::from_vec(self.types);
        let child_offsets = IndexBuffer::from_vec(self.offsets);
        let points = self.points.finish();
        let line_strings = self.line_strings.finish();
        let polygons = self.polygons.finish();
        let multi_points = self.multi_points.finish();
        let multi_line_strings = self.multi_line_strings.finish();
        let multi_polygons = self.multi_polygons.finish();
        let ghost parts = MixedGeometryArray::of_parts(
            type_ids,
            child_offsets,
            points,
            line_strings,
            polygons,
            multi_points,
            multi_line_strings,
            multi_polygons,
            self.metadata,
        );
        proof {
            assert forall|i: int| 0 <= i < parts.spec_type_ids().len() implies 1
                <= #[trigger] parts.spec_type_ids()[i] <= 6 && 0 <= parts.spec_offsets()[i]
                < parts.child_len(parts.spec_type_ids()[i]) by {
                assert(1 <= self.types@[i] <= 6);
            }
            assert(parts.values() =~= self.values());
            assert(parts.validity_bits() =~= self.validity_bits());
            assert(parts.children() == self.children());
            assert forall|i: int| 0 <= i < parts.values().len() implies #[trigger] parts.spec_offsets()[i]
                == position(parts.values(), i) by {
                assert(self.offsets@[i] == position(self.values(), i));
            }
        }
        MixedGeometryArray::new(
            type_ids,
            child_offsets,
            points,
            line_strings,
            polygons,
            multi_points,
            multi_line_strings,
            multi_polygons,
            self.metadata,
        )
    }
}

/// What `geoms` are stored as, element by element.
pub open spec fn geometry_models<G: GeometryTrait>(geoms: Seq<Option<G>>, prefer_multi: bool)
    -> Seq<GeometryModel> {
    Seq::new(
        geoms.len(),
        |i: int|
            geometry_element(
                match geoms[i] {
                    Some(g) => Some(g.model()),
                    None => None,
                },
                prefer_multi,
            ),
    )
}

/// Which of `geoms` are present.
pub open spec fn geometry_presence<G: GeometryTrait>(geoms: Seq<Option<G>>) -> Seq<bool> {
    Seq::new(geoms.len(), |i: int| geoms[i] is Some)
}

/// Every present element of `geoms` can be read.
pub open spec fn geometries_wf<G: GeometryTrait>(geoms: Seq<Option<G>>) -> bool {
    forall|i: int| 0 <= i < geoms.len() ==> (#[trigger] geoms[i] matches Some(g) ==> g.wf())
}

impl MixedChildren {
    /// `c` is the room that these children take.
    pub open spec fn room(self, c: MixedCapacity) -> bool {
        &&& c.point == self.points.len()
        &&& c.line_string.geom_capacity == self.line_strings.len()
        &&& c.line_string.coord_capacity == total_len(self.line_strings)
        &&& c.polygon.geom_capacity == self.polygons.len()
        &&& c.polygon.ring_capacity == total_len(self.polygons)
        &&& c.polygon.coord_capacity == total_len2(self.polygons)
        &&& c.multi_point.geom_capacity == self.multi_points.len()
        &&& c.multi_point.coord_capacity == total_len(self.multi_points)
        &&& c.multi_line_string.geom_capacity == self.multi_line_strings.len()
        &&& c.multi_line_string.ring_capacity == total_len(self.multi_line_strings)
        &&& c.multi_line_string.coord_capacity == total_len2(self.multi_line_strings)
        &&& c.multi_polygon.geom_capacity == self.multi_polygons.len()
        &&& c.multi_polygon.polygon_capacity == total_len(self.multi_polygons)
        &&& c.multi_polygon.ring_capacity == total_len2(self.multi_polygons)
        &&& c.multi_polygon.coord_capacity == total_len3(self.multi_polygons)
    }

    /// Whether the machine can count the room that these children take.
    pub open spec fn countable(self) -> bool {
        &&& self.points.len() <= usize::MAX
        &&& self.line_strings.len() <= usize::MAX
        &&& total_len(self.line_strings) <= usize::MAX
        &&& self.polygons.len() <= usize::MAX
        &&& total_len(self.polygons) <= usize::MAX
        &&& total_len2(self.polygons) <= usize::MAX
        &&& self.multi_points.len() <= usize::MAX
        &&& total_len(self.multi_points) <= usize::MAX
        &&& self.multi_line_strings.len() <= usize::MAX
        &&& total_len(self.multi_line_strings) <= usize::MAX
        &&& total_len2(self.multi_line_strings) <= usize::MAX
        &&& self.multi_polygons.len() <= usize::MAX
        &&& total_len(self.multi_polygons) <= usize::MAX
        &&& total_len2(self.multi_polygons) <= usize::MAX
        &&& total_len3(self.multi_polygons) <= usize::MAX
    }

    /// What stays within the limits of a builder, the machine can count.
    pub proof fn lemma_within_countable(self, width: OffsetWidth)
        requires
            self.within(width),
        ensures
            self.countable(),
    {
        assert(width.limit() <= usize::MAX);
        assert(i32::MAX + 1 <= usize::MAX);
    }

    /// What one more geometry adds to the totals of its child.
    pub proof fn lemma_with_totals(self, g: GeometryModel)
        ensures
            match g {
                GeometryModel::Point(_) => true,
                GeometryModel::LineString(l) => total_len(self.with(g).line_strings) == total_len(
                    self.line_strings,
                ) + l.len(),
                GeometryModel::Polygon(p) => total_len(self.with(g).polygons) == total_len(
                    self.polygons,
                ) + p.len() && total_len2(self.with(g).polygons) == total_len2(self.polygons)
                    + total_len(p),
                GeometryModel::MultiPoint(m) => total_len(self.with(g).multi_points) == total_len(
                    self.multi_points,
                ) + m.len(),
                GeometryModel::MultiLineString(m) => total_len(self.with(g).multi_line_strings)
                    == total_len(self.multi_line_strings) + m.len() && total_len2(
                    self.with(g).multi_line_strings,
                ) == total_len2(self.multi_line_strings) + total_len(m),
                GeometryModel::MultiPolygon(m) => total_len(self.with(g).multi_polygons)
                    == total_len(self.multi_polygons) + m.len() && total_len2(
                    self.with(g).multi_polygons,
                ) == total_len2(self.multi_polygons) + total_len(m) && total_len3(
                    self.with(g).multi_polygons,
                ) == total_len3(self.multi_polygons) + total_len2(m),
            },
            self.with(g).countable() ==> self.countable(),
    {
        match g {
            GeometryModel::Point(_) => {},
            GeometryModel::LineString(l) => {
                assert(self.line_strings.push(l).drop_last() =~= self.line_strings);
            },
            GeometryModel::Polygon(p) => {
                assert(self.polygons.push(p).drop_last() =~= self.polygons);
            },
            GeometryModel::MultiPoint(m) => {
                assert(self.multi_points.push(m).drop_last() =~= self.multi_points);
            },
            GeometryModel::MultiLineString(m) => {
                assert(self.multi_line_strings.push(m).drop_last() =~= self.multi_line_strings);
            },
            GeometryModel::MultiPolygon(m) => {
                assert(self.multi_polygons.push(m).drop_last() =~= self.multi_polygons);
            },
        }
    }
}

/// Where the machine can count the room of all geometries, it can count that of
/// every prefix.
pub proof fn lemma_countable_prefix(values: Seq<GeometryModel>, k: int)
    requires
        0 <= k <= values.len(),
        children_of(values).countable(),
    ensures
        children_of(values.take(k)).countable(),
    decreases values.len(),
{
    if k < values.len() {
        children_of(values.drop_last()).lemma_with_totals(values.last());
        lemma_countable_prefix(values.drop_last(), k);
        assert(values.drop_last().take(k) =~= values.take(k));
    } else {
        assert(values.take(k) =~= values);
    }
}

impl MixedCapacity {
    /// Whether children that take this much room stay within what a builder
    /// with offsets of `width` can hold.
    pub open spec fn spec_within(self, width: OffsetWidth) -> bool {
        &&& self.point <= i32::MAX + 1
        &&& self.line_string.geom_capacity <= i32::MAX + 1
        &&& self.line_string.coord_capacity <= width.limit()
        &&& self.polygon.geom_capacity <= i32::MAX + 1
        &&& self.polygon.ring_capacity <= width.limit()
        &&& self.polygon.coord_capacity <= width.limit()
        &&& self.multi_point.geom_capacity <= i32::MAX + 1
        &&& self.multi_point.coord_capacity <= width.limit()
        &&& self.multi_line_string.geom_capacity <= i32::MAX + 1
        &&& self.multi_line_string.ring_capacity <= width.limit()
        &&& self.multi_line_string.coord_capacity <= width.limit()
        &&& self.multi_polygon.geom_capacity <= i32::MAX + 1
        &&& self.multi_polygon.polygon_capacity <= width.limit()
        &&& self.multi_polygon.ring_capacity <= width.limit()
        &&& self.multi_polygon.coord_capacity <= width.limit()
    }

    /// Whether children that take this much room stay within what a builder
    /// with offsets of `width` can hold.
    pub fn within(&self, width: OffsetWidth) -> (b: bool)
        ensures
            b == self.spec_within(width),
    {
        let limit = width.max_offset();
        let most: u64 = 0x8000_0000;
        (self.point as u64) <= most && (self.line_string.geom_capacity as u64) <= most
            && self.line_string.coord_capacity <= limit && (self.polygon.geom_capacity as u64)
            <= most && self.polygon.ring_capacity <= limit && self.polygon.coord_capacity <= limit
            && (self.multi_point.geom_capacity as u64) <= most
            && self.multi_point.coord_capacity <= limit
            && (self.multi_line_string.geom_capacity as u64) <= most
            && self.multi_line_string.ring_capacity <= limit
            && self.multi_line_string.coord_capacity <= limit
            && (self.multi_polygon.geom_capacity as u64) <= most
            && self.multi_polygon.polygon_capacity <= limit
            && self.multi_polygon.ring_capacity <= limit
            && self.multi_polygon.coord_capacity <= limit
    }

    /// Counts one more geometry in the child of its shape.
    pub(crate) fn add_geometry<G: GeometryTrait>(
        self,
        value: Option<&G>,
        prefer_multi: bool,
        Ghost(before): Ghost<MixedChildren>,
    ) -> (r: Option<MixedCapacity>)
        requires
            before.room(self),
            value matches Some(g) ==> g.wf(),
        ensures
            ({
                let after = before.with(
                    geometry_element(
                        match value {
                            Some(g) => Some(g.model()),
                            None => None,
                        },
                        prefer_multi,
                    ),
                );
                &&& after.countable() ==> (r matches Some(c) && after.room(c))
                &&& !after.countable() ==> r is None
            }),
    {
        let mut c = self;
        let ghost element = geometry_element(
            match value {
                Some(g) => Some(g.model()),
                None => None,
            },
            prefer_multi,
        );
        proof {
            before.lemma_with_totals(element);
            lemma_total_len_empty::<Coord>();
        }
        match value {
            None => {
                c.multi_point.geom_capacity = match c.multi_point.geom_capacity.checked_add(1) {
                    Some(sum) => sum,
                    None => {
                        return None;
                    },
                };
            },
            Some(geometry) => match geometry.as_type() {
                GeometryType::Point(_) => {
                    if prefer_multi {
                        c.multi_point.geom_capacity = match c.multi_point.geom_capacity.checked_add(1) {
                            Some(sum) => sum,
                            None => {
                                return None;
                            },
                        };
                        c.multi_point.coord_capacity = match c.multi_point.coord_capacity.checked_add(1) {
                            Some(sum) => sum,
                            None => {
                                return None;
                            },
                        };
                    } else {
                        c.point = match c.point.checked_add(1) {
                            Some(sum) => sum,
                            None => {
                                return None;
                            },
                        };
                    }
                },
                GeometryType::LineString(l) => {
                    let coords = l.num_coords();
                    proof {
                        lemma_total_len_one(l.model());
                    }
                    if prefer_multi {
                        c.multi_line_string.geom_capacity = match c.multi_line_string.geom_capacity.checked_add(1) {
                            Some(sum) => sum,
                            None => {
                                return None;
                            },
                        };
                        c.multi_line_string.ring_capacity = match c.multi_line_string.ring_capacity.checked_add(1) {
                            Some(sum) => sum,
                            None => {
                                return None;
                            },
                        };
                        c.multi_line_string.coord_capacity = match c.multi_line_string.coord_capacity.checked_add(coords) {
                            Some(sum) => sum,
                            None => {
                                return None;
                            },
                        };
                    } else {
                        c.line_string.geom_capacity = match c.line_string.geom_capacity.checked_add(1) {
                            Some(sum) => sum,
                            None => {
                                return None;
                            },
                        };
                        c.line_string.coord_capacity = match c.line_string.coord_capacity.checked_add(coords) {
                            Some(sum) => sum,
                            None => {
                                return None;
                            },
                        };
                    }
                },
                GeometryType::Polygon(p) => {
                    let rings = polygon_num_rings(&p);
                    proof {
                        lemma_total_len_one(p.model());
                        lemma_total_len2_one(p.model());
                    }
                    let coords = match polygon_coord_count(&p) {
                        Some(n) => n,
                        None => {
                            return None;
                        },
                    };
                    if prefer_multi {
                        c.multi_polygon.geom_capacity = match c.multi_polygon.geom_capacity.checked_add(1) {
                            Some(sum) => sum,
                            None => {
                                return None;
                            },
                        };
                        c.multi_polygon.polygon_capacity = match c.multi_polygon.polygon_capacity.checked_add(1) {
                            Some(sum) => sum,
                            None => {
                                return None;
                            },
                        };
                        c.multi_polygon.ring_capacity = match c.multi_polygon.ring_capacity.checked_add(rings) {
                            Some(sum) => sum,
                            None => {
                                return None;
                            },
                        };
                        c.multi_polygon.coord_capacity = match c.multi_polygon.coord_capacity.checked_add(coords) {
                            Some(sum) => sum,
                            None => {
                                return None;
                            },
                        };
                    } else {
                        c.polygon.geom_capacity = match c.polygon.geom_capacity.checked_add(1) {
                            Some(sum) => sum,
                            None => {
                                return None;
                            },
                        };
                        c.polygon.ring_capacity = match c.polygon.ring_capacity.checked_add(rings) {
                            Some(sum) => sum,
                            None => {
                                return None;
                            },
                        };
                        c.polygon.coord_capacity = match c.polygon.coord_capacity.checked_add(coords) {
                            Some(sum) => sum,
                            None => {
                                return None;
                            },
                        };
                    }
                },
                GeometryType::MultiPoint(m) => {
                    c.multi_point.geom_capacity = match c.multi_point.geom_capacity.checked_add(1) {
                        Some(sum) => sum,
                        None => {
                            return None;
                        },
                    };
                    c.multi_point.coord_capacity = match c.multi_point.coord_capacity.checked_add(m.num_points()) {
                        Some(sum) => sum,
                        None => {
                            return None;
                        },
                    };
                },
                GeometryType::MultiLineString(m) => {
                    let coords = match multi_line_string_coord_count(&m) {
                        Some(n) => n,
                        None => {
                            return None;
                        },
                    };
                    c.multi_line_string.geom_capacity = match c.multi_line_string.geom_capacity.checked_add(1) {
                        Some(sum) => sum,
                        None => {
                            return None;
                        },
                    };
                    c.multi_line_string.ring_capacity = match c.multi_line_string.ring_capacity.checked_add(m.num_lines()) {
                        Some(sum) => sum,
                        None => {
                            return None;
                        },
                    };
                    c.multi_line_string.coord_capacity = match c.multi_line_string.coord_capacity.checked_add(coords) {
                        Some(sum) => sum,
                        None => {
                            return None;
                        },
                    };
                },
                GeometryType::MultiPolygon(m) => {
                    let (rings, coords) = match multi_polygon_counts(&m) {
                        Some(n) => n,
                        None => {
                            return None;
                        },
                    };
                    c.multi_polygon.geom_capacity = match c.multi_polygon.geom_capacity.checked_add(1) {
                        Some(sum) => sum,
                        None => {
                            return None;
                        },
                    };
                    c.multi_polygon.polygon_capacity = match c.multi_polygon.polygon_capacity.checked_add(m.num_polygons()) {
                        Some(sum) => sum,
                        None => {
                            return None;
                        },
                    };
                    c.multi_polygon.ring_capacity = match c.multi_polygon.ring_capacity.checked_add(rings) {
                        Some(sum) => sum,
                        None => {
                            return None;
                        },
                    };
                    c.multi_polygon.coord_capacity = match c.multi_polygon.coord_capacity.checked_add(coords) {
                        Some(sum) => sum,
                        None => {
                            return None;
                        },
                    };
                },
            },
        }
        Some(c)
    }

    /// The first pass over the input: how much room the children need for
    /// `geoms`, or `None` where the machine cannot count that much.
    pub fn from_geometries<G: GeometryTrait>(geoms: &[Option<G>], prefer_multi: bool) -> (r: Option<
        MixedCapacity,
    >)
        requires
            geometries_wf(geoms@),
        ensures
            ({
                let children = children_of(geometry_models(geoms@, prefer_multi));
                &&& children.countable() ==> (r matches Some(c) && children.room(c))
                &&& !children.countable() ==> r is None
            }),
    {
        let ghost target = geometry_models(geoms@, prefer_multi);
        let n = geoms.len();
        let mut c = MixedCapacity::new_empty();
        let mut i: usize = 0;
        proof {
            assert(target.take(0) =~= Seq::<GeometryModel>::empty());
            lemma_total_len_empty::<Coord>();
        }
        while i < n
            invariant
                geometries_wf(geoms@),
                n == geoms@.len(),
                target == geometry_models(geoms@, prefer_multi),
                i <= n,
                children_of(target.take(i as int)).room(c),
            decreases n - i,
        {
            proof {
                assert(target.take(i + 1) =~= target.take(i as int).push(target[i as int]));
                lemma_children_push(target.take(i as int), target[i as int], OffsetWidth::Small);
                if children_of(target).countable() {
                    lemma_countable_prefix(target, i + 1);
                }
            }
            let next = match &geoms[i] {
                Some(g) => c.add_geometry(Some(g), prefer_multi, Ghost(children_of(target.take(i as int)))),
                None => c.add_geometry::<G>(None, prefer_multi, Ghost(children_of(target.take(i as int)))),
            };
            c = match next {
                Some(c) => c,
                None => {
                    return None;
                },
            };
            i += 1;
        }
        proof {
            assert(target.take(n as int) =~= target);
        }
        Some(c)
    }
}

impl MixedGeometryBuilder {
    /// An empty builder with room for `geoms`, interleaved coordinates and no
    /// metadata.
    pub fn with_capacity_from_iter<G: GeometryTrait>(width: OffsetWidth, geoms: &[Option<G>]) -> (b:
        MixedGeometryBuilder)
        requires
            geometries_wf(geoms@),
        ensures
            b.wf(),
            b.values() == Seq::<GeometryModel>::empty(),
            b.validity_bits() == Seq::<bool>::empty(),
            b.spec_coord_type() == CoordType::Interleaved,
            b.spec_width() == width,
            !b.spec_prefer_multi(),
    {
        MixedGeometryBuilder::with_capacity_and_options_from_iter(
            width,
            geoms,
            CoordType::Interleaved,
            ArrayMetadata::new(),
            DEFAULT_PREFER_MULTI,
        )
    }

    /// An empty builder with room for `geoms`.
    pub fn with_capacity_and_options_from_iter<G: GeometryTrait>(
        width: OffsetWidth,
        geoms: &[Option<G>],
        coord_type: CoordType,
        metadata: ArrayMetadata,
        prefer_multi: bool,
    ) -> (b: MixedGeometryBuilder)
        requires
            geometries_wf(geoms@),
        ensures
            b.wf(),
            b.values() == Seq::<GeometryModel>::empty(),
            b.validity_bits() == Seq::<bool>::empty(),
            b.spec_coord_type() == coord_type,
            b.spec_width() == width,
            b.spec_metadata() == metadata,
            b.spec_prefer_multi() == prefer_multi,
    {
        let capacity = match MixedCapacity::from_geometries(geoms, prefer_multi) {
            Some(c) => c,
            None => MixedCapacity::new_empty(),
        };
        MixedGeometryBuilder::with_capacity_and_options(
            width,
            capacity,
            coord_type,
            metadata,
            prefer_multi,
        )
    }

    /// Makes room for `geoms`.
    pub fn reserve_from_iter<G: GeometryTrait>(&mut self, geoms: &[Option<G>])
        requires
            old(self).wf(),
            geometries_wf(geoms@),
        ensures
            final(self).wf(),
            final(self).values() == old(self).values(),
            final(self).validity_bits() == old(self).validity_bits(),
            final(self).spec_coord_type() == old(self).spec_coord_type(),
            final(self).spec_width() == old(self).spec_width(),
            final(self).spec_metadata() == old(self).spec_metadata(),
            final(self).spec_prefer_multi() == old(self).spec_prefer_multi(),
    {
        match MixedCapacity::from_geometries(geoms, self.prefer_multi) {
            Some(c) => self.reserve(c),
            None => {},
        }
    }

    /// Makes room for `geoms`.
    pub fn reserve_exact_from_iter<G: GeometryTrait>(&mut self, geoms: &[Option<G>])
        requires
            old(self).wf(),
            geometries_wf(geoms@),
        ensures
            final(self).wf(),
            final(self).values() == old(self).values(),
            final(self).validity_bits() == old(self).validity_bits(),
            final(self).spec_coord_type() == old(self).spec_coord_type(),
            final(self).spec_width() == old(self).spec_width(),
            final(self).spec_metadata() == old(self).spec_metadata(),
            final(self).spec_prefer_multi() == old(self).spec_prefer_multi(),
    {
        match MixedCapacity::from_geometries(geoms, self.prefer_multi) {
            Some(c) => self.reserve_exact(c),
            None => {},
        }
    }

    /// The second pass over the input: pushes `geoms` in order. Where one no
    /// longer fits, the result is [`GeoArrowError::IndexOverflow`] and the builder
    /// holds the elements before it.
    pub fn extend_from_iter<G: GeometryTrait>(&mut self, geoms: &[Option<G>]) -> (r: Result<
        (),
        GeoArrowError,
    >)
        requires
            old(self).wf(),
            geometries_wf(geoms@),
        ensures
            final(self).wf(),
            final(self).spec_coord_type() == old(self).spec_coord_type(),
            final(self).spec_width() == old(self).spec_width(),
            final(self).spec_metadata() == old(self).spec_metadata(),
            final(self).spec_prefer_multi() == old(self).spec_prefer_multi(),
            ({
                let more = geometry_models(geoms@, old(self).spec_prefer_multi());
                if all_fit(old(self).values() + more, old(self).spec_width()) {
                    &&& r is Ok
                    &&& final(self).values() == old(self).values() + more
                    &&& final(self).validity_bits() == old(self).validity_bits()
                        + geometry_presence(geoms@)
                } else {
                    &&& r == Err::<(), GeoArrowError>(GeoArrowError::IndexOverflow)
                    &&& exists|k: int|
                        {
                            &&& 0 <= k < more.len()
                            &&& final(self).values() == old(self).values() + #[trigger] more.take(k)
                            &&& final(self).validity_bits() == old(self).validity_bits()
                                + geometry_presence(geoms@).take(k)
                            &&& !all_fit(
                                old(self).values() + more.take(k + 1),
                                old(self).spec_width(),
                            )
                        }
                }
            }),
    {
        let ghost before = old(self).values();
        let ghost before_bits = old(self).validity_bits();
        let ghost more = geometry_models(geoms@, self.spec_prefer_multi());
        let ghost bits = geometry_presence(geoms@);
        let ghost width = self.spec_width();
        let n = geoms.len();
        let mut i: usize = 0;
        proof {
            assert(before + more.take(0) =~= before);
            assert(before_bits + bits.take(0) =~= before_bits);
        }
        while i < n
            invariant
                geometries_wf(geoms@),
                n == geoms@.len(),
                i <= n,
                before == old(self).values(),
                before_bits == old(self).validity_bits(),
                more == geometry_models(geoms@, old(self).spec_prefer_multi()),
                bits == geometry_presence(geoms@),
                width == old(self).spec_width(),
                self.wf(),
                self.values() == before + more.take(i as int),
                self.validity_bits() == before_bits + bits.take(i as int),
                self.spec_coord_type() == old(self).spec_coord_type(),
                self.spec_width() == old(self).spec_width(),
                self.spec_metadata() == old(self).spec_metadata(),
                self.spec_prefer_multi() == old(self).spec_prefer_multi(),
            decreases n - i,
        {
            let ghost here = self.values();
            proof {
                assert(before + more.take(i + 1) =~= (before + more.take(i as int)).push(
                    more[i as int],
                ));
                assert(before_bits + bits.take(i + 1) =~= (before_bits + bits.take(i as int)).push(
                    bits[i as int],
                ));
                lemma_children_push(here, more[i as int], width);
                if all_fit(before + more, width) {
                    assert((before + more).take(before.len() + i + 1) =~= before + more.take(i + 1));
                    lemma_all_fit_prefix(before + more, width, before.len() + i + 1);
                }
            }
            let pushed = match &geoms[i] {
                Some(g) => self.push_geometry(Some(g)),
                None => self.push_geometry::<G>(None),
            };
            match pushed {
                Ok(()) => {},
                Err(e) => {
                    proof {
                        self.lemma_fitted();
                    }
                    return Err(e);
                },
            }
            i += 1;
        }
        proof {
            assert(more.take(n as int) =~= more);
            assert(bits.take(n as int) =~= bits);
            self.lemma_fitted();
        }
        Ok(())
    }

    /// A builder filled with `geoms`, all present.
    pub fn from_geometries<G: GeometryTrait>(
        width: OffsetWidth,
        geoms: &[G],
        coord_type: CoordType,
        metadata: ArrayMetadata,
        prefer_multi: bool,
    ) -> (r: Result<MixedGeometryBuilder, GeoArrowError>)
        requires
            forall|i: int| 0 <= i < geoms@.len() ==> (#[trigger] geoms@[i]).wf(),
        ensures
            ({
                let target = Seq::new(
                    geoms@.len(),
                    |i: int| geometry_element(Some(geoms@[i].model()), prefer_multi),
                );
                if all_fit(target, width) {
                    &&& r matches Ok(b)
                    &&& b.wf()
                    &&& b.values() == target
                    &&& b.validity_bits() == Seq::new(geoms@.len(), |i: int| true)
                    &&& b.spec_width() == width
                    &&& b.spec_coord_type() == coord_type
                    &&& b.spec_metadata() == metadata
                    &&& b.spec_prefer_multi() == prefer_multi
                } else {
                    r == Err::<MixedGeometryBuilder, GeoArrowError>(GeoArrowError::IndexOverflow)
                }
            }),
    {
        let ghost target = Seq::new(
            geoms@.len(),
            |i: int| geometry_element(Some(geoms@[i].model()), prefer_multi),
        );
        let ghost bits = Seq::new(geoms@.len(), |i: int| true);
        let mut builder = MixedGeometryBuilder::new_with_options(
            width,
            coord_type,
            metadata,
            prefer_multi,
        );
        let n = geoms.len();
        let mut i: usize = 0;
        proof {
            assert(target.take(0) =~= Seq::<GeometryModel>::empty());
            assert(bits.take(0) =~= Seq::<bool>::empty());
        }
        while i < n
            invariant
                forall|j: int| 0 <= j < geoms@.len() ==> (#[trigger] geoms@[j]).wf(),
                n == geoms@.len(),
                i <= n,
                target == Seq::new(
                    geoms@.len(),
                    |i: int| geometry_element(Some(geoms@[i].model()), prefer_multi),
                ),
                bits == Seq::new(geoms@.len(), |i: int| true),
                builder.wf(),
                builder.values() == target.take(i as int),
                builder.validity_bits() == bits.take(i as int),
                builder.spec_width() == width,
                builder.spec_coord_type() == coord_type,
                builder.spec_metadata() == metadata,
                builder.spec_prefer_multi() == prefer_multi,
            decreases n - i,
        {
            proof {
                assert(target.take(i + 1) =~= target.take(i as int).push(target[i as int]));
                assert(bits.take(i + 1) =~= bits.take(i as int).push(bits[i as int]));
                lemma_children_push(target.take(i as int), target[i as int], width);
                if all_fit(target, width) {
                    lemma_all_fit_prefix(target, width, i + 1);
                }
            }
            match builder.push_geometry(Some(&geoms[i])) {
                Ok(()) => {},
                Err(e) => {
                    return Err(e);
                },
            }
            i += 1;
        }
        proof {
            assert(target.take(n as int) =~= target);
            assert(bits.take(n as int) =~= bits);
            builder.lemma_fitted();
        }
        Ok(builder)
    }

    /// A builder filled with `geoms`, in two passes: the first counts what the
    /// children must hold, the second fills them.
    pub fn from_nullable_geometries<G: GeometryTrait>(
        width: OffsetWidth,
        geoms: &[Option<G>],
        coord_type: CoordType,
        metadata: ArrayMetadata,
        prefer_multi: bool,
    ) -> (r: Result<MixedGeometryBuilder, GeoArrowError>)
        requires
            geometries_wf(geoms@),
        ensures
            ({
                let target = geometry_models(geoms@, prefer_multi);
                if all_fit(target, width) {
                    &&& r matches Ok(b)
                    &&& b.wf()
                    &&& b.values() == target
                    &&& b.validity_bits() == geometry_presence(geoms@)
                    &&& b.spec_width() == width
                    &&& b.spec_coord_type() == coord_type
                    &&& b.spec_metadata() == metadata
                    &&& b.spec_prefer_multi() == prefer_multi
                } else {
                    r == Err::<MixedGeometryBuilder, GeoArrowError>(GeoArrowError::IndexOverflow)
                }
            }),
    {
        let mut builder = MixedGeometryBuilder::with_capacity_and_options_from_iter(
            width,
            geoms,
            coord_type,
            metadata,
            prefer_multi,
        );
        proof {
            let target = geometry_models(geoms@, prefer_multi);
            assert(Seq::<GeometryModel>::empty() + target =~= target);
            assert(Seq::<bool>::empty() + geometry_presence(geoms@) =~= geometry_presence(geoms@));
        }
        match builder.extend_from_iter(geoms) {
            Ok(()) => Ok(builder),
            Err(e) => Err(e),
        }
    }
}

} // verus!
