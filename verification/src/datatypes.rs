//! The logical types of geometry arrays.

use vstd::prelude::*;
use crate::coord::CoordType;
use crate::offsets::OffsetWidth;

verus! {

/// How many ordinates a coordinate has. Arrays hold two-dimensional coordinates;
/// the other tag exists to name what is turned away.
#[derive(Clone, Copy, Debug, PartialEq, Eq, Structural)]
pub enum Dimension {
    /// Two ordinates: `x` and `y`.
    XY,
    /// Three ordinates: `x`, `y` and `z`.
    XYZ,
}

/// The logical type of a geometry array: its shape, the width of its offsets
/// (`Large` variants use 64-bit offsets) and the layout of its coordinates.
#[derive(Clone, Copy, Debug, PartialEq, Eq, Structural)]
pub enum GeoDataType {
    /// Points.
    Point(CoordType),
    /// Line strings with 32-bit offsets.
    LineString(CoordType),
    /// Line strings with 64-bit offsets.
    LargeLineString(CoordType),
    /// Polygons with 32-bit offsets.
    Polygon(CoordType),
    /// Polygons with 64-bit offsets.
    LargePolygon(CoordType),
    /// Multi points with 32-bit offsets.
    MultiPoint(CoordType),
    /// Multi points with 64-bit offsets.
    LargeMultiPoint(CoordType),
    /// Multi line strings with 32-bit offsets.
    MultiLineString(CoordType),
    /// Multi line strings with 64-bit offsets.
    LargeMultiLineString(CoordType),
    /// Multi polygons with 32-bit offsets.
    MultiPolygon(CoordType),
    /// Multi polygons with 64-bit offsets.
    LargeMultiPolygon(CoordType),
    /// Geometries of mixed shape with 32-bit offsets.
    Mixed(CoordType),
    /// Geometries of mixed shape with 64-bit offsets.
    LargeMixed(CoordType),
    /// Geometry collections with 32-bit offsets.
    GeometryCollection(CoordType),
    /// Geometry collections with 64-bit offsets.
    LargeGeometryCollection(CoordType),
    /// Well-known binary with 32-bit offsets.
    WKB,
    /// Well-known binary with 64-bit offsets.
    LargeWKB,
    /// Axis-aligned rectangles.
    Rect,
}

/// The eight shapes of geometry arrays.
#[derive(Clone, Copy, Debug, PartialEq, Eq, Structural)]
pub enum Shape {
    /// One coordinate.
    Point,
    /// A sequence of coordinates.
    LineString,
    /// A sequence of rings.
    Polygon,
    /// A sequence of points.
    MultiPoint,
    /// A sequence of line strings.
    MultiLineString,
    /// A sequence of polygons.
    MultiPolygon,
    /// Any of the six shapes above, element by element.
    Mixed,
    /// A sequence of geometries of the six shapes above.
    GeometryCollection,
}

impl GeoDataType {
    /// The shape of the arrays of this type, where it is one of the eight.
    pub open spec fn spec_shape(self) -> Option<Shape> {
        match self {
            GeoDataType::Point(_) => Some(Shape::Point),
            GeoDataType::LineString(_) | GeoDataType::LargeLineString(_) => Some(Shape::LineString),
            GeoDataType::Polygon(_) | GeoDataType::LargePolygon(_) => Some(Shape::Polygon),
            GeoDataType::MultiPoint(_) | GeoDataType::LargeMultiPoint(_) => Some(Shape::MultiPoint),
            GeoDataType::MultiLineString(_) | GeoDataType::LargeMultiLineString(_) => Some(
                Shape::MultiLineString,
            ),
            GeoDataType::MultiPolygon(_) | GeoDataType::LargeMultiPolygon(_) => Some(
                Shape::MultiPolygon,
            ),
            GeoDataType::Mixed(_) | GeoDataType::LargeMixed(_) => Some(Shape::Mixed),
            GeoDataType::GeometryCollection(_) | GeoDataType::LargeGeometryCollection(_) => Some(
                Shape::GeometryCollection,
            ),
            _ => None,
        }
    }

    /// The width of the offsets of the arrays of this type. Points and rectangles
    /// have no offsets and count as `Small`.
    pub open spec fn spec_width(self) -> OffsetWidth {
        match self {
            GeoDataType::LargeLineString(_)
            | GeoDataType::LargePolygon(_)
            | GeoDataType::LargeMultiPoint(_)
            | GeoDataType::LargeMultiLineString(_)
            | GeoDataType::LargeMultiPolygon(_)
            | GeoDataType::LargeMixed(_)
            | GeoDataType::LargeGeometryCollection(_)
            | GeoDataType::LargeWKB => OffsetWidth::Large,
            _ => OffsetWidth::Small,
        }
    }

    /// The coordinate layout of the arrays of this type, where they hold
    /// coordinate buffers.
    pub open spec fn spec_coord_type(self) -> Option<CoordType> {
        match self {
            GeoDataType::Point(ct)
            | GeoDataType::LineString(ct)
            | GeoDataType::LargeLineString(ct)
            | GeoDataType::Polygon(ct)
            | GeoDataType::LargePolygon(ct)
            | GeoDataType::MultiPoint(ct)
            | GeoDataType::LargeMultiPoint(ct)
            | GeoDataType::MultiLineString(ct)
            | GeoDataType::LargeMultiLineString(ct)
            | GeoDataType::MultiPolygon(ct)
            | GeoDataType::LargeMultiPolygon(ct)
            | GeoDataType::Mixed(ct)
            | GeoDataType::LargeMixed(ct)
            | GeoDataType::GeometryCollection(ct)
            | GeoDataType::LargeGeometryCollection(ct) => Some(ct),
            _ => None,
        }
    }

    /// The shape of the arrays of this type, where it is one of the eight.
    pub fn shape(self) -> (s: Option<Shape>)
        ensures
            s == self.spec_shape(),
    {
        match self {
            GeoDataType::Point(_) => Some(Shape::Point),
            GeoDataType::LineString(_) | GeoDataType::LargeLineString(_) => Some(Shape::LineString),
            GeoDataType::Polygon(_) | GeoDataType::LargePolygon(_) => Some(Shape::Polygon),
            GeoDataType::MultiPoint(_) | GeoDataType::LargeMultiPoint(_) => Some(Shape::MultiPoint),
            GeoDataType::MultiLineString(_) | GeoDataType::LargeMultiLineString(_) => Some(
                Shape::MultiLineString,
            ),
            GeoDataType::MultiPolygon(_) | GeoDataType::LargeMultiPolygon(_) => Some(
                Shape::MultiPolygon,
            ),
            GeoDataType::Mixed(_) | GeoDataType::LargeMixed(_) => Some(Shape::Mixed),
            GeoDataType::GeometryCollection(_) | GeoDataType::LargeGeometryCollection(_) => Some(
                Shape::GeometryCollection,
            ),
            _ => None,
        }
    }

    /// The width of the offsets of the arrays of this type.
    pub fn width(self) -> (w: OffsetWidth)
        ensures
            w == self.spec_width(),
    {
        match self {
            GeoDataType::LargeLineString(_)
            | GeoDataType::LargePolygon(_)
            | GeoDataType::LargeMultiPoint(_)
            | GeoDataType::LargeMultiLineString(_)
            | GeoDataType::LargeMultiPolygon(_)
            | GeoDataType::LargeMixed(_)
            | GeoDataType::LargeGeometryCollection(_)
            | GeoDataType::LargeWKB => OffsetWidth::Large,
            _ => OffsetWidth::Small,
        }
    }

    /// The coordinate layout of the arrays of this type, where they hold
    /// coordinate buffers.
    pub fn coord_type(self) -> (t: Option<CoordType>)
        ensures
            t == self.spec_coord_type(),
    {
        match self {
            GeoDataType::Point(ct)
            | GeoDataType::LineString(ct)
            | GeoDataType::LargeLineString(ct)
            | GeoDataType::Polygon(ct)
            | GeoDataType::LargePolygon(ct)
            | GeoDataType::MultiPoint(ct)
            | GeoDataType::LargeMultiPoint(ct)
            | GeoDataType::MultiLineString(ct)
            | GeoDataType::LargeMultiLineString(ct)
            | GeoDataType::MultiPolygon(ct)
            | GeoDataType::LargeMultiPolygon(ct)
            | GeoDataType::Mixed(ct)
            | GeoDataType::LargeMixed(ct)
            | GeoDataType::GeometryCollection(ct)
            | GeoDataType::LargeGeometryCollection(ct) => Some(ct),
            _ => None,
        }
    }

    /// The type of the arrays of shape `shape`, offset width `width` and
    /// coordinate layout `coord_type`.
    pub fn of(shape: Shape, width: OffsetWidth, coord_type: CoordType) -> (t: GeoDataType)
        ensures
            t.spec_shape() == Some(shape),
            t.spec_coord_type() == Some(coord_type),
            shape != Shape::Point ==> t.spec_width() == width,
    {
        match (shape, width) {
            (Shape::Point, _) => GeoDataType::Point(coord_type),
            (Shape::LineString, OffsetWidth::Small) => GeoDataType::LineString(coord_type),
            (Shape::LineString, OffsetWidth::Large) => GeoDataType::LargeLineString(coord_type),
            (Shape::Polygon, OffsetWidth::Small) => GeoDataType::Polygon(coord_type),
            (Shape::Polygon, OffsetWidth::Large) => GeoDataType::LargePolygon(coord_type),
            (Shape::MultiPoint, OffsetWidth::Small) => GeoDataType::MultiPoint(coord_type),
            (Shape::MultiPoint, OffsetWidth::Large) => GeoDataType::LargeMultiPoint(coord_type),
            (Shape::MultiLineString, OffsetWidth::Small) => GeoDataType::MultiLineString(
                coord_type,
            ),
            (Shape::MultiLineString, OffsetWidth::Large) => GeoDataType::LargeMultiLineString(
                coord_type,
            ),
            (Shape::MultiPolygon, OffsetWidth::Small) => GeoDataType::MultiPolygon(coord_type),
            (Shape::MultiPolygon, OffsetWidth::Large) => GeoDataType::LargeMultiPolygon(coord_type),
            (Shape::Mixed, OffsetWidth::Small) => GeoDataType::Mixed(coord_type),
            (Shape::Mixed, OffsetWidth::Large) => GeoDataType::LargeMixed(coord_type),
            (Shape::GeometryCollection, OffsetWidth::Small) => GeoDataType::GeometryCollection(
                coord_type,
            ),
            (Shape::GeometryCollection, OffsetWidth::Large) => GeoDataType::LargeGeometryCollection(
                coord_type,
            ),
        }
    }
}

} // verus!
