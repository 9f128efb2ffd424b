//! The scalar of arrays of mixed shape.

use vstd::prelude::*;
use crate::geo_traits::{
    LineStringTrait, MultiLineStringTrait, MultiPointTrait, MultiPolygonTrait, PointTrait,
    PolygonTrait,
};
use crate::geometry::{GeometryModel, GeometryTrait, GeometryType};
use crate::scalar::linestring::LineString;
use crate::scalar::multilinestring::MultiLineString;
use crate::scalar::multipoint::MultiPoint;
use crate::scalar::multipolygon::MultiPolygon;
use crate::scalar::point::Point;
use crate::scalar::polygon::Polygon;

verus! {

/// One geometry of an array of mixed shape, read in place.
#[derive(Clone, Copy)]
pub enum Geometry<'a> {
    /// A point.
    Point(Point<'a>),
    /// A line string.
    LineString(LineString<'a>),
    /// A polygon.
    Polygon(Polygon<'a>),
    /// A multi point.
    MultiPoint(MultiPoint<'a>),
    /// A multi line string.
    MultiLineString(MultiLineString<'a>),
    /// A multi polygon.
    MultiPolygon(MultiPolygon<'a>),
}

impl<'a> GeometryTrait for Geometry<'a> {
    type Point = Point<'a>;

    type LineString = LineString<'a>;

    type Polygon = Polygon<'a>;

    type MultiPoint = MultiPoint<'a>;

    type MultiLineString = MultiLineString<'a>;

    type MultiPolygon = MultiPolygon<'a>;

    open spec fn wf(&self) -> bool {
        match self {
            Geometry::Point(g) => g.wf(),
            Geometry::LineString(g) => g.wf(),
            Geometry::Polygon(g) => g.wf(),
            Geometry::MultiPoint(g) => g.wf(),
            Geometry::MultiLineString(g) => g.wf(),
            Geometry::MultiPolygon(g) => g.wf(),
        }
    }

    open spec fn model(&self) -> GeometryModel {
        match self {
            Geometry::Point(g) => GeometryModel::Point(g.model()),
            Geometry::LineString(g) => GeometryModel::LineString(g.model()),
            Geometry::Polygon(g) => GeometryModel::Polygon(g.model()),
            Geometry::MultiPoint(g) => GeometryModel::MultiPoint(g.model()),
            Geometry::MultiLineString(g) => GeometryModel::MultiLineString(g.model()),
            Geometry::MultiPolygon(g) => GeometryModel::MultiPolygon(g.model()),
        }
    }

    fn as_type(&self) -> (t: GeometryType<
        Point<'a>,
        LineString<'a>,
        Polygon<'a>,
        MultiPoint<'a>,
        MultiLineString<'a>,
        MultiPolygon<'a>,
    >) {
        match self {
            Geometry::Point(g) => GeometryType::Point(*g),
            Geometry::LineString(g) => GeometryType::LineString(*g),
            Geometry::Polygon(g) => GeometryType::Polygon(*g),
            Geometry::MultiPoint(g) => GeometryType::MultiPoint(*g),
            Geometry::MultiLineString(g) => GeometryType::MultiLineString(*g),
            Geometry::MultiPolygon(g) => GeometryType::MultiPolygon(*g),
        }
    }
}

} // verus!
