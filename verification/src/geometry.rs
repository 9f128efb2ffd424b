//! Geometries of any of the six simple shapes: the mathematical values, values
//! that own their coordinates, and the trait through which builders read them.

use vstd::prelude::*;
use crate::coord::Coord;
use crate::datatypes::Shape;
use crate::geo_traits::{
    LineStringTrait, MultiLineStringTrait, MultiPointTrait, MultiPolygonTrait, PointTrait,
    PolygonTrait, seq2, seq3,
};

verus! {

/// A geometry of one of the six simple shapes, as a mathematical value.
pub enum GeometryModel {
    /// A point.
    Point(Coord),
    /// A line string: its coordinates.
    LineString(Seq<Coord>),
    /// A polygon: its rings, the exterior first.
    Polygon(Seq<Seq<Coord>>),
    /// A multi point: its points.
    MultiPoint(Seq<Coord>),
    /// A multi line string: its line strings.
    MultiLineString(Seq<Seq<Coord>>),
    /// A multi polygon: its polygons.
    MultiPolygon(Seq<Seq<Seq<Coord>>>),
}

impl GeometryModel {
    /// The shape of the geometry.
    pub open spec fn shape(self) -> Shape {
        match self {
            GeometryModel::Point(_) => Shape::Point,
            GeometryModel::LineString(_) => Shape::LineString,
            GeometryModel::Polygon(_) => Shape::Polygon,
            GeometryModel::MultiPoint(_) => Shape::MultiPoint,
            GeometryModel::MultiLineString(_) => Shape::MultiLineString,
            GeometryModel::MultiPolygon(_) => Shape::MultiPolygon,
        }
    }
}

/// A geometry seen through the accessors of its shape.
pub enum GeometryType<P, L, Y, MP, ML, MY> {
    /// A point.
    Point(P),
    /// A line string.
    LineString(L),
    /// A polygon.
    Polygon(Y),
    /// A multi point.
    MultiPoint(MP),
    /// A multi line string.
    MultiLineString(ML),
    /// A multi polygon.
    MultiPolygon(MY),
}

/// A value that can be read as a geometry of one of the six simple shapes.
pub trait GeometryTrait {
    /// The type it is read through when it is a point.
    type Point: PointTrait;

    /// The type it is read through when it is a line string.
    type LineString: LineStringTrait;

    /// The type it is read through when it is a polygon.
    type Polygon: PolygonTrait;

    /// The type it is read through when it is a multi point.
    type MultiPoint: MultiPointTrait;

    /// The type it is read through when it is a multi line string.
    type MultiLineString: MultiLineStringTrait;

    /// The type it is read through when it is a multi polygon.
    type MultiPolygon: MultiPolygonTrait;

    /// The value is in a state in which it can be read.
    spec fn wf(&self) -> bool;

    /// The geometry that the value stands for.
    spec fn model(&self) -> GeometryModel;

    /// The value behind the accessors of its shape.
    fn as_type(&self) -> (t: GeometryType<
        Self::Point,
        Self::LineString,
        Self::Polygon,
        Self::MultiPoint,
        Self::MultiLineString,
        Self::MultiPolygon,
    >)
        requires
            self.wf(),
        ensures
            match t {
                GeometryType::Point(g) => g.wf() && self.model() == GeometryModel::Point(g.model()),
                GeometryType::LineString(g) => g.wf() && self.model() == GeometryModel::LineString(
                    g.model(),
                ),
                GeometryType::Polygon(g) => g.wf() && self.model() == GeometryModel::Polygon(
                    g.model(),
                ),
                GeometryType::MultiPoint(g) => g.wf() && self.model() == GeometryModel::MultiPoint(
                    g.model(),
                ),
                GeometryType::MultiLineString(g) => g.wf() && self.model()
                    == GeometryModel::MultiLineString(g.model()),
                GeometryType::MultiPolygon(g) => g.wf() && self.model()
                    == GeometryModel::MultiPolygon(g.model()),
            },
    ;
}

/// A geometry of one of the six simple shapes that owns its coordinates.
#[derive(Debug)]
pub enum Geometry {
    /// A point.
    Point(Coord),
    /// A line string: its coordinates.
    LineString(Vec<Coord>),
    /// A polygon: its rings, the exterior first.
    Polygon(Vec<Vec<Coord>>),
    /// A multi point: its points.
    MultiPoint(Vec<Coord>),
    /// A multi line string: its line strings.
    MultiLineString(Vec<Vec<Coord>>),
    /// A multi polygon: its polygons.
    MultiPolygon(Vec<Vec<Vec<Coord>>>),
}

impl View for Geometry {
    type V = GeometryModel;

    open spec fn view(&self) -> GeometryModel {
        match self {
            Geometry::Point(c) => GeometryModel::Point(*c),
            Geometry::LineString(v) => GeometryModel::LineString(v@),
            Geometry::Polygon(v) => GeometryModel::Polygon(seq2(v@)),
            Geometry::MultiPoint(v) => GeometryModel::MultiPoint(v@),
            Geometry::MultiLineString(v) => GeometryModel::MultiLineString(seq2(v@)),
            Geometry::MultiPolygon(v) => GeometryModel::MultiPolygon(seq3(v@)),
        }
    }
}

impl<'a> GeometryTrait for &'a Geometry {
    type Point = Coord;

    type LineString = &'a Vec<Coord>;

    type Polygon = &'a Vec<Vec<Coord>>;

    type MultiPoint = &'a Vec<Coord>;

    type MultiLineString = &'a Vec<Vec<Coord>>;

    type MultiPolygon = &'a Vec<Vec<Vec<Coord>>>;

    open spec fn wf(&self) -> bool {
        true
    }

    open spec fn model(&self) -> GeometryModel {
        self@
    }

    fn as_type(&self) -> (t: GeometryType<
        Coord,
        &'a Vec<Coord>,
        &'a Vec<Vec<Coord>>,
        &'a Vec<Coord>,
        &'a Vec<Vec<Coord>>,
        &'a Vec<Vec<Vec<Coord>>>,
    >) {
        match self {
            Geometry::Point(c) => GeometryType::Point(*c),
            Geometry::LineString(v) => GeometryType::LineString(v),
            Geometry::Polygon(v) => GeometryType::Polygon(v),
            Geometry::MultiPoint(v) => GeometryType::MultiPoint(v),
            Geometry::MultiLineString(v) => GeometryType::MultiLineString(v),
            Geometry::MultiPolygon(v) => GeometryType::MultiPolygon(v),
        }
    }
}

/// The geometries behind a sequence of owned geometries.
pub open spec fn models(v: Seq<Geometry>) -> Seq<GeometryModel> {
    v.map_values(|g: Geometry| g@)
}

/// A value that can be read as a collection of geometries of the six simple
/// shapes.
pub trait GeometryCollectionTrait {
    /// The type its members are read through.
    type Item: GeometryTrait;

    /// The value is in a state in which it can be read.
    spec fn wf(&self) -> bool;

    /// The members that the value stands for, in order.
    spec fn model(&self) -> Seq<GeometryModel>;

    /// The number of members.
    fn num_geometries(&self) -> (n: usize)
        requires
            self.wf(),
        ensures
            n == self.model().len(),
    ;

    /// Member `i`, or `None` where `i` is out of bounds.
    fn geometry(&self, i: usize) -> (g: Option<Self::Item>)
        requires
            self.wf(),
        ensures
            i < self.model().len() ==> (g matches Some(x) && x.wf() && x.model()
                == self.model()[i as int]),
            i >= self.model().len() ==> g is None,
    ;
}

impl<'a> GeometryCollectionTrait for &'a Vec<Geometry> {
    type Item = &'a Geometry;

    open spec fn wf(&self) -> bool {
        true
    }

    open spec fn model(&self) -> Seq<GeometryModel> {
        models(self@)
    }

    fn num_geometries(&self) -> (n: usize) {
        self.len()
    }

    fn geometry(&self, i: usize) -> (g: Option<&'a Geometry>) {
        if i < self.len() {
            Some(&self[i])
        } else {
            None
        }
    }
}

/// A geometry of one of the six simple shapes, or a collection of such
/// geometries, as a mathematical value.
pub enum AnyGeometryModel {
    /// A geometry of one of the six simple shapes.
    Geometry(GeometryModel),
    /// A collection: its members.
    GeometryCollection(Seq<GeometryModel>),
}

/// A geometry of one of the six simple shapes, or a collection of such
/// geometries, that owns its coordinates.
#[derive(Debug)]
pub enum AnyGeometry {
    /// A geometry of one of the six simple shapes.
    Geometry(Geometry),
    /// A collection: its members.
    GeometryCollection(Vec<Geometry>),
}

impl View for AnyGeometry {
    type V = AnyGeometryModel;

    open spec fn view(&self) -> AnyGeometryModel {
        match self {
            AnyGeometry::Geometry(g) => AnyGeometryModel::Geometry(g@),
            AnyGeometry::GeometryCollection(ms) => AnyGeometryModel::GeometryCollection(
                models(ms@),
            ),
        }
    }
}

} // verus!
