//! Taking geometries out of arrays: copies that own their coordinates.

use vstd::prelude::*;
use crate::coord::Coord;
use crate::geo_traits::{
    LineStringTrait, MultiLineStringTrait, MultiPointTrait, MultiPolygonTrait, PointTrait,
    PolygonTrait, polygon_num_rings, polygon_ring, seq2, seq3,
};
use crate::geometry::{Geometry, GeometryModel, GeometryTrait, GeometryType};

verus! {

/// The coordinate of a point.
pub fn point_to_geo<P: PointTrait>(point: &P) -> (c: Coord)
    requires
        point.wf(),
    ensures
        c == point.model(),
{
    Coord { x: point.x(), y: point.y() }
}

/// The coordinates of a line string.
pub fn line_string_to_geo<L: LineStringTrait>(line: &L) -> (v: Vec<Coord>)
    requires
        line.wf(),
    ensures
        v@ == line.model(),
{
    let n = line.num_coords();
    let mut out: Vec<Coord> = Vec::with_capacity(n);
    let mut i: usize = 0;
    while i < n
        invariant
            line.wf(),
            n == line.model().len(),
            i <= n,
            out@ == line.model().take(i as int),
        decreases n - i,
    {
        out.push(line.coord(i).unwrap());
        assert(out@ =~= line.model().take(i + 1));
        i += 1;
    }
    assert(line.model().take(n as int) =~= line.model());
    out
}

/// The rings of a polygon.
pub fn polygon_to_geo<P: PolygonTrait>(polygon: &P) -> (v: Vec<Vec<Coord>>)
    requires
        polygon.wf(),
    ensures
        seq2(v@) == polygon.model(),
{
    let n = polygon_num_rings(polygon);
    let mut out: Vec<Vec<Coord>> = Vec::with_capacity(n);
    let mut i: usize = 0;
    while i < n
        invariant
            polygon.wf(),
            n == polygon.model().len(),
            i <= n,
            seq2(out@) == polygon.model().take(i as int),
        decreases n - i,
    {
        let ring = polygon_ring(polygon, i);
        let ghost before = seq2(out@);
        out.push(line_string_to_geo(&ring));
        assert(seq2(out@) =~= before.push(polygon.model()[i as int]));
        assert(seq2(out@) =~= polygon.model().take(i + 1));
        i += 1;
    }
    assert(polygon.model().take(n as int) =~= polygon.model());
    out
}

/// The points of a multi point.
pub fn multi_point_to_geo<M: MultiPointTrait>(points: &M) -> (v: Vec<Coord>)
    requires
        points.wf(),
    ensures
        v@ == points.model(),
{
    let n = points.num_points();
    let mut out: Vec<Coord> = Vec::with_capacity(n);
    let mut i: usize = 0;
    while i < n
        invariant
            points.wf(),
            n == points.model().len(),
            i <= n,
            out@ == points.model().take(i as int),
        decreases n - i,
    {
        let p = points.point(i).unwrap();
        out.push(Coord { x: p.x(), y: p.y() });
        assert(out@ =~= points.model().take(i + 1));
        i += 1;
    }
    assert(points.model().take(n as int) =~= points.model());
    out
}

/// The line strings of a multi line string.
pub fn multi_line_string_to_geo<M: MultiLineStringTrait>(lines: &M) -> (v: Vec<Vec<Coord>>)
    requires
        lines.wf(),
    ensures
        seq2(v@) == lines.model(),
{
    let n = lines.num_lines();
    let mut out: Vec<Vec<Coord>> = Vec::with_capacity(n);
    let mut i: usize = 0;
    while i < n
        invariant
            lines.wf(),
            n == lines.model().len(),
            i <= n,
            seq2(out@) == lines.model().take(i as int),
        decreases n - i,
    {
        let line = lines.line(i).unwrap();
        let ghost before = seq2(out@);
        out.push(line_string_to_geo(&line));
        assert(seq2(out@) =~= before.push(lines.model()[i as int]));
        assert(seq2(out@) =~= lines.model().take(i + 1));
        i += 1;
    }
    assert(lines.model().take(n as int) =~= lines.model());
    out
}

/// The polygons of a multi polygon.
pub fn multi_polygon_to_geo<M: MultiPolygonTrait>(polygons: &M) -> (v: Vec<Vec<Vec<Coord>>>)
    requires
        polygons.wf(),
    ensures
        seq3(v@) == polygons.model(),
{
    let n = polygons.num_polygons();
    let mut out: Vec<Vec<Vec<Coord>>> = Vec::with_capacity(n);
    let mut i: usize = 0;
    while i < n
        invariant
            polygons.wf(),
            n == polygons.model().len(),
            i <= n,
            seq3(out@) == polygons.model().take(i as int),
        decreases n - i,
    {
        let polygon = polygons.polygon(i).unwrap();
        let ghost before = seq3(out@);
        out.push(polygon_to_geo(&polygon));
        assert(seq3(out@) =~= before.push(polygons.model()[i as int]));
        assert(seq3(out@) =~= polygons.model().take(i + 1));
        i += 1;
    }
    assert(polygons.model().take(n as int) =~= polygons.model());
    out
}

/// A geometry of any of the six simple shapes.
pub fn geometry_to_geo<G: GeometryTrait>(geometry: &G) -> (g: Geometry)
    requires
        geometry.wf(),
    ensures
        g@ == geometry.model(),
{
    match geometry.as_type() {
        GeometryType::Point(p) => Geometry::Point(point_to_geo(&p)),
        GeometryType::LineString(l) => Geometry::LineString(line_string_to_geo(&l)),
        GeometryType::Polygon(p) => Geometry::Polygon(polygon_to_geo(&p)),
        GeometryType::MultiPoint(m) => Geometry::MultiPoint(multi_point_to_geo(&m)),
        GeometryType::MultiLineString(m) => Geometry::MultiLineString(multi_line_string_to_geo(&m)),
        GeometryType::MultiPolygon(m) => Geometry::MultiPolygon(multi_polygon_to_geo(&m)),
    }
}

} // verus!
