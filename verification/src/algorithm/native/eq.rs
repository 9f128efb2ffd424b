//! Equality of geometries: two geometries are equal when they have the same
//! parts in the same order, down to the bits of their coordinates.

use vstd::prelude::*;
use crate::coord::Coord;
use crate::geo_traits::{
    LineStringTrait, MultiLineStringTrait, MultiPointTrait, MultiPolygonTrait, PointTrait,
    PolygonTrait, polygon_num_rings, polygon_ring,
};
use crate::geometry::{GeometryModel, GeometryTrait, GeometryType};

verus! {

/// Whether two points are equal.
pub fn point_eq<A: PointTrait, B: PointTrait>(left: &A, right: &B) -> (b: bool)
    requires
        left.wf(),
        right.wf(),
    ensures
        b == (left.model() == right.model()),
{
    left.x() == right.x() && left.y() == right.y()
}

/// Whether two line strings are equal.
pub fn line_string_eq<A: LineStringTrait, B: LineStringTrait>(left: &A, right: &B) -> (b: bool)
    requires
        left.wf(),
        right.wf(),
    ensures
        b == (left.model() == right.model()),
{
    let n = left.num_coords();
    if n != right.num_coords() {
        return false;
    }
    let mut i: usize = 0;
    while i < n
        invariant
            left.wf(),
            right.wf(),
            n == left.model().len(),
            n == right.model().len(),
            i <= n,
            forall|j: int| 0 <= j < i ==> left.model()[j] == right.model()[j],
        decreases n - i,
    {
        let a = left.coord(i).unwrap();
        let b = right.coord(i).unwrap();
        if a.x != b.x || a.y != b.y {
            assert(left.model()[i as int] != right.model()[i as int]);
            return false;
        }
        i += 1;
    }
    assert(left.model() =~= right.model());
    true
}

/// Whether two polygons are equal.
pub fn polygon_eq<A: PolygonTrait, B: PolygonTrait>(left: &A, right: &B) -> (b: bool)
    requires
        left.wf(),
        right.wf(),
    ensures
        b == (left.model() == right.model()),
{
    let n = polygon_num_rings(left);
    if n != polygon_num_rings(right) {
        return false;
    }
    let mut i: usize = 0;
    while i < n
        invariant
            left.wf(),
            right.wf(),
            n == left.model().len(),
            n == right.model().len(),
            i <= n,
            forall|j: int| 0 <= j < i ==> left.model()[j] == right.model()[j],
        decreases n - i,
    {
        let a = polygon_ring(left, i);
        let b = polygon_ring(right, i);
        if !line_string_eq(&a, &b) {
            assert(left.model()[i as int] != right.model()[i as int]);
            return false;
        }
        i += 1;
    }
    assert(left.model() =~= right.model());
    true
}

/// Whether two multi points are equal.
pub fn multi_point_eq<A: MultiPointTrait, B: MultiPointTrait>(left: &A, right: &B) -> (b: bool)
    requires
        left.wf(),
        right.wf(),
    ensures
        b == (left.model() == right.model()),
{
    let n = left.num_points();
    if n != right.num_points() {
        return false;
    }
    let mut i: usize = 0;
    while i < n
        invariant
            left.wf(),
            right.wf(),
            n == left.model().len(),
            n == right.model().len(),
            i <= n,
            forall|j: int| 0 <= j < i ==> left.model()[j] == right.model()[j],
        decreases n - i,
    {
        let a = left.point(i).unwrap();
        let b = right.point(i).unwrap();
        if !point_eq(&a, &b) {
            assert(left.model()[i as int] != right.model()[i as int]);
            return false;
        }
        i += 1;
    }
    assert(left.model() =~= right.model());
    true
}

/// Whether two multi line strings are equal.
pub fn multi_line_string_eq<A: MultiLineStringTrait, B: MultiLineStringTrait>(
    left: &A,
    right: &B,
) -> (b: bool)
    requires
        left.wf(),
        right.wf(),
    ensures
        b == (left.model() == right.model()),
{
    let n = left.num_lines();
    if n != right.num_lines() {
        return false;
    }
    let mut i: usize = 0;
    while i < n
        invariant
            left.wf(),
            right.wf(),
            n == left.model().len(),
            n == right.model().len(),
            i <= n,
            forall|j: int| 0 <= j < i ==> left.model()[j] == right.model()[j],
        decreases n - i,
    {
        let a = left.line(i).unwrap();
        let b = right.line(i).unwrap();
        if !line_string_eq(&a, &b) {
            assert(left.model()[i as int] != right.model()[i as int]);
            return false;
        }
        i += 1;
    }
    assert(left.model() =~= right.model());
    true
}

/// Whether two multi polygons are equal.
pub fn multi_polygon_eq<A: MultiPolygonTrait, B: MultiPolygonTrait>(left: &A, right: &B) -> (b:
    bool)
    requires
        left.wf(),
        right.wf(),
    ensures
        b == (left.model() == right.model()),
{
    let n = left.num_polygons();
    if n != right.num_polygons() {
        return false;
    }
    let mut i: usize = 0;
    while i < n
        invariant
            left.wf(),
            right.wf(),
            n == left.model().len(),
            n == right.model().len(),
            i <= n,
            forall|j: int| 0 <= j < i ==> left.model()[j] == right.model()[j],
        decreases n - i,
    {
        let a = left.polygon(i).unwrap();
        let b = right.polygon(i).unwrap();
        if !polygon_eq(&a, &b) {
            assert(left.model()[i as int] != right.model()[i as int]);
            return false;
        }
        i += 1;
    }
    assert(left.model() =~= right.model());
    true
}

/// Whether two geometries are equal: they have the same shape and the same
/// parts.
pub fn geometry_eq<A: GeometryTrait, B: GeometryTrait>(left: &A, right: &B) -> (b: bool)
    requires
        left.wf(),
        right.wf(),
    ensures
        b == (left.model() == right.model()),
{
    match (left.as_type(), right.as_type()) {
        (GeometryType::Point(a), GeometryType::Point(b)) => point_eq(&a, &b),
        (GeometryType::LineString(a), GeometryType::LineString(b)) => line_string_eq(&a, &b),
        (GeometryType::Polygon(a), GeometryType::Polygon(b)) => polygon_eq(&a, &b),
        (GeometryType::MultiPoint(a), GeometryType::MultiPoint(b)) => multi_point_eq(&a, &b),
        (GeometryType::MultiLineString(a), GeometryType::MultiLineString(b)) => {
            multi_line_string_eq(&a, &b)
        },
        (GeometryType::MultiPolygon(a), GeometryType::MultiPolygon(b)) => multi_polygon_eq(&a, &b),
        _ => false,
    }
}

} // verus!
