//! Writing well-known binary.
//!
//! The bytes of a geometry are given as functions of the geometry and the byte
//! order. The writers are proved to append exactly those bytes, and the reader is
//! proved to read every geometry back from them.

use vstd::prelude::*;
use crate::coord::Coord;
use crate::error::GeoArrowError;
use crate::geo_traits::{
    LineStringTrait, MultiLineStringTrait, MultiPointTrait, MultiPolygonTrait, PointTrait,
    PolygonTrait, polygon_num_rings, polygon_ring,
};
use crate::geometry::{
    AnyGeometry, AnyGeometryModel, Geometry, GeometryModel, GeometryTrait, GeometryType, models,
};
use crate::io::wkb::common::{
    Endianness, coord_bytes, get_coord, get_u32, get_u8, has_at, lemma_get_coord, lemma_get_u32,
    lemma_has_at_split, lemma_u32_round_trip, u32_bytes, write_coord, write_u32,
};
use crate::io::wkb::reader::{
    WKB_GEOMETRY_COLLECTION, WKB_LINE_STRING, WKB_MULTI_LINE_STRING, WKB_MULTI_POINT,
    WKB_MULTI_POLYGON, WKB_POINT, WKB_POLYGON, WKB_SHAPE_BITS, WKB_SRID_FLAG, WKB_ZM_FLAGS,
    classify, decoded, get_body, get_coords, get_geometry, get_header, get_line, get_line_item,
    get_lines, get_member, get_members, get_multi_line_string, get_multi_point,
    get_multi_polygon, get_point_item, get_points, get_polygon, get_polygon_item, get_polygons,
    get_rings, prepend,
};

verus! {

/// The size of a point in well-known binary: a byte order, a type code and two
/// doubles.
pub const POINT_WKB_SIZE: usize = 1 + 4 + 8 + 8;

/// The bytes of a header: the flag of byte order `e`, then type code `code`.
pub open spec fn header_bytes(e: Endianness, code: u32) -> Seq<u8> {
    seq![e.spec_flag()] + u32_bytes(code, e)
}

/// Appends the header of a geometry of type code `code` in byte order `e`.
pub fn write_header(out: &mut Vec<u8>, e: Endianness, code: u32)
    ensures
        final(out)@ == old(out)@ + header_bytes(e, code),
{
    out.push(e.flag());
    write_u32(out, code, e);
    assert(out@ =~= old(out)@ + header_bytes(e, code));
}

/// Where a header of a shape from `1` to `7` stands, it is read.
pub proof fn lemma_get_header(b: Seq<u8>, pos: int, e: Endianness, code: u32)
    requires
        1 <= code <= 7,
        has_at(b, pos, header_bytes(e, code)),
    ensures
        header_bytes(e, code).len() == 5,
        get_header(b, pos) == Ok::<((Endianness, u32), int), GeoArrowError>(((e, code), pos + 5)),
{
    lemma_u32_round_trip(code, e);
    lemma_has_at_split(b, pos, seq![e.spec_flag()], u32_bytes(code, e));
    assert(b[pos] == b.subrange(pos, pos + 1)[0]);
    lemma_get_u32(b, pos + 1, code, e);
    assert(code & WKB_ZM_FLAGS == 0 && code & WKB_SHAPE_BITS == code && code & WKB_SRID_FLAG == 0)
        by (bit_vector)
        requires
            1 <= code <= 7,
            WKB_ZM_FLAGS == 0xc000_0000u32,
            WKB_SHAPE_BITS == 0x1fff_ffffu32,
            WKB_SRID_FLAG == 0x2000_0000u32,
    ;
}

/// A count fits the 32 bits that the format gives it.
pub open spec fn count_ok(n: nat) -> bool {
    n <= u32::MAX
}

/// The bytes of coordinates, one after the other.
pub open spec fn coords_bytes(items: Seq<Coord>, e: Endianness) -> Seq<u8>
    decreases items.len(),
{
    if items.len() == 0 {
        Seq::empty()
    } else {
        coord_bytes(items[0], e) + coords_bytes(items.drop_first(), e)
    }
}

/// One more item appends its bytes.
pub proof fn lemma_coords_bytes_push(items: Seq<Coord>, item: Coord, e: Endianness)
    ensures
        coords_bytes(items.push(item), e) == coords_bytes(items, e) + coord_bytes(item, e),
    decreases items.len(),
{
    if items.len() == 0 {
        assert(items.push(item).drop_first() =~= Seq::<Coord>::empty());
        assert(coords_bytes(Seq::<Coord>::empty(), e) =~= Seq::<u8>::empty());
        assert(coords_bytes(items.push(item), e) =~= coord_bytes(item, e));
        assert(coords_bytes(items, e) + coord_bytes(item, e) =~= coord_bytes(item, e));
    } else {
        lemma_coords_bytes_push(items.drop_first(), item, e);
        assert(items.push(item).drop_first() =~= items.drop_first().push(item));
        assert(coords_bytes(items.push(item), e) =~= coords_bytes(items, e) + coord_bytes(
            item,
            e,
        ));
    }
}

/// Where the bytes of coordinates stand, they are read back.
#[verifier::spinoff_prover]
#[verifier::rlimit(60)]
pub proof fn lemma_get_coords(b: Seq<u8>, pos: int, items: Seq<Coord>, e: Endianness)
    requires
        has_at(b, pos, coords_bytes(items, e)),
    ensures
        get_coords(b, pos, e, items.len()) == Ok::<(Seq<Coord>, int), GeoArrowError>(
            (items, pos + coords_bytes(items, e).len()),
        ),
    decreases items.len(),
{
    if items.len() > 0 {
        let first = coord_bytes(items[0], e);
        let rest = coords_bytes(items.drop_first(), e);
        let tail = items.drop_first();
        assert(coords_bytes(items, e) == first + rest);
        lemma_has_at_split(b, pos, first, rest);
        lemma_get_coord(b, pos, items[0], e);
        lemma_get_coords(b, pos + first.len(), tail, e);
        assert(tail.len() == (items.len() - 1) as nat);
        assert(seq![items[0]] + tail =~= items);
        assert(get_coords(b, pos, e, items.len()) == prepend(
            seq![items[0]],
            get_coords(b, pos + first.len(), e, (items.len() - 1) as nat),
        ));
    } else {
        assert(items =~= Seq::<Coord>::empty());
        assert(coords_bytes(items, e) =~= Seq::<u8>::empty());
    }
}

/// The payload of a line string: the count of its coordinates, then the
/// coordinates.
pub open spec fn line_bytes(line: Seq<Coord>, e: Endianness) -> Seq<u8> {
    u32_bytes(line.len() as u32, e) + coords_bytes(line, e)
}

/// A line string can be written: its coordinates can be counted.
pub open spec fn line_ok(line: Seq<Coord>) -> bool {
    count_ok(line.len())
}

/// Where the payload of a line string stands, it is read back.
pub proof fn lemma_get_line(b: Seq<u8>, pos: int, line: Seq<Coord>, e: Endianness)
    requires
        has_at(b, pos, line_bytes(line, e)),
        line_ok(line),
    ensures
        get_line(b, pos, e) == Ok::<(Seq<Coord>, int), GeoArrowError>(
            (line, pos + line_bytes(line, e).len()),
        ),
{
    lemma_u32_round_trip(line.len() as u32, e);
    lemma_has_at_split(b, pos, u32_bytes(line.len() as u32, e), coords_bytes(line, e));
    lemma_get_u32(b, pos, line.len() as u32, e);
    lemma_get_coords(b, pos + 4, line, e);
}

/// The bytes of rings, one after the other.
pub open spec fn rings_bytes(items: Seq<Seq<Coord>>, e: Endianness) -> Seq<u8>
    decreases items.len(),
{
    if items.len() == 0 {
        Seq::empty()
    } else {
        line_bytes(items[0], e) + rings_bytes(items.drop_first(), e)
    }
}

/// Every one of the rings can be written.
pub open spec fn rings_ok(items: Seq<Seq<Coord>>) -> bool {
    forall|i: int| 0 <= i < items.len() ==> line_ok(#[trigger] items[i])
}

/// One more item appends its bytes.
pub proof fn lemma_rings_bytes_push(items: Seq<Seq<Coord>>, item: Seq<Coord>, e: Endianness)
    ensures
        rings_bytes(items.push(item), e) == rings_bytes(items, e) + line_bytes(item, e),
    decreases items.len(),
{
    if items.len() == 0 {
        assert(items.push(item).drop_first() =~= Seq::<Seq<Coord>>::empty());
        assert(rings_bytes(Seq::<Seq<Coord>>::empty(), e) =~= Seq::<u8>::empty());
        assert(rings_bytes(items.push(item), e) =~= line_bytes(item, e));
        assert(rings_bytes(items, e) + line_bytes(item, e) =~= line_bytes(item, e));
    } else {
        lemma_rings_bytes_push(items.drop_first(), item, e);
        assert(items.push(item).drop_first() =~= items.drop_first().push(item));
        assert(rings_bytes(items.push(item), e) =~= rings_bytes(items, e) + line_bytes(
            item,
            e,
        ));
    }
}

/// Where the bytes of rings stand, they are read back.
#[verifier::spinoff_prover]
#[verifier::rlimit(60)]
pub proof fn lemma_get_rings(b: Seq<u8>, pos: int, items: Seq<Seq<Coord>>, e: Endianness)
    requires
        has_at(b, pos, rings_bytes(items, e)),
        rings_ok(items),
    ensures
        get_rings(b, pos, e, items.len()) == Ok::<(Seq<Seq<Coord>>, int), GeoArrowError>(
            (items, pos + rings_bytes(items, e).len()),
        ),
    decreases items.len(),
{
    if items.len() > 0 {
        let first = line_bytes(items[0], e);
        let rest = rings_bytes(items.drop_first(), e);
        let tail = items.drop_first();
        assert(rings_bytes(items, e) == first + rest);
        lemma_has_at_split(b, pos, first, rest);
        assert(rings_ok(items.drop_first()));
        assert(line_ok(items[0]));
        lemma_get_line(b, pos, items[0], e);
        lemma_get_rings(b, pos + first.len(), tail, e);
        assert(tail.len() == (items.len() - 1) as nat);
        assert(seq![items[0]] + tail =~= items);
        assert(get_rings(b, pos, e, items.len()) == prepend(
            seq![items[0]],
            get_rings(b, pos + first.len(), e, (items.len() - 1) as nat),
        ));
    } else {
        assert(items =~= Seq::<Seq<Coord>>::empty());
        assert(rings_bytes(items, e) =~= Seq::<u8>::empty());
    }
}

/// The payload of a polygon: the count of its rings, then the rings.
pub open spec fn polygon_bytes(polygon: Seq<Seq<Coord>>, e: Endianness) -> Seq<u8> {
    u32_bytes(polygon.len() as u32, e) + rings_bytes(polygon, e)
}

/// A polygon can be written: its rings can be counted and each can be written.
pub open spec fn polygon_ok(polygon: Seq<Seq<Coord>>) -> bool {
    count_ok(polygon.len()) && rings_ok(polygon)
}

/// Where the payload of a polygon stands, it is read back.
pub proof fn lemma_get_polygon(b: Seq<u8>, pos: int, polygon: Seq<Seq<Coord>>, e: Endianness)
    requires
        has_at(b, pos, polygon_bytes(polygon, e)),
        polygon_ok(polygon),
    ensures
        get_polygon(b, pos, e) == Ok::<(Seq<Seq<Coord>>, int), GeoArrowError>(
            (polygon, pos + polygon_bytes(polygon, e).len()),
        ),
{
    lemma_u32_round_trip(polygon.len() as u32, e);
    lemma_has_at_split(b, pos, u32_bytes(polygon.len() as u32, e), rings_bytes(polygon, e));
    lemma_get_u32(b, pos, polygon.len() as u32, e);
    lemma_get_rings(b, pos + 4, polygon, e);
}

/// The bytes of a whole point: its header, then its payload.
pub open spec fn point_item_bytes(item: Coord, e: Endianness) -> Seq<u8> {
    header_bytes(e, WKB_POINT) + coord_bytes(item, e)
}

/// Where the bytes of a whole point stand, it is read back.
pub proof fn lemma_get_point_item(b: Seq<u8>, pos: int, item: Coord, e: Endianness)
    requires
        has_at(b, pos, point_item_bytes(item, e)),
    ensures
        get_point_item(b, pos) == Ok::<(Coord, int), GeoArrowError>(
            (item, pos + point_item_bytes(item, e).len()),
        ),
{
    lemma_has_at_split(b, pos, header_bytes(e, WKB_POINT), coord_bytes(item, e));
    lemma_get_header(b, pos, e, WKB_POINT);
    lemma_get_coord(b, pos + 5, item, e);
}

/// The bytes of a whole line string: its header, then its payload.
pub open spec fn line_item_bytes(item: Seq<Coord>, e: Endianness) -> Seq<u8> {
    header_bytes(e, WKB_LINE_STRING) + line_bytes(item, e)
}

/// Where the bytes of a whole line string stand, it is read back.
pub proof fn lemma_get_line_item(b: Seq<u8>, pos: int, item: Seq<Coord>, e: Endianness)
    requires
        has_at(b, pos, line_item_bytes(item, e)),
        line_ok(item),
    ensures
        get_line_item(b, pos) == Ok::<(Seq<Coord>, int), GeoArrowError>(
            (item, pos + line_item_bytes(item, e).len()),
        ),
{
    lemma_has_at_split(b, pos, header_bytes(e, WKB_LINE_STRING), line_bytes(item, e));
    lemma_get_header(b, pos, e, WKB_LINE_STRING);
    lemma_get_line(b, pos + 5, item, e);
}

/// The bytes of a whole polygon: its header, then its payload.
pub open spec fn polygon_item_bytes(item: Seq<Seq<Coord>>, e: Endianness) -> Seq<u8> {
    header_bytes(e, WKB_POLYGON) + polygon_bytes(item, e)
}

/// Where the bytes of a whole polygon stand, it is read back.
pub proof fn lemma_get_polygon_item(b: Seq<u8>, pos: int, item: Seq<Seq<Coord>>, e: Endianness)
    requires
        has_at(b, pos, polygon_item_bytes(item, e)),
        polygon_ok(item),
    ensures
        get_polygon_item(b, pos) == Ok::<(Seq<Seq<Coord>>, int), GeoArrowError>(
            (item, pos + polygon_item_bytes(item, e).len()),
        ),
{
    lemma_has_at_split(b, pos, header_bytes(e, WKB_POLYGON), polygon_bytes(item, e));
    lemma_get_header(b, pos, e, WKB_POLYGON);
    lemma_get_polygon(b, pos + 5, item, e);
}

/// The bytes of whole points, one after the other.
pub open spec fn points_bytes(items: Seq<Coord>, e: Endianness) -> Seq<u8>
    decreases items.len(),
{
    if items.len() == 0 {
        Seq::empty()
    } else {
        point_item_bytes(items[0], e) + points_bytes(items.drop_first(), e)
    }
}

/// One more item appends its bytes.
pub proof fn lemma_points_bytes_push(items: Seq<Coord>, item: Coord, e: Endianness)
    ensures
        points_bytes(items.push(item), e) == points_bytes(items, e) + point_item_bytes(item, e),
    decreases items.len(),
{
    if items.len() == 0 {
        assert(items.push(item).drop_first() =~= Seq::<Coord>::empty());
        assert(points_bytes(Seq::<Coord>::empty(), e) =~= Seq::<u8>::empty());
        assert(points_bytes(items.push(item), e) =~= point_item_bytes(item, e));
        assert(points_bytes(items, e) + point_item_bytes(item, e) =~= point_item_bytes(item, e));
    } else {
        lemma_points_bytes_push(items.drop_first(), item, e);
        assert(items.push(item).drop_first() =~= items.drop_first().push(item));
        assert(points_bytes(items.push(item), e) =~= points_bytes(items, e) + point_item_bytes(
            item,
            e,
        ));
    }
}

/// Where the bytes of whole points stand, they are read back.
#[verifier::spinoff_prover]
#[verifier::rlimit(60)]
pub proof fn lemma_get_points(b: Seq<u8>, pos: int, items: Seq<Coord>, e: Endianness)
    requires
        has_at(b, pos, points_bytes(items, e)),
    ensures
        get_points(b, pos, items.len()) == Ok::<(Seq<Coord>, int), GeoArrowError>(
            (items, pos + points_bytes(items, e).len()),
        ),
    decreases items.len(),
{
    if items.len() > 0 {
        let first = point_item_bytes(items[0], e);
        let rest = points_bytes(items.drop_first(), e);
        let tail = items.drop_first();
        assert(points_bytes(items, e) == first + rest);
        lemma_has_at_split(b, pos, first, rest);
        lemma_get_point_item(b, pos, items[0], e);
        lemma_get_points(b, pos + first.len(), tail, e);
        assert(tail.len() == (items.len() - 1) as nat);
        assert(seq![items[0]] + tail =~= items);
        assert(get_points(b, pos, items.len()) == prepend(
            seq![items[0]],
            get_points(b, pos + first.len(), (items.len() - 1) as nat),
        ));
    } else {
        assert(items =~= Seq::<Coord>::empty());
        assert(points_bytes(items, e) =~= Seq::<u8>::empty());
    }
}

/// The bytes of whole line strings, one after the other.
pub open spec fn lines_bytes(items: Seq<Seq<Coord>>, e: Endianness) -> Seq<u8>
    decreases items.len(),
{
    if items.len() == 0 {
        Seq::empty()
    } else {
        line_item_bytes(items[0], e) + lines_bytes(items.drop_first(), e)
    }
}

/// Every one of the whole line strings can be written.
pub open spec fn lines_ok(items: Seq<Seq<Coord>>) -> bool {
    forall|i: int| 0 <= i < items.len() ==> line_ok(#[trigger] items[i])
}

/// One more item appends its bytes.
pub proof fn lemma_lines_bytes_push(items: Seq<Seq<Coord>>, item: Seq<Coord>, e: Endianness)
    ensures
        lines_bytes(items.push(item), e) == lines_bytes(items, e) + line_item_bytes(item, e),
    decreases items.len(),
{
    if items.len() == 0 {
        assert(items.push(item).drop_first() =~= Seq::<Seq<Coord>>::empty());
        assert(lines_bytes(Seq::<Seq<Coord>>::empty(), e) =~= Seq::<u8>::empty());
        assert(lines_bytes(items.push(item), e) =~= line_item_bytes(item, e));
        assert(lines_bytes(items, e) + line_item_bytes(item, e) =~= line_item_bytes(item, e));
    } else {
        lemma_lines_bytes_push(items.drop_first(), item, e);
        assert(items.push(item).drop_first() =~= items.drop_first().push(item));
        assert(lines_bytes(items.push(item), e) =~= lines_bytes(items, e) + line_item_bytes(
            item,
            e,
        ));
    }
}

/// Where the bytes of whole line strings stand, they are read back.
#[verifier::spinoff_prover]
#[verifier::rlimit(60)]
pub proof fn lemma_get_lines(b: Seq<u8>, pos: int, items: Seq<Seq<Coord>>, e: Endianness)
    requires
        has_at(b, pos, lines_bytes(items, e)),
        lines_ok(items),
    ensures
        get_lines(b, pos, items.len()) == Ok::<(Seq<Seq<Coord>>, int), GeoArrowError>(
            (items, pos + lines_bytes(items, e).len()),
        ),
    decreases items.len(),
{
    if items.len() > 0 {
        let first = line_item_bytes(items[0], e);
        let rest = lines_bytes(items.drop_first(), e);
        let tail = items.drop_first();
        assert(lines_bytes(items, e) == first + rest);
        lemma_has_at_split(b, pos, first, rest);
        assert(lines_ok(items.drop_first()));
        assert(line_ok(items[0]));
        lemma_get_line_item(b, pos, items[0], e);
        lemma_get_lines(b, pos + first.len(), tail, e);
        assert(tail.len() == (items.len() - 1) as nat);
        assert(seq![items[0]] + tail =~= items);
        assert(get_lines(b, pos, items.len()) == prepend(
            seq![items[0]],
            get_lines(b, pos + first.len(), (items.len() - 1) as nat),
        ));
    } else {
        assert(items =~= Seq::<Seq<Coord>>::empty());
        assert(lines_bytes(items, e) =~= Seq::<u8>::empty());
    }
}

/// The bytes of whole polygons, one after the other.
pub open spec fn polygons_bytes(items: Seq<Seq<Seq<Coord>>>, e: Endianness) -> Seq<u8>
    decreases items.len(),
{
    if items.len() == 0 {
        Seq::empty()
    } else {
        polygon_item_bytes(items[0], e) + polygons_bytes(items.drop_first(), e)
    }
}

/// Every one of the whole polygons can be written.
pub open spec fn polygons_ok(items: Seq<Seq<Seq<Coord>>>) -> bool {
    forall|i: int| 0 <= i < items.len() ==> polygon_ok(#[trigger] items[i])
}

/// One more item appends its bytes.
pub proof fn lemma_polygons_bytes_push(items: Seq<Seq<Seq<Coord>>>, item: Seq<Seq<Coord>>, e: Endianness)
    ensures
        polygons_bytes(items.push(item), e) == polygons_bytes(items, e) + polygon_item_bytes(item, e),
    decreases items.len(),
{
    if items.len() == 0 {
        assert(items.push(item).drop_first() =~= Seq::<Seq<Seq<Coord>>>::empty());
        assert(polygons_bytes(Seq::<Seq<Seq<Coord>>>::empty(), e) =~= Seq::<u8>::empty());
        assert(polygons_bytes(items.push(item), e) =~= polygon_item_bytes(item, e));
        assert(polygons_bytes(items, e) + polygon_item_bytes(item, e) =~= polygon_item_bytes(item, e));
    } else {
        lemma_polygons_bytes_push(items.drop_first(), item, e);
        assert(items.push(item).drop_first() =~= items.drop_first().push(item));
        assert(polygons_bytes(items.push(item), e) =~= polygons_bytes(items, e) + polygon_item_bytes(
            item,
            e,
        ));
    }
}

/// Where the bytes of whole polygons stand, they are read back.
#[verifier::spinoff_prover]
#[verifier::rlimit(60)]
pub proof fn lemma_get_polygons(b: Seq<u8>, pos: int, items: Seq<Seq<Seq<Coord>>>, e: Endianness)
    requires
        has_at(b, pos, polygons_bytes(items, e)),
        polygons_ok(items),
    ensures
        get_polygons(b, pos, items.len()) == Ok::<(Seq<Seq<Seq<Coord>>>, int), GeoArrowError>(
            (items, pos + polygons_bytes(items, e).len()),
        ),
    decreases items.len(),
{
    if items.len() > 0 {
        let first = polygon_item_bytes(items[0], e);
        let rest = polygons_bytes(items.drop_first(), e);
        let tail = items.drop_first();
        assert(polygons_bytes(items, e) == first + rest);
        lemma_has_at_split(b, pos, first, rest);
        assert(polygons_ok(items.drop_first()));
        assert(polygon_ok(items[0]));
        lemma_get_polygon_item(b, pos, items[0], e);
        lemma_get_polygons(b, pos + first.len(), tail, e);
        assert(tail.len() == (items.len() - 1) as nat);
        assert(seq![items[0]] + tail =~= items);
        assert(get_polygons(b, pos, items.len()) == prepend(
            seq![items[0]],
            get_polygons(b, pos + first.len(), (items.len() - 1) as nat),
        ));
    } else {
        assert(items =~= Seq::<Seq<Seq<Coord>>>::empty());
        assert(polygons_bytes(items, e) =~= Seq::<u8>::empty());
    }
}

/// The type code of a geometry.
pub open spec fn code_of(g: GeometryModel) -> u32 {
    match g {
        GeometryModel::Point(_) => WKB_POINT,
        GeometryModel::LineString(_) => WKB_LINE_STRING,
        GeometryModel::Polygon(_) => WKB_POLYGON,
        GeometryModel::MultiPoint(_) => WKB_MULTI_POINT,
        GeometryModel::MultiLineString(_) => WKB_MULTI_LINE_STRING,
        GeometryModel::MultiPolygon(_) => WKB_MULTI_POLYGON,
    }
}

/// The payload of a geometry: what follows its header.
pub open spec fn body_bytes(g: GeometryModel, e: Endianness) -> Seq<u8> {
    match g {
        GeometryModel::Point(c) => coord_bytes(c, e),
        GeometryModel::LineString(l) => line_bytes(l, e),
        GeometryModel::Polygon(p) => polygon_bytes(p, e),
        GeometryModel::MultiPoint(m) => u32_bytes(m.len() as u32, e) + points_bytes(m, e),
        GeometryModel::MultiLineString(m) => u32_bytes(m.len() as u32, e) + lines_bytes(m, e),
        GeometryModel::MultiPolygon(m) => u32_bytes(m.len() as u32, e) + polygons_bytes(m, e),
    }
}

/// A geometry can be written: on every level its parts can be counted in 32
/// bits.
pub open spec fn geometry_ok(g: GeometryModel) -> bool {
    match g {
        GeometryModel::Point(_) => true,
        GeometryModel::LineString(l) => line_ok(l),
        GeometryModel::Polygon(p) => polygon_ok(p),
        GeometryModel::MultiPoint(m) => count_ok(m.len()),
        GeometryModel::MultiLineString(m) => count_ok(m.len()) && lines_ok(m),
        GeometryModel::MultiPolygon(m) => count_ok(m.len()) && polygons_ok(m),
    }
}

/// The bytes of a whole geometry in byte order `e`: its header, then its
/// payload. Parts that are whole geometries themselves are written in the same
/// byte order.
pub open spec fn geometry_bytes(g: GeometryModel, e: Endianness) -> Seq<u8> {
    header_bytes(e, code_of(g)) + body_bytes(g, e)
}

/// Where the payload of a geometry stands, the geometry is read back.
pub proof fn lemma_get_body(b: Seq<u8>, pos: int, g: GeometryModel, e: Endianness)
    requires
        has_at(b, pos, body_bytes(g, e)),
        geometry_ok(g),
    ensures
        get_body(b, pos, e, code_of(g)) == Ok::<(GeometryModel, int), GeoArrowError>(
            (g, pos + body_bytes(g, e).len()),
        ),
{
    match g {
        GeometryModel::Point(c) => {
            lemma_get_coord(b, pos, c, e);
        },
        GeometryModel::LineString(l) => {
            lemma_get_line(b, pos, l, e);
        },
        GeometryModel::Polygon(p) => {
            lemma_get_polygon(b, pos, p, e);
        },
        GeometryModel::MultiPoint(m) => {
            lemma_u32_round_trip(m.len() as u32, e);
            lemma_has_at_split(b, pos, u32_bytes(m.len() as u32, e), points_bytes(m, e));
            lemma_get_u32(b, pos, m.len() as u32, e);
            lemma_get_points(b, pos + 4, m, e);
        },
        GeometryModel::MultiLineString(m) => {
            lemma_u32_round_trip(m.len() as u32, e);
            lemma_has_at_split(b, pos, u32_bytes(m.len() as u32, e), lines_bytes(m, e));
            lemma_get_u32(b, pos, m.len() as u32, e);
            lemma_get_lines(b, pos + 4, m, e);
        },
        GeometryModel::MultiPolygon(m) => {
            lemma_u32_round_trip(m.len() as u32, e);
            lemma_has_at_split(b, pos, u32_bytes(m.len() as u32, e), polygons_bytes(m, e));
            lemma_get_u32(b, pos, m.len() as u32, e);
            lemma_get_polygons(b, pos + 4, m, e);
        },
    }
}

/// Where the bytes of a whole geometry stand, it is read back as a member of a
/// collection.
pub proof fn lemma_get_member(b: Seq<u8>, pos: int, g: GeometryModel, e: Endianness)
    requires
        has_at(b, pos, geometry_bytes(g, e)),
        geometry_ok(g),
    ensures
        get_member(b, pos) == Ok::<(GeometryModel, int), GeoArrowError>(
            (g, pos + geometry_bytes(g, e).len()),
        ),
{
    lemma_has_at_split(b, pos, header_bytes(e, code_of(g)), body_bytes(g, e));
    lemma_get_header(b, pos, e, code_of(g));
    lemma_get_body(b, pos + 5, g, e);
}

/// The bytes of members of a collection, one after the other.
pub open spec fn members_bytes(items: Seq<GeometryModel>, e: Endianness) -> Seq<u8>
    decreases items.len(),
{
    if items.len() == 0 {
        Seq::empty()
    } else {
        geometry_bytes(items[0], e) + members_bytes(items.drop_first(), e)
    }
}

/// Every one of the members of a collection can be written.
pub open spec fn members_ok(items: Seq<GeometryModel>) -> bool {
    forall|i: int| 0 <= i < items.len() ==> geometry_ok(#[trigger] items[i])
}

/// One more item appends its bytes.
pub proof fn lemma_members_bytes_push(items: Seq<GeometryModel>, item: GeometryModel, e: Endianness)
    ensures
        members_bytes(items.push(item), e) == members_bytes(items, e) + geometry_bytes(item, e),
    decreases items.len(),
{
    if items.len() == 0 {
        assert(items.push(item).drop_first() =~= Seq::<GeometryModel>::empty());
        assert(members_bytes(Seq::<GeometryModel>::empty(), e) =~= Seq::<u8>::empty());
        assert(members_bytes(items.push(item), e) =~= geometry_bytes(item, e));
        assert(members_bytes(items, e) + geometry_bytes(item, e) =~= geometry_bytes(item, e));
    } else {
        lemma_members_bytes_push(items.drop_first(), item, e);
        assert(items.push(item).drop_first() =~= items.drop_first().push(item));
        assert(members_bytes(items.push(item), e) =~= members_bytes(items, e) + geometry_bytes(
            item,
            e,
        ));
    }
}

/// Where the bytes of members of a collection stand, they are read back.
#[verifier::spinoff_prover]
#[verifier::rlimit(60)]
pub proof fn lemma_get_members(b: Seq<u8>, pos: int, items: Seq<GeometryModel>, e: Endianness)
    requires
        has_at(b, pos, members_bytes(items, e)),
        members_ok(items),
    ensures
        get_members(b, pos, items.len()) == Ok::<(Seq<GeometryModel>, int), GeoArrowError>(
            (items, pos + members_bytes(items, e).len()),
        ),
    decreases items.len(),
{
    if items.len() > 0 {
        let first = geometry_bytes(items[0], e);
        let rest = members_bytes(items.drop_first(), e);
        let tail = items.drop_first();
        assert(members_bytes(items, e) == first + rest);
        lemma_has_at_split(b, pos, first, rest);
        assert(members_ok(items.drop_first()));
        assert(geometry_ok(items[0]));
        lemma_get_member(b, pos, items[0], e);
        lemma_get_members(b, pos + first.len(), tail, e);
        assert(tail.len() == (items.len() - 1) as nat);
        assert(seq![items[0]] + tail =~= items);
        assert(get_members(b, pos, items.len()) == prepend(
            seq![items[0]],
            get_members(b, pos + first.len(), (items.len() - 1) as nat),
        ));
    } else {
        assert(items =~= Seq::<GeometryModel>::empty());
        assert(members_bytes(items, e) =~= Seq::<u8>::empty());
    }
}

/// The bytes of a geometry or a collection in byte order `e`.
pub open spec fn encoded(g: AnyGeometryModel, e: Endianness) -> Seq<u8> {
    match g {
        AnyGeometryModel::Geometry(g) => geometry_bytes(g, e),
        AnyGeometryModel::GeometryCollection(ms) => header_bytes(e, WKB_GEOMETRY_COLLECTION)
            + (u32_bytes(ms.len() as u32, e) + members_bytes(ms, e)),
    }
}

/// A geometry or a collection can be written: on every level its parts can be
/// counted in 32 bits.
pub open spec fn encodable(g: AnyGeometryModel) -> bool {
    match g {
        AnyGeometryModel::Geometry(g) => geometry_ok(g),
        AnyGeometryModel::GeometryCollection(ms) => count_ok(ms.len()) && members_ok(ms),
    }
}

/// Decoding what was encoded gives the geometry back, coordinate bits and all,
/// in either byte order and whatever bytes follow.
pub proof fn lemma_wkb_round_trip(g: AnyGeometryModel, e: Endianness, trailing: Seq<u8>)
    requires
        encodable(g),
    ensures
        decoded(encoded(g, e) + trailing) == Ok::<AnyGeometryModel, GeoArrowError>(g),
{
    let b = encoded(g, e) + trailing;
    assert(b.subrange(0, encoded(g, e).len() as int) =~= encoded(g, e));
    match g {
        AnyGeometryModel::Geometry(s) => {
            lemma_has_at_split(b, 0, header_bytes(e, code_of(s)), body_bytes(s, e));
            lemma_get_header(b, 0, e, code_of(s));
            lemma_get_body(b, 5, s, e);
        },
        AnyGeometryModel::GeometryCollection(ms) => {
            let count = u32_bytes(ms.len() as u32, e);
            lemma_u32_round_trip(ms.len() as u32, e);
            lemma_has_at_split(
                b,
                0,
                header_bytes(e, WKB_GEOMETRY_COLLECTION),
                count + members_bytes(ms, e),
            );
            lemma_get_header(b, 0, e, WKB_GEOMETRY_COLLECTION);
            lemma_has_at_split(b, 5, count, members_bytes(ms, e));
            lemma_get_u32(b, 5, ms.len() as u32, e);
            lemma_get_members(b, 9, ms, e);
        },
    }
}

/// Appends the coordinates of a line string.
fn write_coords<L: LineStringTrait>(out: &mut Vec<u8>, line: &L, e: Endianness)
    requires
        line.wf(),
    ensures
        final(out)@ == old(out)@ + coords_bytes(line.model(), e),
{
    let n = line.num_coords();
    let mut i: usize = 0;
    proof {
        assert(line.model().take(0) =~= Seq::empty());
        assert(out@ =~= old(out)@ + coords_bytes(line.model().take(0), e));
    }
    while i < n
        invariant
            line.wf(),
            n == line.model().len(),
            i <= n,
            out@ == old(out)@ + coords_bytes(line.model().take(i as int), e),
        decreases n - i,
    {
        let c = line.coord(i).unwrap();
        proof {
            lemma_coords_bytes_push(line.model().take(i as int), line.model()[i as int], e);
            assert(line.model().take(i + 1) =~= line.model().take(i as int).push(
                line.model()[i as int],
            ));
        }
        let ghost before = out@;
        write_coord(out, c, e);
        proof {
            assert(out@ =~= old(out)@ + coords_bytes(line.model().take(i + 1), e));
        }
        i += 1;
    }
    proof {
        assert(line.model().take(n as int) =~= line.model());
    }
}

/// Appends the payload of a line string: the count of its coordinates, then the
/// coordinates.
pub fn write_line_body<L: LineStringTrait>(out: &mut Vec<u8>, line: &L, e: Endianness)
    requires
        line.wf(),
        line_ok(line.model()),
    ensures
        final(out)@ == old(out)@ + line_bytes(line.model(), e),
{
    let n = line.num_coords();
    write_u32(out, n as u32, e);
    write_coords(out, line, e);
    assert(out@ =~= old(out)@ + line_bytes(line.model(), e));
}

/// Appends the rings of a polygon.
fn write_rings<P: PolygonTrait>(out: &mut Vec<u8>, polygon: &P, e: Endianness)
    requires
        polygon.wf(),
        rings_ok(polygon.model()),
    ensures
        final(out)@ == old(out)@ + rings_bytes(polygon.model(), e),
{
    let n = polygon_num_rings(polygon);
    let mut i: usize = 0;
    proof {
        assert(polygon.model().take(0) =~= Seq::empty());
        assert(out@ =~= old(out)@ + rings_bytes(polygon.model().take(0), e));
    }
    while i < n
        invariant
            polygon.wf(),
            rings_ok(polygon.model()),
            n == polygon.model().len(),
            i <= n,
            out@ == old(out)@ + rings_bytes(polygon.model().take(i as int), e),
        decreases n - i,
    {
        let ring = polygon_ring(polygon, i);
        proof {
            lemma_rings_bytes_push(polygon.model().take(i as int), polygon.model()[i as int], e);
            assert(polygon.model().take(i + 1) =~= polygon.model().take(i as int).push(
                polygon.model()[i as int],
            ));
        }
        let ghost before = out@;
        write_line_body(out, &ring, e);
        proof {
            assert(out@ =~= old(out)@ + rings_bytes(polygon.model().take(i + 1), e));
        }
        i += 1;
    }
    proof {
        assert(polygon.model().take(n as int) =~= polygon.model());
    }
}

/// Appends the payload of a polygon: the count of its rings, then the rings.
pub fn write_polygon_body<P: PolygonTrait>(out: &mut Vec<u8>, polygon: &P, e: Endianness)
    requires
        polygon.wf(),
        polygon_ok(polygon.model()),
    ensures
        final(out)@ == old(out)@ + polygon_bytes(polygon.model(), e),
{
    let n = polygon_num_rings(polygon);
    write_u32(out, n as u32, e);
    write_rings(out, polygon, e);
    assert(out@ =~= old(out)@ + polygon_bytes(polygon.model(), e));
}

/// Appends a whole point in byte order `e`.
pub fn write_point<P: PointTrait>(out: &mut Vec<u8>, point: &P, e: Endianness)
    requires
        point.wf(),
    ensures
        final(out)@ == old(out)@ + geometry_bytes(GeometryModel::Point(point.model()), e),
        final(out)@ == old(out)@ + point_item_bytes(point.model(), e),
{
    write_header(out, e, WKB_POINT);
    write_coord(out, Coord { x: point.x(), y: point.y() }, e);
    assert(out@ =~= old(out)@ + point_item_bytes(point.model(), e));
}

/// Appends a whole line string in byte order `e`.
pub fn write_line_string<L: LineStringTrait>(out: &mut Vec<u8>, line: &L, e: Endianness)
    requires
        line.wf(),
        line_ok(line.model()),
    ensures
        final(out)@ == old(out)@ + geometry_bytes(GeometryModel::LineString(line.model()), e),
        final(out)@ == old(out)@ + line_item_bytes(line.model(), e),
{
    write_header(out, e, WKB_LINE_STRING);
    write_line_body(out, line, e);
    assert(out@ =~= old(out)@ + line_item_bytes(line.model(), e));
}

/// Appends a whole polygon in byte order `e`.
pub fn write_polygon<P: PolygonTrait>(out: &mut Vec<u8>, polygon: &P, e: Endianness)
    requires
        polygon.wf(),
        polygon_ok(polygon.model()),
    ensures
        final(out)@ == old(out)@ + geometry_bytes(GeometryModel::Polygon(polygon.model()), e),
        final(out)@ == old(out)@ + polygon_item_bytes(polygon.model(), e),
{
    write_header(out, e, WKB_POLYGON);
    write_polygon_body(out, polygon, e);
    assert(out@ =~= old(out)@ + polygon_item_bytes(polygon.model(), e));
}

/// Appends the points of a multi point, each as a whole point.
fn write_points<M: MultiPointTrait>(out: &mut Vec<u8>, points: &M, e: Endianness)
    requires
        points.wf(),
    ensures
        final(out)@ == old(out)@ + points_bytes(points.model(), e),
{
    let n = points.num_points();
    let mut i: usize = 0;
    proof {
        assert(points.model().take(0) =~= Seq::empty());
        assert(out@ =~= old(out)@ + points_bytes(points.model().take(0), e));
    }
    while i < n
        invariant
            points.wf(),
            n == points.model().len(),
            i <= n,
            out@ == old(out)@ + points_bytes(points.model().take(i as int), e),
        decreases n - i,
    {
        let point = points.point(i).unwrap();
        proof {
            lemma_points_bytes_push(points.model().take(i as int), points.model()[i as int], e);
            assert(points.model().take(i + 1) =~= points.model().take(i as int).push(
                points.model()[i as int],
            ));
        }
        let ghost before = out@;
        write_point(out, &point, e);
        proof {
            assert(out@ =~= old(out)@ + points_bytes(points.model().take(i + 1), e));
        }
        i += 1;
    }
    proof {
        assert(points.model().take(n as int) =~= points.model());
    }
}

/// Appends the parts of a multi line string, each as a whole line string.
fn write_lines<M: MultiLineStringTrait>(out: &mut Vec<u8>, lines: &M, e: Endianness)
    requires
        lines.wf(),
        lines_ok(lines.model()),
    ensures
        final(out)@ == old(out)@ + lines_bytes(lines.model(), e),
{
    let n = lines.num_lines();
    let mut i: usize = 0;
    proof {
        assert(lines.model().take(0) =~= Seq::empty());
        assert(out@ =~= old(out)@ + lines_bytes(lines.model().take(0), e));
    }
    while i < n
        invariant
            lines.wf(),
            lines_ok(lines.model()),
            n == lines.model().len(),
            i <= n,
            out@ == old(out)@ + lines_bytes(lines.model().take(i as int), e),
        decreases n - i,
    {
        let line = lines.line(i).unwrap();
        proof {
            lemma_lines_bytes_push(lines.model().take(i as int), lines.model()[i as int], e);
            assert(lines.model().take(i + 1) =~= lines.model().take(i as int).push(
                lines.model()[i as int],
            ));
        }
        let ghost before = out@;
        write_line_string(out, &line, e);
        proof {
            assert(out@ =~= old(out)@ + lines_bytes(lines.model().take(i + 1), e));
        }
        i += 1;
    }
    proof {
        assert(lines.model().take(n as int) =~= lines.model());
    }
}

/// Appends the polygons of a multi polygon, each as a whole polygon.
fn write_polygons<M: MultiPolygonTrait>(out: &mut Vec<u8>, polygons: &M, e: Endianness)
    requires
        polygons.wf(),
        polygons_ok(polygons.model()),
    ensures
        final(out)@ == old(out)@ + polygons_bytes(polygons.model(), e),
{
    let n = polygons.num_polygons();
    let mut i: usize = 0;
    proof {
        assert(polygons.model().take(0) =~= Seq::empty());
        assert(out@ =~= old(out)@ + polygons_bytes(polygons.model().take(0), e));
    }
    while i < n
        invariant
            polygons.wf(),
            polygons_ok(polygons.model()),
            n == polygons.model().len(),
            i <= n,
            out@ == old(out)@ + polygons_bytes(polygons.model().take(i as int), e),
        decreases n - i,
    {
        let polygon = polygons.polygon(i).unwrap();
        proof {
            lemma_polygons_bytes_push(polygons.model().take(i as int), polygons.model()[i as int], e);
            assert(polygons.model().take(i + 1) =~= polygons.model().take(i as int).push(
                polygons.model()[i as int],
            ));
        }
        let ghost before = out@;
        write_polygon(out, &polygon, e);
        proof {
            assert(out@ =~= old(out)@ + polygons_bytes(polygons.model().take(i + 1), e));
        }
        i += 1;
    }
    proof {
        assert(polygons.model().take(n as int) =~= polygons.model());
    }
}

/// Appends a whole multi point in byte order `e`.
pub fn write_multi_point<M: MultiPointTrait>(out: &mut Vec<u8>, points: &M, e: Endianness)
    requires
        points.wf(),
        count_ok(points.model().len()),
    ensures
        final(out)@ == old(out)@ + geometry_bytes(GeometryModel::MultiPoint(points.model()), e),
{
    let n = points.num_points();
    write_header(out, e, WKB_MULTI_POINT);
    write_u32(out, n as u32, e);
    write_points(out, points, e);
    assert(out@ =~= old(out)@ + geometry_bytes(GeometryModel::MultiPoint(points.model()), e));
}

/// Appends a whole multi line string in byte order `e`.
pub fn write_multi_line_string<M: MultiLineStringTrait>(out: &mut Vec<u8>, lines: &M, e: Endianness)
    requires
        lines.wf(),
        count_ok(lines.model().len()) && lines_ok(lines.model()),
    ensures
        final(out)@ == old(out)@ + geometry_bytes(GeometryModel::MultiLineString(lines.model()), e),
{
    let n = lines.num_lines();
    write_header(out, e, WKB_MULTI_LINE_STRING);
    write_u32(out, n as u32, e);
    write_lines(out, lines, e);
    assert(out@ =~= old(out)@ + geometry_bytes(GeometryModel::MultiLineString(lines.model()), e));
}

/// Appends a whole multi polygon in byte order `e`.
pub fn write_multi_polygon<M: MultiPolygonTrait>(out: &mut Vec<u8>, polygons: &M, e: Endianness)
    requires
        polygons.wf(),
        count_ok(polygons.model().len()) && polygons_ok(polygons.model()),
    ensures
        final(out)@ == old(out)@ + geometry_bytes(GeometryModel::MultiPolygon(polygons.model()), e),
{
    let n = polygons.num_polygons();
    write_header(out, e, WKB_MULTI_POLYGON);
    write_u32(out, n as u32, e);
    write_polygons(out, polygons, e);
    assert(out@ =~= old(out)@ + geometry_bytes(GeometryModel::MultiPolygon(polygons.model()), e));
}

/// Appends a whole geometry in byte order `e`.
pub fn write_geometry<G: GeometryTrait>(out: &mut Vec<u8>, geometry: &G, e: Endianness)
    requires
        geometry.wf(),
        geometry_ok(geometry.model()),
    ensures
        final(out)@ == old(out)@ + geometry_bytes(geometry.model(), e),
{
    match geometry.as_type() {
        GeometryType::Point(g) => write_point(out, &g, e),
        GeometryType::LineString(g) => write_line_string(out, &g, e),
        GeometryType::Polygon(g) => write_polygon(out, &g, e),
        GeometryType::MultiPoint(g) => write_multi_point(out, &g, e),
        GeometryType::MultiLineString(g) => write_multi_line_string(out, &g, e),
        GeometryType::MultiPolygon(g) => write_multi_polygon(out, &g, e),
    }
}

/// Whether a line string can be written.
pub fn line_string_encodable<L: LineStringTrait>(line: &L) -> (b: bool)
    requires
        line.wf(),
    ensures
        b == line_ok(line.model()),
{
    line.num_coords() <= 0xffff_ffff
}

/// Whether a polygon can be written.
pub fn polygon_encodable<P: PolygonTrait>(polygon: &P) -> (b: bool)
    requires
        polygon.wf(),
    ensures
        b == (count_ok(polygon.model().len()) && rings_ok(polygon.model())),
{
    let n = polygon_num_rings(polygon);
    if n > 0xffff_ffff {
        return false;
    }
    let mut i: usize = 0;
    while i < n
        invariant
            polygon.wf(),
            n == polygon.model().len(),
            i <= n,
            forall|j: int| 0 <= j < i ==> line_ok(#[trigger] polygon.model()[j]),
        decreases n - i,
    {
        let ring = polygon_ring(polygon, i);
        if !line_string_encodable(&ring) {
            assert(!line_ok(polygon.model()[i as int]));
            return false;
        }
        i += 1;
    }
    true
}

/// Whether a multi point can be written.
pub fn multi_point_encodable<M: MultiPointTrait>(points: &M) -> (b: bool)
    requires
        points.wf(),
    ensures
        b == count_ok(points.model().len()),
{
    points.num_points() <= 0xffff_ffff
}

/// Whether a multi line string can be written.
pub fn multi_line_string_encodable<M: MultiLineStringTrait>(lines: &M) -> (b: bool)
    requires
        lines.wf(),
    ensures
        b == (count_ok(lines.model().len()) && lines_ok(lines.model())),
{
    let n = lines.num_lines();
    if n > 0xffff_ffff {
        return false;
    }
    let mut i: usize = 0;
    while i < n
        invariant
            lines.wf(),
            n == lines.model().len(),
            i <= n,
            forall|j: int| 0 <= j < i ==> line_ok(#[trigger] lines.model()[j]),
        decreases n - i,
    {
        let line = lines.line(i).unwrap();
        if !line_string_encodable(&line) {
            assert(!line_ok(lines.model()[i as int]));
            return false;
        }
        i += 1;
    }
    true
}

/// Whether a multi polygon can be written.
pub fn multi_polygon_encodable<M: MultiPolygonTrait>(polygons: &M) -> (b: bool)
    requires
        polygons.wf(),
    ensures
        b == (count_ok(polygons.model().len()) && polygons_ok(polygons.model())),
{
    let n = polygons.num_polygons();
    if n > 0xffff_ffff {
        return false;
    }
    let mut i: usize = 0;
    while i < n
        invariant
            polygons.wf(),
            n == polygons.model().len(),
            i <= n,
            forall|j: int| 0 <= j < i ==> polygon_ok(#[trigger] polygons.model()[j]),
        decreases n - i,
    {
        let polygon = polygons.polygon(i).unwrap();
        if !polygon_encodable(&polygon) {
            assert(!polygon_ok(polygons.model()[i as int]));
            return false;
        }
        i += 1;
    }
    true
}

/// Whether a geometry can be written.
pub fn geometry_encodable<G: GeometryTrait>(geometry: &G) -> (b: bool)
    requires
        geometry.wf(),
    ensures
        b == geometry_ok(geometry.model()),
{
    match geometry.as_type() {
        GeometryType::Point(_) => true,
        GeometryType::LineString(g) => line_string_encodable(&g),
        GeometryType::Polygon(g) => polygon_encodable(&g),
        GeometryType::MultiPoint(g) => multi_point_encodable(&g),
        GeometryType::MultiLineString(g) => multi_line_string_encodable(&g),
        GeometryType::MultiPolygon(g) => multi_polygon_encodable(&g),
    }
}

/// Writes a point as little-endian well-known binary.
pub fn write_point_as_wkb<P: PointTrait>(writer: &mut Vec<u8>, point: &P) -> (r: Result<
    (),
    GeoArrowError,
>)
    requires
        point.wf(),
    ensures
        r is Ok,
        final(writer)@ == old(writer)@ + geometry_bytes(
            GeometryModel::Point(point.model()),
            Endianness::LittleEndian,
        ),
        final(writer)@.len() == old(writer)@.len() + POINT_WKB_SIZE,
{
    write_point(writer, point, Endianness::LittleEndian);
    proof {
        crate::io::wkb::common::lemma_u64_round_trip(point.model().x, Endianness::LittleEndian);
        crate::io::wkb::common::lemma_u64_round_trip(point.model().y, Endianness::LittleEndian);
        lemma_u32_round_trip(WKB_POINT, Endianness::LittleEndian);
    }
    Ok(())
}

/// Writes a geometry as well-known binary in byte order `e`. Where some part of
/// it cannot be counted in 32 bits nothing is written and the result is
/// [`GeoArrowError::IndexOverflow`].
pub fn write_geometry_as_wkb<G: GeometryTrait>(writer: &mut Vec<u8>, geometry: &G, e: Endianness)
    -> (r: Result<(), GeoArrowError>)
    requires
        geometry.wf(),
    ensures
        geometry_ok(geometry.model()) ==> r is Ok && final(writer)@ == old(writer)@
            + geometry_bytes(geometry.model(), e),
        !geometry_ok(geometry.model()) ==> r == Err::<(), GeoArrowError>(
            GeoArrowError::IndexOverflow,
        ) && *final(writer) == *old(writer),
{
    if !geometry_encodable(geometry) {
        return Err(GeoArrowError::IndexOverflow);
    }
    write_geometry(writer, geometry, e);
    Ok(())
}

/// Whether every member of a collection can be written.
fn members_encodable(members: &Vec<Geometry>) -> (b: bool)
    ensures
        b == members_ok(models(members@)),
{
    let mut i: usize = 0;
    while i < members.len()
        invariant
            i <= members@.len(),
            forall|j: int| 0 <= j < i ==> geometry_ok(#[trigger] models(members@)[j]),
        decreases members@.len() - i,
    {
        let member = &members[i];
        if !geometry_encodable(&member) {
            assert(!geometry_ok(models(members@)[i as int]));
            return false;
        }
        i += 1;
    }
    true
}

/// Appends the members of a collection, each as a whole geometry.
fn write_members(out: &mut Vec<u8>, members: &Vec<Geometry>, e: Endianness)
    requires
        members_ok(models(members@)),
    ensures
        final(out)@ == old(out)@ + members_bytes(models(members@), e),
{
    let ghost all = models(members@);
    let mut i: usize = 0;
    proof {
        assert(all.take(0) =~= Seq::empty());
        assert(out@ =~= old(out)@ + members_bytes(all.take(0), e));
    }
    while i < members.len()
        invariant
            all == models(members@),
            members_ok(all),
            i <= members@.len(),
            out@ == old(out)@ + members_bytes(all.take(i as int), e),
        decreases members@.len() - i,
    {
        let member = &members[i];
        proof {
            lemma_members_bytes_push(all.take(i as int), all[i as int], e);
            assert(all.take(i + 1) =~= all.take(i as int).push(all[i as int]));
        }
        write_geometry(out, &member, e);
        proof {
            assert(out@ =~= old(out)@ + members_bytes(all.take(i + 1), e));
        }
        i += 1;
    }
    proof {
        assert(all.take(members@.len() as int) =~= all);
    }
}

/// Encodes a geometry or a collection as well-known binary in byte order `e`.
/// Where some part of it cannot be counted in 32 bits the result is
/// [`GeoArrowError::IndexOverflow`].
pub fn encode_wkb(geometry: &AnyGeometry, e: Endianness) -> (r: Result<Vec<u8>, GeoArrowError>)
    ensures
        encodable(geometry@) ==> (r matches Ok(bytes) && bytes@ == encoded(geometry@, e)),
        !encodable(geometry@) ==> r == Err::<Vec<u8>, GeoArrowError>(GeoArrowError::IndexOverflow),
{
    let mut out: Vec<u8> = Vec::new();
    match geometry {
        AnyGeometry::Geometry(g) => {
            if !geometry_encodable(&g) {
                return Err(GeoArrowError::IndexOverflow);
            }
            write_geometry(&mut out, &g, e);
            assert(out@ =~= encoded(geometry@, e));
        },
        AnyGeometry::GeometryCollection(members) => {
            if members.len() > 0xffff_ffff || !members_encodable(members) {
                return Err(GeoArrowError::IndexOverflow);
            }
            write_header(&mut out, e, WKB_GEOMETRY_COLLECTION);
            write_u32(&mut out, members.len() as u32, e);
            write_members(&mut out, members, e);
            assert(out@ =~= encoded(geometry@, e));
        },
    }
    Ok(out)
}

} // verus!
