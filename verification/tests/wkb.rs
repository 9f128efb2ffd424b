use geoarrow::algorithm::native::cast::GeometryArray;
use geoarrow::array::point::{PointArray, PointBuilder};
use geoarrow::coord::{Coord, CoordType};
use geoarrow::datatypes::GeoDataType;
use geoarrow::error::GeoArrowError;
use geoarrow::geometry::{AnyGeometry, Geometry};
use geoarrow::io::display::bracketed;
use geoarrow::io::geo::{geometry_to_geo, point_to_geo};
use geoarrow::io::postgis::reader::{GeoTableBuilder, GeoTableBuilderOptions};
use geoarrow::io::wkb::api::{decode_geometry, from_wkb, to_wkb};
use geoarrow::io::wkb::common::Endianness;
use geoarrow::io::wkb::reader::decode_wkb;
use geoarrow::io::wkb::writer::{encode_wkb, write_point_as_wkb, POINT_WKB_SIZE};
use geoarrow::offsets::OffsetWidth;
use geoarrow::test::point::{p0, p1, p2};

fn c(x: f64, y: f64) -> Coord {
    Coord { x: x.to_bits(), y: y.to_bits() }
}

fn same(a: &Geometry, b: &Geometry) -> bool {
    match (a, b) {
        (Geometry::Point(x), Geometry::Point(y)) => x == y,
        (Geometry::LineString(x), Geometry::LineString(y)) => x == y,
        (Geometry::Polygon(x), Geometry::Polygon(y)) => x == y,
        (Geometry::MultiPoint(x), Geometry::MultiPoint(y)) => x == y,
        (Geometry::MultiLineString(x), Geometry::MultiLineString(y)) => x == y,
        (Geometry::MultiPolygon(x), Geometry::MultiPolygon(y)) => x == y,
        _ => false,
    }
}

fn same_any(a: &AnyGeometry, b: &AnyGeometry) -> bool {
    match (a, b) {
        (AnyGeometry::Geometry(x), AnyGeometry::Geometry(y)) => same(x, y),
        (AnyGeometry::GeometryCollection(x), AnyGeometry::GeometryCollection(y)) => {
            x.len() == y.len() && x.iter().zip(y.iter()).all(|(p, q)| same(p, q))
        }
        _ => false,
    }
}

fn samples() -> Vec<AnyGeometry> {
    let ring = vec![c(0., 0.), c(5., 0.), c(5., 6.), c(0., 6.), c(0., 0.)];
    let hole = vec![c(1., 1.), c(2., 1.), c(2., 2.), c(1., 1.)];
    vec![
        AnyGeometry::Geometry(Geometry::Point(c(-1.5, f64::MAX))),
        AnyGeometry::Geometry(Geometry::Point(c(f64::NAN, -0.0))),
        AnyGeometry::Geometry(Geometry::LineString(vec![])),
        AnyGeometry::Geometry(Geometry::LineString(vec![c(0., 1.), c(1., 2.)])),
        AnyGeometry::Geometry(Geometry::Polygon(vec![ring.clone(), hole.clone()])),
        AnyGeometry::Geometry(Geometry::MultiPoint(vec![c(0., 1.), c(1., 2.), c(3., 4.)])),
        AnyGeometry::Geometry(Geometry::MultiLineString(vec![vec![c(0., 1.)], vec![]])),
        AnyGeometry::Geometry(Geometry::MultiPolygon(vec![vec![ring.clone()], vec![ring.clone(), hole]])),
        AnyGeometry::GeometryCollection(vec![]),
        AnyGeometry::GeometryCollection(vec![
            Geometry::Point(c(7., 8.)),
            Geometry::Polygon(vec![ring]),
        ]),
    ]
}

#[test]
fn round_trip() {
    let mut builder = PointBuilder::new();
    builder.push_point(Some(&p0()));
    builder.push_point(Some(&p1()));
    builder.push_point(Some(&p2()));
    let orig_point_arr: PointArray = builder.finish();
    let wkb_arr = to_wkb(&GeometryArray::Point(orig_point_arr), OffsetWidth::Small).unwrap();
    assert_eq!(wkb_arr.len(), 3);
    assert_eq!(wkb_arr.bytes_at(0).len(), POINT_WKB_SIZE);
    let new_point_arr = match from_wkb(&wkb_arr, &GeoDataType::Point(CoordType::Interleaved), false) {
        Ok(GeometryArray::Point(a)) => a,
        _ => panic!("expected points"),
    };
    assert_eq!(new_point_arr.len(), 3);
    let expected = [p0(), p1(), p2()];
    for i in 0..3 {
        assert!(new_point_arr.is_valid(i));
        assert_eq!(point_to_geo(&new_point_arr.value(i)), expected[i]);
    }
}

#[test]
fn decoding_what_was_encoded_gives_it_back() {
    for g in samples() {
        for e in [Endianness::LittleEndian, Endianness::BigEndian] {
            let bytes = encode_wkb(&g, e).unwrap();
            let back = decode_wkb(&bytes).unwrap();
            assert!(same_any(&g, &back));
            // bytes after the geometry are not looked at
            let mut longer = bytes.clone();
            longer.extend_from_slice(&[9, 9, 9]);
            assert!(same_any(&g, &decode_wkb(&longer).unwrap()));
        }
    }
}

#[test]
fn every_proper_prefix_is_truncated_input() {
    for g in samples() {
        let bytes = encode_wkb(&g, Endianness::LittleEndian).unwrap();
        for n in 0..bytes.len() {
            assert!(matches!(decode_wkb(&bytes[..n]), Err(GeoArrowError::TruncatedInput)));
        }
    }
}

#[test]
fn point_bytes_are_exact() {
    let mut out = Vec::new();
    write_point_as_wkb(&mut out, &c(1., 2.)).unwrap();
    assert_eq!(out.len(), POINT_WKB_SIZE);
    assert_eq!(
        out,
        vec![
            1, 1, 0, 0, 0, 0, 0, 0, 0, 0, 0, 0xf0, 0x3f, 0, 0, 0, 0, 0, 0, 0, 0x40
        ]
    );
    let big = encode_wkb(&AnyGeometry::Geometry(Geometry::Point(c(1., 2.))), Endianness::BigEndian)
        .unwrap();
    assert_eq!(
        big,
        vec![
            0, 0, 0, 0, 1, 0x3f, 0xf0, 0, 0, 0, 0, 0, 0, 0x40, 0, 0, 0, 0, 0, 0, 0
        ]
    );
}

#[test]
fn line_string_bytes_are_exact() {
    let g = AnyGeometry::Geometry(Geometry::LineString(vec![c(0., 1.)]));
    let bytes = encode_wkb(&g, Endianness::LittleEndian).unwrap();
    assert_eq!(
        bytes,
        vec![
            1, 2, 0, 0, 0, 1, 0, 0, 0, 0, 0, 0, 0, 0, 0, 0, 0, 0, 0, 0, 0, 0, 0, 0xf0, 0x3f
        ]
    );
}

#[test]
fn unknown_byte_order_is_invalid() {
    let mut bytes = encode_wkb(&AnyGeometry::Geometry(Geometry::Point(c(1., 2.))), Endianness::LittleEndian).unwrap();
    bytes[0] = 2;
    assert!(matches!(decode_wkb(&bytes), Err(GeoArrowError::InvalidEncoding)));
}

#[test]
fn unknown_type_code_is_invalid() {
    let mut bytes = encode_wkb(&AnyGeometry::Geometry(Geometry::Point(c(1., 2.))), Endianness::LittleEndian).unwrap();
    bytes[1] = 0;
    assert!(matches!(decode_wkb(&bytes), Err(GeoArrowError::InvalidEncoding)));
    bytes[1] = 8;
    assert!(matches!(decode_wkb(&bytes), Err(GeoArrowError::InvalidEncoding)));
}

#[test]
fn third_ordinate_is_a_shape_mismatch() {
    let mut bytes = encode_wkb(&AnyGeometry::Geometry(Geometry::Point(c(1., 2.))), Endianness::LittleEndian).unwrap();
    // the extended flag for a third ordinate
    bytes[4] = 0x80;
    assert!(matches!(decode_wkb(&bytes), Err(GeoArrowError::ShapeMismatch)));
    // the ISO code of a point with a third ordinate: 1001
    bytes[4] = 0;
    bytes[1] = 0xe9;
    bytes[2] = 0x03;
    assert!(matches!(decode_wkb(&bytes), Err(GeoArrowError::ShapeMismatch)));
}

#[test]
fn reference_system_identifier_is_skipped() {
    // SRID=4326;POINT(1 2) in the extended dialect
    let mut bytes = vec![1, 1, 0, 0, 0x20, 0xe6, 0x10, 0, 0];
    bytes.extend_from_slice(&1f64.to_le_bytes());
    bytes.extend_from_slice(&2f64.to_le_bytes());
    let g = decode_wkb(&bytes).unwrap();
    assert!(same_any(&g, &AnyGeometry::Geometry(Geometry::Point(c(1., 2.)))));
    assert!(matches!(decode_wkb(&bytes[..7]), Err(GeoArrowError::TruncatedInput)));
}

#[test]
fn multi_point_of_a_line_string_is_a_shape_mismatch() {
    let line = encode_wkb(&AnyGeometry::Geometry(Geometry::LineString(vec![c(0., 1.)])), Endianness::LittleEndian).unwrap();
    let mut bytes = vec![1, 4, 0, 0, 0, 1, 0, 0, 0];
    bytes.extend_from_slice(&line);
    assert!(matches!(decode_wkb(&bytes), Err(GeoArrowError::ShapeMismatch)));
}

fn collection_of(members: &[Vec<u8>]) -> Vec<u8> {
    let mut bytes = vec![1, 7, 0, 0, 0];
    bytes.extend_from_slice(&(members.len() as u32).to_le_bytes());
    for m in members {
        bytes.extend_from_slice(m);
    }
    bytes
}

#[test]
fn nested_collections() {
    let point = encode_wkb(&AnyGeometry::Geometry(Geometry::Point(c(1., 2.))), Endianness::BigEndian).unwrap();
    // a collection that wraps one geometry stands for that geometry as a member
    let inner = collection_of(&[point.clone()]);
    let outer = collection_of(&[inner.clone(), point.clone()]);
    match decode_wkb(&outer).unwrap() {
        AnyGeometry::GeometryCollection(ms) => {
            assert_eq!(ms.len(), 2);
            assert!(same(&ms[0], &Geometry::Point(c(1., 2.))));
            assert!(same(&ms[1], &Geometry::Point(c(1., 2.))));
        }
        _ => panic!("expected a collection"),
    }
    // a member collection of two members
    let two = collection_of(&[point.clone(), point.clone()]);
    assert!(matches!(
        decode_wkb(&collection_of(&[two])),
        Err(GeoArrowError::UnsupportedNesting)
    ));
    // a member collection of no members
    assert!(matches!(
        decode_wkb(&collection_of(&[collection_of(&[])])),
        Err(GeoArrowError::UnsupportedNesting)
    ));
    // collections nested twice
    assert!(matches!(
        decode_wkb(&collection_of(&[collection_of(&[inner])])),
        Err(GeoArrowError::UnsupportedNesting)
    ));
}

#[test]
fn a_collection_of_one_stands_for_its_member() {
    let point = encode_wkb(&AnyGeometry::Geometry(Geometry::Point(c(1., 2.))), Endianness::LittleEndian).unwrap();
    let one = collection_of(&[point.clone()]);
    assert!(same(&decode_geometry(&one).unwrap(), &Geometry::Point(c(1., 2.))));
    // a collection that wraps a collection stands for no single geometry, though
    // it decodes to a collection of one member
    let nested = collection_of(&[one.clone()]);
    assert!(matches!(
        decode_wkb(&nested),
        Ok(AnyGeometry::GeometryCollection(ms)) if ms.len() == 1
    ));
    assert!(matches!(decode_geometry(&nested), Err(GeoArrowError::UnsupportedNesting)));
    let two = collection_of(&[point.clone(), point]);
    assert!(matches!(decode_geometry(&two), Err(GeoArrowError::UnsupportedNesting)));
    assert!(matches!(
        decode_geometry(&collection_of(&[])),
        Err(GeoArrowError::UnsupportedNesting)
    ));
}

#[test]
fn postgres_geometries_fill_a_column() {
    let mut builder = GeoTableBuilder::new_with_options(GeoTableBuilderOptions {
        coord_type: CoordType::Interleaved,
        prefer_multi: true,
        width: OffsetWidth::Small,
    });
    let point = encode_wkb(&AnyGeometry::Geometry(Geometry::Point(c(1., 2.))), Endianness::LittleEndian).unwrap();
    let line = encode_wkb(&AnyGeometry::Geometry(Geometry::LineString(vec![c(0., 1.), c(1., 2.)])), Endianness::BigEndian).unwrap();
    builder.add_postgres_geometry(&point).unwrap();
    builder.add_postgres_geometry(&line).unwrap();
    // a refused row leaves the column as it was
    assert!(matches!(
        builder.add_postgres_geometry(&point[..20]),
        Err(GeoArrowError::TruncatedInput)
    ));
    let column = builder.finish();
    assert_eq!(column.len(), 2);
    // single geometries were stored as their multi shape
    assert!(same(&geometry_to_geo(&column.value(0)), &Geometry::MultiPoint(vec![c(1., 2.)])));
    assert!(same(
        &geometry_to_geo(&column.value(1)),
        &Geometry::MultiLineString(vec![vec![c(0., 1.), c(1., 2.)]])
    ));
}

#[test]
fn wkb_arrays_keep_absent_elements() {
    let mut builder = PointBuilder::new();
    builder.push_point(Some(&p0()));
    builder.push_point::<Coord>(None);
    let points = builder.finish();
    let wkb = to_wkb(&GeometryArray::Point(points), OffsetWidth::Large).unwrap();
    assert_eq!(wkb.width(), OffsetWidth::Large);
    assert!(wkb.is_valid(0));
    assert!(wkb.is_null(1));
    assert_eq!(wkb.bytes_at(1).len(), 0);
    let sliced = wkb.slice(1, 1);
    assert_eq!(sliced.len(), 1);
    assert!(sliced.is_null(0));
    let back = match from_wkb(&wkb, &GeoDataType::MultiPoint(CoordType::Interleaved), true) {
        Ok(GeometryArray::MultiPoint(a)) => a,
        _ => panic!("expected multi points"),
    };
    assert!(back.is_valid(0));
    assert!(back.is_null(1));
}

#[test]
fn shown_text_is_bracketed_and_cut() {
    assert_eq!(bracketed("POINT(0 1)"), "<POINT(0 1)>");
    assert_eq!(bracketed(""), "<>");
    let long = "MULTIPOLYGON(((-111 45,-111 41,-104 41,-104 45,-111 45)),((-111 45,-111 41,-104 41,-104 45,-111 45),(-110 44,-110 42,-105 42,-105 44,-110 44)))";
    let cut = bracketed(long);
    assert_eq!(
        cut,
        "<MULTIPOLYGON(((-111 45,-111 41,-104 41,-104 45,-111 45)),((-111 45,-111 41,...>"
    );
    assert_eq!(cut.chars().count(), 80);
    let just = "x".repeat(78);
    assert_eq!(bracketed(&just), format!("<{}>", just));
    let over = "x".repeat(79);
    assert_eq!(bracketed(&over), format!("<{}...>", "x".repeat(75)));
}
