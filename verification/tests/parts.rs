use geoarrow::algorithm::native::cast::GeometryArray;
use geoarrow::array::geometrycollection::{GeometryCollectionArray, GeometryCollectionBuilder};
use geoarrow::array::linestring::LineStringBuilder;
use geoarrow::array::metadata::ArrayMetadata;
use geoarrow::array::mixed::{MixedGeometryArray, MixedGeometryBuilder};
use geoarrow::array::multilinestring::MultiLineStringBuilder;
use geoarrow::array::multipoint::MultiPointBuilder;
use geoarrow::array::multipolygon::{MultiPolygonArray, MultiPolygonBuilder};
use geoarrow::array::point::PointBuilder;
use geoarrow::array::polygon::PolygonBuilder;
use geoarrow::coord::{Coord, CoordBuffer, CoordType, InterleavedCoordBuffer};
use geoarrow::datatypes::{Dimension, GeoDataType};
use geoarrow::error::GeoArrowError;
use geoarrow::geometry::{AnyGeometry, Geometry};
use geoarrow::io::geo::{geometry_to_geo, multi_polygon_to_geo, point_to_geo, polygon_to_geo};
use geoarrow::io::parquet::metadata::{
    find_geoparquet_geom_columns, GeoParquetColumnMetadata, GeoParquetMetadata,
};
use geoarrow::io::wkb::api::{decode_elements, to_wkb, FromEWKB};
use geoarrow::io::wkb::common::Endianness;
use geoarrow::io::wkb::writer::encode_wkb;
use geoarrow::offsets::{OffsetBuffer, OffsetWidth};
use geoarrow::geo_traits::MultiPolygonTrait;
use geoarrow::scalar::multipolygon::MultiPolygon;
use geoarrow::scalar::owned::OwnedGeometryCollection;
use geoarrow::validity::Validity;

fn c(x: f64, y: f64) -> Coord {
    Coord { x: x.to_bits(), y: y.to_bits() }
}

fn ring(x: f64) -> Vec<Coord> {
    vec![c(x, 0.), c(x + 5., 0.), c(x + 5., 6.), c(x, 6.), c(x, 0.)]
}

fn names(v: &[&str]) -> Vec<String> {
    v.iter().map(|s| s.to_string()).collect()
}

fn column(types: &[&str]) -> GeoParquetColumnMetadata {
    GeoParquetColumnMetadata {
        encoding: "WKB".to_string(),
        geometry_types: names(types),
        crs: None,
        orientation: None,
        edges: None,
        bbox: None,
        epoch: None,
        covering: None,
    }
}

fn file(columns: Vec<(&str, GeoParquetColumnMetadata)>) -> GeoParquetMetadata {
    GeoParquetMetadata {
        version: "1.1.0".to_string(),
        primary_column: "geometry".to_string(),
        columns: columns.into_iter().map(|(n, c)| (n.to_string(), c)).collect(),
    }
}

#[test]
fn geometry_columns_are_found_by_name() {
    let ct = CoordType::Interleaved;
    let meta = file(vec![
        ("geometry", column(&["Polygon", "MultiPolygon"])),
        ("centre", column(&["Point"])),
        ("anything", column(&[])),
    ]);
    let fields = names(&["id", "centre", "geometry", "anything", "centre"]);
    assert_eq!(
        find_geoparquet_geom_columns(&meta, &fields, ct),
        Ok(vec![
            (2, Some(GeoDataType::MultiPolygon(ct))),
            (1, Some(GeoDataType::Point(ct))),
            (3, None),
        ])
    );
    assert_eq!(find_geoparquet_geom_columns(&file(vec![]), &fields, ct), Ok(vec![]));
}

#[test]
fn geometry_columns_that_cannot_be_found() {
    let ct = CoordType::Separated;
    let fields = names(&["id", "geometry"]);
    let missing = file(vec![("geometry", column(&["Point"])), ("centre", column(&["Point"]))]);
    assert_eq!(
        find_geoparquet_geom_columns(&missing, &fields, ct),
        Err(GeoArrowError::IncompatibleMetadata)
    );
    let raised = file(vec![("geometry", column(&["Point Z"]))]);
    assert_eq!(
        find_geoparquet_geom_columns(&raised, &fields, ct),
        Err(GeoArrowError::ShapeMismatch)
    );
    // the first column that fails decides
    let both = file(vec![("geometry", column(&["Point Z"])), ("centre", column(&["Point"]))]);
    assert_eq!(
        find_geoparquet_geom_columns(&both, &fields, ct),
        Err(GeoArrowError::ShapeMismatch)
    );
}

fn children() -> (
    geoarrow::array::point::PointArray,
    geoarrow::array::linestring::LineStringArray,
    geoarrow::array::polygon::PolygonArray,
    geoarrow::array::multipoint::MultiPointArray,
    geoarrow::array::multilinestring::MultiLineStringArray,
    MultiPolygonArray,
) {
    let mut points = PointBuilder::new();
    points.push_point(Some(&c(1., 2.)));
    points.push_point(Some(&c(3., 4.)));
    let mut lines = LineStringBuilder::new(OffsetWidth::Small);
    lines.push_line_string(Some(&&vec![c(0., 1.), c(1., 2.)])).unwrap();
    (
        points.finish(),
        lines.finish(),
        PolygonBuilder::new(OffsetWidth::Small).finish(),
        MultiPointBuilder::new(OffsetWidth::Small).finish(),
        MultiLineStringBuilder::new(OffsetWidth::Small).finish(),
        MultiPolygonBuilder::new(OffsetWidth::Small).finish(),
    )
}

fn mixed_of(tags: Vec<i8>, indexes: Vec<i32>) -> Result<MixedGeometryArray, GeoArrowError> {
    let (p, l, y, mp, ml, my) = children();
    MixedGeometryArray::try_new(tags, indexes, p, l, y, mp, ml, my, ArrayMetadata::new())
}

#[test]
fn mixed_arrays_from_parts_are_checked() {
    let array = mixed_of(vec![1, 2, 1], vec![1, 0, 0]).unwrap();
    assert_eq!(array.len(), 3);
    assert_eq!(array.type_id(0), 1);
    assert_eq!(array.child_index(0), 1);
    let got: Vec<Geometry> = (0..3).map(|i| geometry_to_geo(&array.value(i))).collect();
    assert!(matches!(&got[0], Geometry::Point(p) if *p == c(3., 4.)));
    assert!(matches!(&got[1], Geometry::LineString(l) if *l == vec![c(0., 1.), c(1., 2.)]));
    assert!(matches!(&got[2], Geometry::Point(p) if *p == c(1., 2.)));
    assert_eq!(mixed_of(vec![], vec![]).unwrap().len(), 0);

    // as many tags as indexes
    assert!(matches!(mixed_of(vec![1, 2], vec![0]), Err(GeoArrowError::ShapeMismatch)));
    // no such child
    assert!(matches!(mixed_of(vec![0], vec![0]), Err(GeoArrowError::ShapeMismatch)));
    assert!(matches!(mixed_of(vec![7], vec![0]), Err(GeoArrowError::ShapeMismatch)));
    assert!(matches!(mixed_of(vec![-1], vec![0]), Err(GeoArrowError::ShapeMismatch)));
    // no such element in the child
    assert!(matches!(mixed_of(vec![1], vec![2]), Err(GeoArrowError::ShapeMismatch)));
    assert!(matches!(mixed_of(vec![2], vec![1]), Err(GeoArrowError::ShapeMismatch)));
    assert!(matches!(mixed_of(vec![3], vec![0]), Err(GeoArrowError::ShapeMismatch)));
    assert!(matches!(mixed_of(vec![1], vec![-1]), Err(GeoArrowError::ShapeMismatch)));
}

#[test]
fn mixed_children_must_agree_on_width_and_layout() {
    let (p, l, y, mp, ml, _) = children();
    let wide = MultiPolygonBuilder::new(OffsetWidth::Large).finish();
    assert!(matches!(
        MixedGeometryArray::try_new(vec![1], vec![0], p, l, y, mp, ml, wide, ArrayMetadata::new()),
        Err(GeoArrowError::ShapeMismatch)
    ));
    let (p, l, y, mp, ml, _) = children();
    let apart = MultiPolygonBuilder::with_capacity_and_options(
        OffsetWidth::Small,
        geoarrow::array::multipolygon::MultiPolygonCapacity::new_empty(),
        CoordType::Separated,
        ArrayMetadata::new(),
    )
    .finish();
    assert!(matches!(
        MixedGeometryArray::try_new(vec![1], vec![0], p, l, y, mp, ml, apart, ArrayMetadata::new()),
        Err(GeoArrowError::ShapeMismatch)
    ));
}

#[test]
fn interleaved_words_come_in_pairs() {
    let words = vec![1f64.to_bits(), 2f64.to_bits(), 3f64.to_bits(), 4f64.to_bits()];
    let buffer = InterleavedCoordBuffer::new(words.clone());
    assert_eq!(buffer.len(), 2);
    assert_eq!(buffer.get_x(1), 3f64.to_bits());
    assert_eq!(buffer.get_y(0), 2f64.to_bits());
    let tail = buffer.slice(1, 1);
    assert_eq!(tail.len(), 1);
    assert_eq!((tail.get_x(0), tail.get_y(0)), (3f64.to_bits(), 4f64.to_bits()));
    let again = buffer.duplicate();
    assert_eq!(again.len(), 2);
    assert_eq!(again.get_y(1), 4f64.to_bits());
    assert!(InterleavedCoordBuffer::try_new(words).is_ok());
    assert!(matches!(
        InterleavedCoordBuffer::try_new(vec![0, 0, 0]),
        Err(GeoArrowError::ShapeMismatch)
    ));
}

#[test]
fn wide_offsets_slice_and_narrow() {
    let wide = OffsetBuffer::try_new_large(vec![0, 2, 2, 5, 9]).unwrap();
    assert_eq!(wide.width(), OffsetWidth::Large);
    assert_eq!(wide.len(), 4);
    assert_eq!(wide.start_end(2), (2, 5));
    let cut = wide.slice(1, 2);
    assert_eq!(cut.len(), 2);
    assert_eq!((cut.first(), cut.last()), (2, 5));
    assert_eq!(cut.start_end(0), (2, 2));
    assert_eq!(cut.start_end(1), (2, 5));
    let copy = cut.duplicate();
    assert_eq!(copy.len(), 2);
    assert_eq!(copy.get(2), 5);
    let narrow = wide.to_width(OffsetWidth::Small).unwrap();
    assert_eq!(narrow.width(), OffsetWidth::Small);
    assert_eq!((0..5).map(|i| narrow.get(i)).collect::<Vec<_>>(), vec![0, 2, 2, 5, 9]);
    let narrow_cut = narrow.slice(2, 2);
    assert_eq!((0..3).map(|i| narrow_cut.get(i)).collect::<Vec<_>>(), vec![2, 5, 9]);
    let beyond = OffsetBuffer::try_new_large(vec![0, i32::MAX as i64 + 1]).unwrap();
    assert!(beyond.to_width(OffsetWidth::Small).is_none());
    assert_eq!(beyond.to_width(OffsetWidth::Large).unwrap().last(), i32::MAX as usize + 1);
}

#[test]
fn polygons_slice_without_copying() {
    let mut builder = PolygonBuilder::new(OffsetWidth::Large);
    builder.push_polygon(Some(&&vec![ring(0.)])).unwrap();
    builder.push_polygon::<&Vec<Vec<Coord>>>(None).unwrap();
    builder.push_polygon(Some(&&vec![ring(10.), ring(11.)])).unwrap();
    builder.push_polygon(Some(&&vec![ring(20.)])).unwrap();
    let array = builder.finish();
    let tail = array.slice(2, 2);
    assert_eq!(tail.len(), 2);
    assert_eq!(polygon_to_geo(&tail.value(0)), vec![ring(10.), ring(11.)]);
    assert_eq!(polygon_to_geo(&tail.value(1)), vec![ring(20.)]);
    let middle = array.slice(1, 2);
    assert!(middle.is_null(0));
    assert!(middle.is_valid(1));
    assert_eq!(polygon_to_geo(&middle.value(0)), Vec::<Vec<Coord>>::new());
    // a slice of a slice counts from the slice
    let last = tail.slice(1, 1);
    assert_eq!(polygon_to_geo(&last.value(0)), vec![ring(20.)]);
    assert_eq!(array.slice(4, 0).len(), 0);
}

#[test]
fn a_multi_polygon_taken_out_of_its_array() {
    let first = vec![vec![ring(0.)]];
    let second = vec![vec![ring(10.), ring(11.)], vec![ring(20.)]];
    let mut builder = MultiPolygonBuilder::new(OffsetWidth::Small);
    builder.push_multi_polygon(Some(&&first)).unwrap();
    builder.push_multi_polygon(Some(&&second)).unwrap();
    let array = builder.finish();
    let (coords, geom_offsets, polygon_offsets, ring_offsets, index) =
        array.value(1).into_owned_inner();
    assert_eq!(index, 0);
    assert_eq!(geom_offsets.len(), 1);
    assert_eq!(geom_offsets.start_end(0), (1, 3));
    let alone = MultiPolygonArray::try_new(
        coords,
        geom_offsets,
        polygon_offsets,
        ring_offsets,
        Validity::all_valid(),
        ArrayMetadata::new(),
    )
    .unwrap();
    assert_eq!(alone.len(), 1);
    assert_eq!(multi_polygon_to_geo(&alone.value(0)), second);
}

#[test]
fn a_collection_with_buffers_of_its_own() {
    let mut members = MixedGeometryBuilder::new(OffsetWidth::Small);
    members.push_point(Some(&c(1., 2.))).unwrap();
    members.push_point(Some(&c(3., 4.))).unwrap();
    members.push_line_string(Some(&&vec![c(0., 1.), c(1., 2.)])).unwrap();
    let array = GeometryCollectionArray::new(
        members.finish(),
        OffsetBuffer::try_new_small(vec![0, 1, 3]).unwrap(),
        Validity::all_valid(),
        ArrayMetadata::new(),
    );
    assert_eq!(array.len(), 2);
    let mixed = array.members().slice(0, array.members().len());
    let owned = OwnedGeometryCollection::new(mixed, array.geom_offsets().duplicate(), 1);
    assert_eq!(owned.num_geometries(), 2);
    let scalar = owned.as_scalar();
    assert!(matches!(
        scalar.geometry(0).map(|g| geometry_to_geo(&g)),
        Some(Geometry::Point(p)) if p == c(3., 4.)
    ));
    assert!(matches!(
        scalar.geometry(1).map(|g| geometry_to_geo(&g)),
        Some(Geometry::LineString(l)) if l == vec![c(0., 1.), c(1., 2.)]
    ));
    let back = owned.into_array();
    assert_eq!(back.len(), 2);
    assert!(back.is_valid(0) && back.is_valid(1));
    assert_eq!(back.value(1).num_geometries(), 2);
    assert_eq!(back.value(0).num_geometries(), 1);
}

#[test]
fn extended_wkb_fills_a_mixed_array() {
    let mut builder = MixedGeometryBuilder::new(OffsetWidth::Small);
    builder.push_point(Some(&c(1., 2.))).unwrap();
    builder.push_null();
    builder.push_line_string(Some(&&vec![c(0., 1.), c(1., 2.)])).unwrap();
    let mixed = builder.finish();
    let wkb = to_wkb(&GeometryArray::Mixed(mixed), OffsetWidth::Small).unwrap();
    assert_eq!(wkb.len(), 3);
    assert_eq!(wkb.bytes_at(0).len(), 21);
    assert_eq!(
        wkb.bytes_at(0).to_vec(),
        encode_wkb(&AnyGeometry::Geometry(Geometry::Point(c(1., 2.))), Endianness::LittleEndian)
            .unwrap()
    );
    assert_eq!(wkb.slice(2, 1).bytes_at(0), wkb.bytes_at(2));
    assert_eq!(wkb.slice(0, 1).bytes_at(0).len(), 21);
    let read = MixedGeometryArray::from_ewkb(&wkb, OffsetWidth::Large, CoordType::Separated).unwrap();
    assert_eq!(read.len(), 3);
    assert_eq!(read.width(), OffsetWidth::Large);
    assert_eq!(read.coord_type(), CoordType::Separated);
    assert!(read.is_valid(0) && read.is_null(1) && read.is_valid(2));
    assert!(matches!(geometry_to_geo(&read.value(0)), Geometry::Point(p) if p == c(1., 2.)));
    assert!(matches!(
        geometry_to_geo(&read.value(2)),
        Geometry::LineString(l) if l == vec![c(0., 1.), c(1., 2.)]
    ));
}

#[test]
fn arrays_tell_their_type_and_dimension() {
    let mut points = PointBuilder::new();
    points.push_point(Some(&c(1., 2.)));
    let points = points.finish();
    assert_eq!(point_to_geo(&points.value(0)), c(1., 2.));
    let array = GeometryArray::Point(points);
    assert_eq!(array.data_type(), GeoDataType::Point(CoordType::Interleaved));
    assert_eq!(array.dimension(), Dimension::XY);
    assert_eq!(array.len(), 1);
    let lines = GeometryArray::LineString(LineStringBuilder::new(OffsetWidth::Large).finish());
    assert_eq!(lines.data_type(), GeoDataType::LargeLineString(CoordType::Interleaved));
    let collections =
        GeometryArray::GeometryCollection(GeometryCollectionBuilder::new(OffsetWidth::Small).finish());
    assert_eq!(
        collections.data_type(),
        GeoDataType::GeometryCollection(CoordType::Interleaved)
    );
    assert!(collections.holds_collections());
    assert!(!array.holds_collections());
}

#[test]
fn coordinate_buffers_keep_their_layout_when_sliced() {
    let buffer = CoordBuffer::Interleaved(InterleavedCoordBuffer::new(vec![
        1f64.to_bits(),
        2f64.to_bits(),
        3f64.to_bits(),
        4f64.to_bits(),
        5f64.to_bits(),
        6f64.to_bits(),
    ]));
    let cut = buffer.slice(1, 2);
    assert_eq!(cut.coord_type(), CoordType::Interleaved);
    assert_eq!(cut.len(), 2);
    assert_eq!(cut.value(0), c(3., 4.));
    assert_eq!(cut.value(1), c(5., 6.));
}

fn wkb_array_of(elements: &[Option<Vec<u8>>]) -> geoarrow::array::binary::WKBArray {
    let mut bytes = Vec::new();
    let mut ends = vec![0i32];
    let mut validity = geoarrow::validity::ValidityBuilder::with_capacity(elements.len());
    for e in elements {
        if let Some(b) = e {
            bytes.extend_from_slice(b);
        }
        ends.push(bytes.len() as i32);
        validity.append(e.is_some());
    }
    geoarrow::array::binary::WKBArray::try_new(
        bytes,
        OffsetBuffer::try_new_small(ends).unwrap(),
        validity.finish(),
        ArrayMetadata::new(),
    )
    .unwrap()
}

fn wkb_of(g: Geometry) -> Vec<u8> {
    encode_wkb(&AnyGeometry::Geometry(g), Endianness::LittleEndian).unwrap()
}

#[test]
fn extended_wkb_fills_collections() {
    let point = wkb_of(Geometry::Point(c(1., 2.)));
    let line = wkb_of(Geometry::LineString(vec![c(0., 1.), c(1., 2.)]));
    let both = encode_wkb(
        &AnyGeometry::GeometryCollection(vec![
            Geometry::LineString(vec![c(3., 4.), c(5., 6.)]),
            Geometry::MultiPoint(vec![c(7., 8.), c(9., 10.)]),
            Geometry::Point(c(11., 12.)),
        ]),
        Endianness::BigEndian,
    )
    .unwrap();
    let none = encode_wkb(&AnyGeometry::GeometryCollection(vec![]), Endianness::LittleEndian).unwrap();
    let wkb = wkb_array_of(&[Some(point.clone()), None, Some(both), Some(none), Some(line)]);
    let read = GeometryCollectionArray::from_ewkb(&wkb, OffsetWidth::Large, CoordType::Separated)
        .unwrap();
    assert_eq!(read.len(), 5);
    assert_eq!(read.width(), OffsetWidth::Large);
    assert_eq!(read.coord_type(), CoordType::Separated);
    let sizes: Vec<usize> = (0..5).map(|i| read.value(i).num_geometries()).collect();
    assert_eq!(sizes, vec![1, 0, 3, 0, 1]);
    let present: Vec<bool> = (0..5).map(|i| read.is_valid(i)).collect();
    assert_eq!(present, vec![true, false, true, true, true]);
    assert_eq!(read.members().len(), 5);
    // single geometries are stored as their multi shape
    assert!(matches!(
        read.value(0).geometry(0).map(|g| geometry_to_geo(&g)),
        Some(Geometry::MultiPoint(m)) if m == vec![c(1., 2.)]
    ));
    let third = read.value(2);
    assert!(matches!(
        third.geometry(0).map(|g| geometry_to_geo(&g)),
        Some(Geometry::MultiLineString(m)) if m == vec![vec![c(3., 4.), c(5., 6.)]]
    ));
    assert!(matches!(
        third.geometry(1).map(|g| geometry_to_geo(&g)),
        Some(Geometry::MultiPoint(m)) if m == vec![c(7., 8.), c(9., 10.)]
    ));
    assert!(matches!(
        third.geometry(2).map(|g| geometry_to_geo(&g)),
        Some(Geometry::MultiPoint(m)) if m == vec![c(11., 12.)]
    ));
    assert!(third.geometry(3).is_none());
    assert!(matches!(
        read.value(4).geometry(0).map(|g| geometry_to_geo(&g)),
        Some(Geometry::MultiLineString(m)) if m == vec![vec![c(0., 1.), c(1., 2.)]]
    ));

    // the first element that does not decode decides
    let broken = wkb_array_of(&[Some(point.clone()), Some(point[..20].to_vec()), Some(vec![9])]);
    assert!(matches!(
        GeometryCollectionArray::from_ewkb(&broken, OffsetWidth::Small, CoordType::Interleaved),
        Err(GeoArrowError::TruncatedInput)
    ));
    // what lies outside a slice is not decoded
    let mut odd = wkb_array_of(&[Some(point), Some(vec![9])]);
    odd = odd.slice(0, 1);
    assert_eq!(
        GeometryCollectionArray::from_ewkb(&odd, OffsetWidth::Small, CoordType::Interleaved)
            .unwrap()
            .len(),
        1
    );
}

#[test]
fn the_element_that_does_not_decode_is_named() {
    let point = wkb_of(Geometry::Point(c(1., 2.)));
    let good = wkb_array_of(&[Some(point.clone()), None, Some(point.clone())]);
    let all = decode_elements(&good).unwrap();
    assert_eq!(all.len(), 3);
    assert!(matches!(&all[0], Some(AnyGeometry::Geometry(Geometry::Point(p))) if *p == c(1., 2.)));
    assert!(all[1].is_none());
    let broken = wkb_array_of(&[
        Some(point.clone()),
        None,
        Some(point[..5].to_vec()),
        Some(vec![7]),
    ]);
    assert!(matches!(decode_elements(&broken), Err((2, GeoArrowError::TruncatedInput))));
    let unknown = wkb_array_of(&[Some(vec![7, 1, 0, 0, 0]), Some(point)]);
    assert!(matches!(decode_elements(&unknown), Err((0, GeoArrowError::InvalidEncoding))));
}

#[test]
fn a_multi_polygon_with_buffers_of_its_own() {
    let first = vec![vec![ring(0.)]];
    let second = vec![vec![ring(10.), ring(11.)], vec![ring(20.)]];
    let mut builder = MultiPolygonBuilder::new(OffsetWidth::Small);
    builder.push_multi_polygon(Some(&&first)).unwrap();
    builder.push_multi_polygon(Some(&&second)).unwrap();
    let array = builder.finish();
    let owned = array.value(1).into_owned();
    drop(array);
    assert_eq!(owned.num_polygons(), 2);
    assert_eq!(multi_polygon_to_geo(&owned.as_scalar()), second);
    let (coords, geom_offsets, polygon_offsets, ring_offsets, index) =
        owned.as_scalar().into_owned_inner();
    let again = MultiPolygon::new_owned(coords, geom_offsets, polygon_offsets, ring_offsets, index);
    assert_eq!(again.as_scalar().num_polygons(), 2);
    assert_eq!(multi_polygon_to_geo(&again.as_scalar()), second);
}

#[test]
fn slicing_with_bounds_shown_by_the_caller() {
    let mut builder = LineStringBuilder::new(OffsetWidth::Small);
    builder.push_line_string(Some(&&vec![c(0., 1.), c(1., 2.)])).unwrap();
    builder.push_line_string::<&Vec<Coord>>(None).unwrap();
    builder.push_line_string(Some(&&vec![c(3., 4.), c(5., 6.), c(7., 8.)])).unwrap();
    let lines = builder.finish();
    let tail = lines.slice_unchecked(1, 2);
    assert_eq!(tail.len(), 2);
    assert!(tail.is_null(0));
    assert_eq!(
        geoarrow::io::geo::line_string_to_geo(&tail.value(1)),
        vec![c(3., 4.), c(5., 6.), c(7., 8.)]
    );
    // the coordinates are shared, not cut
    assert_eq!(tail.coords().len(), 5);
    let coords = lines.coords().slice_unchecked(2, 3);
    assert_eq!(coords.len(), 3);
    assert_eq!(coords.value(0), c(3., 4.));
    assert_eq!(coords.value(2), c(7., 8.));
}

#[test]
fn a_mixed_builder_for_geometries_of_unknown_shape() {
    let mut builder = MixedGeometryBuilder::with_geom_capacity_and_options(
        OffsetWidth::Large,
        10,
        CoordType::Separated,
        ArrayMetadata::new(),
    );
    assert_eq!(builder.len(), 0);
    assert!(!builder.prefer_multi());
    builder.push_point(Some(&c(1., 2.))).unwrap();
    let array = builder.finish();
    assert_eq!(array.len(), 1);
    assert_eq!(array.type_id(0), 1);
    assert_eq!(array.width(), OffsetWidth::Large);
    assert_eq!(array.coord_type(), CoordType::Separated);
}

#[test]
fn collections_are_pushed_member_by_member() {
    let first = vec![
        Geometry::Point(c(1., 2.)),
        Geometry::LineString(vec![c(0., 1.), c(1., 2.)]),
        Geometry::MultiPoint(vec![c(3., 4.), c(5., 6.)]),
    ];
    let empty: Vec<Geometry> = vec![];
    let mut builder = GeometryCollectionBuilder::new(OffsetWidth::Small);
    builder.push_geometry_collection(Some(&&first), false).unwrap();
    builder.push_geometry_collection::<&Vec<Geometry>>(None, false).unwrap();
    builder.push_geometry_collection(Some(&&empty), false).unwrap();
    builder.push_geometry_collection(Some(&&first), true).unwrap();
    assert_eq!(builder.len(), 4);
    let array = builder.finish();
    assert_eq!(array.len(), 4);
    let sizes: Vec<usize> = (0..4).map(|i| array.value(i).num_geometries()).collect();
    assert_eq!(sizes, vec![3, 0, 0, 3]);
    let present: Vec<bool> = (0..4).map(|i| array.is_valid(i)).collect();
    assert_eq!(present, vec![true, false, true, true]);
    assert_eq!(array.members().len(), 6);
    assert_eq!((0..4).map(|i| array.geom_offsets().get(i + 1)).collect::<Vec<_>>(), vec![3, 3, 3, 6]);
    let as_pushed = array.value(0);
    assert!(matches!(
        as_pushed.geometry(0).map(|g| geometry_to_geo(&g)),
        Some(Geometry::Point(p)) if p == c(1., 2.)
    ));
    assert!(matches!(
        as_pushed.geometry(1).map(|g| geometry_to_geo(&g)),
        Some(Geometry::LineString(l)) if l == vec![c(0., 1.), c(1., 2.)]
    ));
    assert!(matches!(
        as_pushed.geometry(2).map(|g| geometry_to_geo(&g)),
        Some(Geometry::MultiPoint(m)) if m == vec![c(3., 4.), c(5., 6.)]
    ));
    assert!((0..3).all(|j| as_pushed.is_member_valid(j)));
    let as_multi = array.value(3);
    assert!(matches!(
        as_multi.geometry(0).map(|g| geometry_to_geo(&g)),
        Some(Geometry::MultiPoint(m)) if m == vec![c(1., 2.)]
    ));
    assert!(matches!(
        as_multi.geometry(1).map(|g| geometry_to_geo(&g)),
        Some(Geometry::MultiLineString(m)) if m == vec![vec![c(0., 1.), c(1., 2.)]]
    ));

    // a collection read in place from one array is pushed to another
    let mut copy = GeometryCollectionBuilder::new(OffsetWidth::Large);
    copy.push_geometry_collection(Some(&array.value(0)), false).unwrap();
    let copy = copy.finish();
    assert_eq!(copy.len(), 1);
    assert_eq!(copy.value(0).num_geometries(), 3);
    assert!(matches!(
        copy.value(0).geometry(2).map(|g| geometry_to_geo(&g)),
        Some(Geometry::MultiPoint(m)) if m == vec![c(3., 4.), c(5., 6.)]
    ));
}

#[test]
fn a_mixed_builder_takes_a_collection_of_one_member() {
    let one = vec![Geometry::LineString(vec![c(0., 1.), c(1., 2.)])];
    let two = vec![Geometry::Point(c(1., 2.)), Geometry::Point(c(3., 4.))];
    let none: Vec<Geometry> = vec![];
    let mut builder = MixedGeometryBuilder::new(OffsetWidth::Small);
    builder.push_geometry_collection(Some(&&one)).unwrap();
    assert!(matches!(
        builder.push_geometry_collection(Some(&&two)),
        Err(GeoArrowError::UnsupportedNesting)
    ));
    assert!(matches!(
        builder.push_geometry_collection(Some(&&none)),
        Err(GeoArrowError::UnsupportedNesting)
    ));
    builder.push_geometry_collection::<&Vec<Geometry>>(None).unwrap();
    assert_eq!(builder.len(), 2);
    let array = builder.finish();
    assert_eq!(array.type_id(0), 2);
    assert!(array.is_valid(0) && array.is_null(1));
    assert!(matches!(
        geometry_to_geo(&array.value(0)),
        Geometry::LineString(l) if l == vec![c(0., 1.), c(1., 2.)]
    ));
}
