use geoarrow::algorithm::geo::area::Area;
use geoarrow::algorithm::geo::euclidean_length::EuclideanLength;
use geoarrow::algorithm::native::cast::{
    cast_geometry_collection_array, cast_line_string_array, Cast, ChunkedGeometryArray,
    GeometryArray,
};
use geoarrow::array::geometrycollection::GeometryCollectionBuilder;
use geoarrow::array::linestring::LineStringBuilder;
use geoarrow::array::metadata::Edges;
use geoarrow::array::point::PointBuilder;
use geoarrow::coord::{Coord, CoordType};
use geoarrow::datatypes::{GeoDataType, Shape};
use geoarrow::error::GeoArrowError;
use geoarrow::io::geo::line_string_to_geo;
use geoarrow::io::parquet::metadata::{
    infer_geo_data_type, position_of, GeoParquetColumnMetadata, GeoParquetMetadata,
};
use geoarrow::offsets::OffsetWidth;
use geoarrow::test::point::point_array;

fn c(x: f64, y: f64) -> Coord {
    Coord { x: x.to_bits(), y: y.to_bits() }
}

fn names(v: &[&str]) -> Vec<String> {
    v.iter().map(|s| s.to_string()).collect()
}

fn infer(v: &[&str]) -> Result<Option<GeoDataType>, GeoArrowError> {
    infer_geo_data_type(&names(v), CoordType::Separated)
}

#[test]
fn array_type_of_declared_geometry_types() {
    let ct = CoordType::Separated;
    assert_eq!(infer(&[]), Ok(None));
    assert_eq!(infer(&["Point"]), Ok(Some(GeoDataType::Point(ct))));
    assert_eq!(infer(&["LineString"]), Ok(Some(GeoDataType::LineString(ct))));
    assert_eq!(infer(&["Polygon"]), Ok(Some(GeoDataType::Polygon(ct))));
    assert_eq!(infer(&["MultiPoint"]), Ok(Some(GeoDataType::MultiPoint(ct))));
    assert_eq!(infer(&["MultiLineString"]), Ok(Some(GeoDataType::MultiLineString(ct))));
    assert_eq!(infer(&["MultiPolygon"]), Ok(Some(GeoDataType::MultiPolygon(ct))));
    assert_eq!(infer(&["GeometryCollection"]), Ok(Some(GeoDataType::GeometryCollection(ct))));
    assert_eq!(infer(&["Point", "MultiPoint"]), Ok(Some(GeoDataType::MultiPoint(ct))));
    assert_eq!(infer(&["MultiLineString", "LineString"]), Ok(Some(GeoDataType::MultiLineString(ct))));
    assert_eq!(infer(&["Polygon", "MultiPolygon"]), Ok(Some(GeoDataType::MultiPolygon(ct))));
    assert_eq!(infer(&["Point", "Polygon"]), Ok(Some(GeoDataType::Mixed(ct))));
    assert_eq!(infer(&["Point", "MultiPoint", "Polygon"]), Ok(Some(GeoDataType::Mixed(ct))));
    assert_eq!(infer(&["Point Z"]), Err(GeoArrowError::ShapeMismatch));
    assert_eq!(infer(&["Polygon", "MultiPolygon Z"]), Err(GeoArrowError::ShapeMismatch));
}

fn column(encoding: &str, types: &[&str]) -> GeoParquetColumnMetadata {
    GeoParquetColumnMetadata {
        encoding: encoding.to_string(),
        geometry_types: names(types),
        crs: None,
        orientation: None,
        edges: None,
        bbox: None,
        epoch: None,
        covering: None,
    }
}

fn file(columns: Vec<(&str, GeoParquetColumnMetadata)>) -> GeoParquetMetadata {
    GeoParquetMetadata {
        version: "1.1.0".to_string(),
        primary_column: "geometry".to_string(),
        columns: columns.into_iter().map(|(n, c)| (n.to_string(), c)).collect(),
    }
}

#[test]
fn column_metadata_holds_what_it_was_given() {
    // what a file declares beyond encoding and types does not disturb either
    let mut meta = column("wkb", &["point"]);
    meta.covering = Some("{\"other_key\":true}".to_string());
    assert_eq!(meta.encoding, "wkb");
    assert_eq!(meta.geometry_types, vec!["point"]);
    assert!(meta.is_compatible_with(&column("wkb", &["point"])));
}

#[test]
fn files_that_agree_can_be_merged() {
    let left = file(vec![("geometry", column("WKB", &["Point"]))]);
    let right = file(vec![
        ("other", column("WKB", &["Polygon"])),
        ("geometry", column("WKB", &["Point"])),
    ]);
    assert!(left.is_compatible_with(&right));
    assert_eq!(left.try_compatible_with(&right), Ok(()));
    assert_eq!(right.find_column(&"geometry".to_string()), Some(1));
    assert_eq!(right.find_column(&"none".to_string()), None);
    // the right file has a column that the left one lacks
    assert_eq!(right.try_compatible_with(&left), Err(GeoArrowError::IncompatibleMetadata));
}

#[test]
fn files_that_disagree_cannot_be_merged() {
    let base = || file(vec![("geometry", column("WKB", &["Point"]))]);
    let refused = |other: GeoParquetMetadata| {
        assert!(!base().is_compatible_with(&other));
        assert_eq!(base().try_compatible_with(&other), Err(GeoArrowError::IncompatibleMetadata));
    };
    let mut other = base();
    other.version = "1.0.0".to_string();
    refused(other);
    let mut other = base();
    other.primary_column = "geom".to_string();
    refused(other);
    refused(file(vec![("geometry", column("point", &["Point"]))]));
    refused(file(vec![("geometry", column("WKB", &["Point", "MultiPoint"]))]));
    refused(file(vec![("geometry", column("WKB", &["Polygon"]))]));
    let mut with_crs = column("WKB", &["Point"]);
    with_crs.crs = Some("{}".to_string());
    refused(file(vec![("geometry", with_crs)]));

    let mut a = column("WKB", &["Point"]);
    a.crs = Some("{\"id\":1}".to_string());
    a.bbox = Some(vec![0; 4]);
    let mut b = column("WKB", &["Point"]);
    b.crs = Some("{\"id\":2}".to_string());
    assert!(!a.is_compatible_with(&b));
    b.crs = a.crs.clone();
    assert!(a.is_compatible_with(&b));
    b.bbox = Some(vec![0; 6]);
    assert!(!a.is_compatible_with(&b));
    b.bbox = Some(vec![1; 4]);
    assert!(a.is_compatible_with(&b));
    // edges are compared as they are read: nothing said means planar
    b.edges = Some("spherical".to_string());
    assert!(!a.is_compatible_with(&b));
    a.edges = Some("planar".to_string());
    assert!(!a.is_compatible_with(&b));
    b.edges = None;
    assert!(a.is_compatible_with(&b));
    a.edges = Some("spherical".to_string());
    b.edges = Some("spherical".to_string());
    assert!(a.is_compatible_with(&b));

    let mut spherical = column("WKB", &["Point"]);
    spherical.edges = Some("spherical".to_string());
    refused(file(vec![("geometry", spherical)]));
}

#[test]
fn column_metadata_becomes_array_metadata() {
    let mut col = column("WKB", &[]);
    assert_eq!(col.to_array_metadata().edges, Edges::Planar);
    col.edges = Some("planar".to_string());
    assert_eq!(col.to_array_metadata().edges, Edges::Planar);
    col.edges = Some("spherical".to_string());
    col.crs = Some("{\"id\":4326}".to_string());
    let meta = col.to_array_metadata();
    assert_eq!(meta.edges, Edges::Spherical);
    assert_eq!(meta.crs, col.crs);
}

#[test]
fn names_are_found_from_the_front() {
    let all = names(&["a", "b", "a"]);
    assert_eq!(position_of(&all, &"a".to_string()), Some(0));
    assert_eq!(position_of(&all, &"b".to_string()), Some(1));
    assert_eq!(position_of(&all, &"c".to_string()), None);
}

#[test]
fn points_and_lines_have_no_area_and_points_no_length() {
    let mut builder = PointBuilder::new();
    builder.push_point(Some(&c(1., 2.)));
    builder.push_point::<Coord>(None);
    let points = builder.finish();
    let area = points.unsigned_area();
    assert_eq!(area.len(), 2);
    assert_eq!(f64::from_bits(area.value(0)), 0.0);
    assert!(area.is_valid(0));
    assert!(!area.is_valid(1));
    assert_eq!(points.signed_area().value(1), 0);
    assert_eq!(points.euclidean_length().value(0), 0);

    let mut lines = LineStringBuilder::new(OffsetWidth::Small);
    lines.push_line_string(Some(&&vec![c(0., 0.), c(3., 4.)])).unwrap();
    let lines = lines.finish();
    assert_eq!(lines.signed_area().len(), 1);
    assert_eq!(f64::from_bits(lines.unsigned_area().value(0)), 0.0);
}

#[test]
fn chunks_are_cast_one_by_one() {
    let chunk = || {
        let mut b = LineStringBuilder::new(OffsetWidth::Small);
        b.push_line_string(Some(&&vec![c(0., 1.), c(1., 2.)])).unwrap();
        GeometryArray::LineString(b.finish())
    };
    let chunked = ChunkedGeometryArray::new(vec![chunk(), chunk(), chunk()]);
    assert_eq!(chunked.len(), Some(3));
    let cast = chunked.cast(&GeoDataType::MultiLineString(CoordType::Interleaved)).unwrap();
    assert_eq!(cast.chunks.len(), 3);
    assert!(cast.chunks.iter().all(|c| c.shape() == Shape::MultiLineString && c.len() == 1));
    // one chunk of another shape fails the whole cast
    let mixed = ChunkedGeometryArray::new(vec![chunk(), GeometryArray::Point(point_array())]);
    assert!(matches!(
        mixed.cast(&GeoDataType::MultiLineString(CoordType::Interleaved)),
        Err(GeoArrowError::ShapeMismatch)
    ));
}

#[test]
fn collections_of_one_cast_down_and_others_do_not() {
    let lines = {
        let mut b = LineStringBuilder::new(OffsetWidth::Small);
        b.push_line_string(Some(&&vec![c(0., 1.), c(1., 2.)])).unwrap();
        b.push_line_string(Some(&&vec![c(3., 4.), c(5., 6.)])).unwrap();
        b.finish()
    };
    let gc = match cast_line_string_array(&lines, &GeoDataType::GeometryCollection(CoordType::Interleaved)) {
        Ok(GeometryArray::GeometryCollection(a)) => a,
        _ => panic!("expected collections"),
    };
    let back = match cast_geometry_collection_array(&gc, &GeoDataType::LineString(CoordType::Interleaved)) {
        Ok(GeometryArray::LineString(l)) => l,
        _ => panic!("expected line strings"),
    };
    assert_eq!(back.len(), 2);
    assert_eq!(line_string_to_geo(&back.value(1)), vec![c(3., 4.), c(5., 6.)]);
    let same = match cast_geometry_collection_array(&gc, &GeoDataType::LargeGeometryCollection(CoordType::Separated)) {
        Ok(GeometryArray::GeometryCollection(a)) => a,
        _ => panic!("expected collections"),
    };
    assert_eq!(same.width(), OffsetWidth::Large);
    assert_eq!(same.coord_type(), CoordType::Separated);
    assert_eq!(same.value(1).num_geometries(), 1);
    assert!(matches!(
        cast_geometry_collection_array(&gc, &GeoDataType::Point(CoordType::Interleaved)),
        Err(GeoArrowError::ShapeMismatch)
    ));
    // an absent collection has no member to cast down
    let mut b = GeometryCollectionBuilder::new(OffsetWidth::Small);
    b.push_null();
    let with_null = b.finish();
    assert!(matches!(
        cast_geometry_collection_array(&with_null, &GeoDataType::Mixed(CoordType::Interleaved)),
        Err(GeoArrowError::ShapeMismatch)
    ));
    assert!(matches!(
        cast_geometry_collection_array(&with_null, &GeoDataType::WKB),
        Err(GeoArrowError::ShapeMismatch)
    ));
}

#[test]
fn column_names_are_keys() {
    let distinct = file(vec![
        ("geometry", column("WKB", &["Point"])),
        ("centre", column("WKB", &["Point"])),
    ]);
    assert!(distinct.check());
    assert!(file(vec![]).check());
    let twice = file(vec![
        ("geometry", column("WKB", &["Point"])),
        ("centre", column("WKB", &["Point"])),
        ("geometry", column("WKB", &["Polygon"])),
    ]);
    assert!(!twice.check());
    // the first column of a name is the one that is found
    assert_eq!(twice.find_column(&"geometry".to_string()), Some(0));
}
