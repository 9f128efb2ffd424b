use geoarrow::algorithm::native::cast::{
    can_cast_types, cast_line_string_array, cast_mixed_array, cast_multi_point_array,
    cast_point_array, Cast, CastOptions, GeometryArray,
};
use geoarrow::array::linestring::{LineStringArray, LineStringBuilder};
use geoarrow::array::metadata::ArrayMetadata;
use geoarrow::array::mixed::MixedGeometryBuilder;
use geoarrow::array::multipoint::MultiPointBuilder;
use geoarrow::array::point::PointBuilder;
use geoarrow::coord::{Coord, CoordType};
use geoarrow::datatypes::GeoDataType;
use geoarrow::error::GeoArrowError;
use geoarrow::geo_traits::{LineStringTrait, MultiPointTrait, PointTrait};
use geoarrow::io::geo::{geometry_to_geo, line_string_to_geo, multi_point_to_geo, point_to_geo};
use geoarrow::geometry::Geometry;
use geoarrow::offsets::OffsetWidth;

fn c(x: f64, y: f64) -> Coord {
    Coord { x: x.to_bits(), y: y.to_bits() }
}

fn ls0() -> Vec<Coord> {
    vec![c(0., 1.), c(1., 2.)]
}

fn ls1() -> Vec<Coord> {
    vec![c(3., 4.), c(5., 6.)]
}

fn two_lines() -> LineStringArray {
    let mut builder = LineStringBuilder::new(OffsetWidth::Small);
    builder.push_line_string(Some(&&ls0())).unwrap();
    builder.push_line_string(Some(&&ls1())).unwrap();
    builder.finish()
}

#[test]
fn cast_options_default_is_safe() {
    assert!(CastOptions::default().safe);
}

#[test]
fn line_strings_to_mixed_and_back() {
    let lines = two_lines();
    assert_eq!(lines.coords().len(), 4);
    let mixed = match cast_line_string_array(&lines, &GeoDataType::Mixed(CoordType::Interleaved)) {
        Ok(GeometryArray::Mixed(m)) => m,
        _ => panic!("expected an array of mixed shape"),
    };
    assert_eq!(mixed.len(), 2);
    assert_eq!(mixed.line_strings().coords().len(), 4);
    let back = match cast_mixed_array(&mixed, &GeoDataType::LineString(CoordType::Interleaved)) {
        Ok(GeometryArray::LineString(l)) => l,
        _ => panic!("expected line strings"),
    };
    assert_eq!(back.len(), 2);
    assert_eq!(back.coords().len(), 4);
    assert!(back.is_valid(0) && back.is_valid(1));
    assert_eq!(line_string_to_geo(&back.value(0)), ls0());
    assert_eq!(line_string_to_geo(&back.value(1)), ls1());
}

#[test]
fn points_up_to_multi_points_and_down_again() {
    let mut builder = PointBuilder::new();
    builder.push_point(Some(&c(0., 1.)));
    builder.push_point(Some(&c(1., 2.)));
    let points = builder.finish();
    let up = match cast_point_array(&points, &GeoDataType::MultiPoint(CoordType::Separated)) {
        Ok(GeometryArray::MultiPoint(m)) => m,
        _ => panic!("expected multi points"),
    };
    assert_eq!(up.len(), 2);
    assert_eq!(up.coord_type(), CoordType::Separated);
    assert_eq!(multi_point_to_geo(&up.value(1)), vec![c(1., 2.)]);
    let down = match cast_multi_point_array(&up, &GeoDataType::Point(CoordType::Interleaved)) {
        Ok(GeometryArray::Point(p)) => p,
        _ => panic!("expected points"),
    };
    assert_eq!(down.len(), 2);
    assert_eq!(point_to_geo(&down.value(0)), c(0., 1.));
    assert_eq!(point_to_geo(&down.value(1)), c(1., 2.));
}

#[test]
fn multi_points_of_two_points_do_not_cast_down() {
    let mut builder = MultiPointBuilder::new(OffsetWidth::Small);
    builder.push_multi_point(Some(&&vec![c(0., 1.)])).unwrap();
    builder.push_multi_point(Some(&&vec![c(1., 2.), c(3., 4.)])).unwrap();
    let array = builder.finish();
    let r = cast_multi_point_array(&array, &GeoDataType::Point(CoordType::Interleaved));
    assert!(matches!(r, Err(GeoArrowError::ShapeMismatch)));
    // the source is untouched
    assert_eq!(array.len(), 2);
    assert_eq!(multi_point_to_geo(&array.value(1)), vec![c(1., 2.), c(3., 4.)]);
}

#[test]
fn empty_multi_point_does_not_cast_down() {
    let mut builder = MultiPointBuilder::new(OffsetWidth::Small);
    builder.push_multi_point(Some(&&Vec::<Coord>::new())).unwrap();
    let array = builder.finish();
    let r = cast_multi_point_array(&array, &GeoDataType::Point(CoordType::Interleaved));
    assert!(matches!(r, Err(GeoArrowError::ShapeMismatch)));
}

#[test]
fn points_do_not_cast_to_line_strings() {
    let mut builder = PointBuilder::new();
    builder.push_point(Some(&c(0., 1.)));
    let points = builder.finish();
    let to = GeoDataType::LineString(CoordType::Interleaved);
    assert!(!can_cast_types(&points.data_type(), &to));
    assert!(matches!(cast_point_array(&points, &to), Err(GeoArrowError::ShapeMismatch)));
    assert!(matches!(
        GeometryArray::Point(points).cast(&to),
        Err(GeoArrowError::ShapeMismatch)
    ));
}

#[test]
fn mixed_elements_must_have_the_target_shape() {
    let lines = two_lines();
    let mixed = match cast_line_string_array(&lines, &GeoDataType::Mixed(CoordType::Interleaved)) {
        Ok(GeometryArray::Mixed(m)) => m,
        _ => panic!("expected an array of mixed shape"),
    };
    assert!(matches!(
        cast_mixed_array(&mixed, &GeoDataType::Polygon(CoordType::Interleaved)),
        Err(GeoArrowError::ShapeMismatch)
    ));
    // line strings are no multi line strings, not even of one part
    assert!(matches!(
        cast_mixed_array(&mixed, &GeoDataType::LargeMultiLineString(CoordType::Interleaved)),
        Err(GeoArrowError::ShapeMismatch)
    ));
    let wide = match cast_mixed_array(&mixed, &GeoDataType::LargeLineString(CoordType::Separated)) {
        Ok(GeometryArray::LineString(l)) => l,
        _ => panic!("expected line strings"),
    };
    assert_eq!(wide.width(), OffsetWidth::Large);
    assert_eq!(wide.coord_type(), CoordType::Separated);
    assert_eq!(line_string_to_geo(&wide.value(1)), ls1());
    let g = geometry_to_geo(&mixed.value(1));
    assert!(matches!(g, Geometry::LineString(ref l) if *l == ls1()));
}

#[test]
fn a_multi_point_of_one_among_mixed_elements_is_no_point() {
    let mut builder = MixedGeometryBuilder::new(OffsetWidth::Small);
    builder.push_point(Some(&c(0., 1.))).unwrap();
    builder.push_multi_point(Some(&&vec![c(1., 2.)])).unwrap();
    let mixed = builder.finish();
    assert!(matches!(
        cast_mixed_array(&mixed, &GeoDataType::Point(CoordType::Interleaved)),
        Err(GeoArrowError::ShapeMismatch)
    ));
    assert!(matches!(
        cast_mixed_array(&mixed, &GeoDataType::MultiPoint(CoordType::Interleaved)),
        Err(GeoArrowError::ShapeMismatch)
    ));
    // stored as multi points from the start, both are multi points
    let mut builder = MixedGeometryBuilder::new_with_options(
        OffsetWidth::Small,
        CoordType::Interleaved,
        ArrayMetadata::new(),
        true,
    );
    builder.push_point(Some(&c(0., 1.))).unwrap();
    builder.push_null().unwrap();
    builder.push_multi_point(Some(&&vec![c(1., 2.), c(3., 4.)])).unwrap();
    let mixed = builder.finish();
    let multi = match cast_mixed_array(&mixed, &GeoDataType::MultiPoint(CoordType::Interleaved)) {
        Ok(GeometryArray::MultiPoint(m)) => m,
        _ => panic!("expected multi points"),
    };
    assert_eq!(multi.len(), 3);
    assert_eq!(multi_point_to_geo(&multi.value(0)), vec![c(0., 1.)]);
    assert!(multi.is_null(1));
    assert_eq!(multi_point_to_geo(&multi.value(2)), vec![c(1., 2.), c(3., 4.)]);
}

#[test]
fn line_strings_to_collections_of_one() {
    let lines = two_lines();
    let gc = match cast_line_string_array(&lines, &GeoDataType::GeometryCollection(CoordType::Interleaved)) {
        Ok(GeometryArray::GeometryCollection(a)) => a,
        _ => panic!("expected collections"),
    };
    assert_eq!(gc.len(), 2);
    let first = gc.value(0);
    assert_eq!(first.num_geometries(), 1);
    let member = first.geometry(0).unwrap();
    assert!(matches!(geometry_to_geo(&member), Geometry::LineString(ref l) if *l == ls0()));
}

#[test]
fn absent_elements_stay_absent_through_a_cast() {
    let mut builder = LineStringBuilder::new(OffsetWidth::Small);
    builder.push_line_string(Some(&&ls0())).unwrap();
    builder.push_line_string::<&Vec<Coord>>(None).unwrap();
    let lines = builder.finish();
    assert!(lines.is_null(1));
    assert_eq!(lines.value(1).num_coords(), 0);
    assert_eq!(lines.coords().len(), 2);
    let large = match cast_line_string_array(&lines, &GeoDataType::LargeLineString(CoordType::Separated)) {
        Ok(GeometryArray::LineString(l)) => l,
        _ => panic!("expected line strings"),
    };
    assert_eq!(large.width(), OffsetWidth::Large);
    assert!(large.is_valid(0));
    assert!(large.is_null(1));
    assert_eq!(line_string_to_geo(&large.value(0)), ls0());
}
