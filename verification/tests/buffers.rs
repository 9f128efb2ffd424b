use geoarrow::algorithm::native::cast::{
    cast_line_string_array, cast_mixed_array, cast_multi_line_string_array, cast_point_array,
    cast_polygon_array, GeometryArray,
};
use geoarrow::array::linestring::LineStringBuilder;
use geoarrow::array::mixed::MixedGeometryBuilder;
use geoarrow::array::multilinestring::MultiLineStringBuilder;
use geoarrow::array::point::PointBuilder;
use geoarrow::array::polygon::PolygonBuilder;
use geoarrow::coord::{Coord, CoordType};
use geoarrow::datatypes::GeoDataType;
use geoarrow::offsets::{OffsetBuffer, OffsetWidth};
use geoarrow::test::point::point_array;

fn c(x: f64, y: f64) -> Coord {
    Coord { x: x.to_bits(), y: y.to_bits() }
}

fn all(offsets: &OffsetBuffer) -> Vec<usize> {
    (0..=offsets.len()).map(|i| offsets.get(i)).collect()
}

fn ring(x: f64) -> Vec<Coord> {
    vec![c(x, 0.), c(x + 5., 0.), c(x + 5., 6.), c(x, 0.)]
}

#[test]
fn an_absent_element_of_mixed_shape_takes_no_coordinate() {
    for prefer_multi in [false, true] {
        let mut builder = MixedGeometryBuilder::new_with_options(
            OffsetWidth::Small,
            CoordType::Interleaved,
            geoarrow::array::metadata::ArrayMetadata::new(),
            prefer_multi,
        );
        builder.push_line_string(Some(&&vec![c(0., 1.), c(1., 2.)])).unwrap();
        builder.push_null().unwrap();
        builder.push_point::<Coord>(None).unwrap();
        builder.push_null().unwrap();
        assert_eq!(builder.len(), 4);
        let array = builder.finish();
        assert_eq!(array.len(), 4);
        assert!(array.is_valid(0));
        assert!(array.is_null(1) && array.is_null(2) && array.is_null(3));
        // absent elements are empty runs of the child of multi points
        assert_eq!((1..4).map(|i| array.type_id(i)).collect::<Vec<_>>(), vec![4, 4, 4]);
        assert_eq!((1..4).map(|i| array.child_index(i)).collect::<Vec<_>>(), vec![0, 1, 2]);
        assert_eq!(all(array.multi_points().geom_offsets()), vec![0, 0, 0, 0]);
        assert_eq!(array.multi_points().coords().len(), 0);
        assert_eq!(array.points().len(), 0);
        let lengths = array.buffer_lengths();
        assert_eq!(lengths.point, 0);
        assert_eq!(lengths.multi_point.coord_capacity, 0);
        assert_eq!(lengths.multi_point.geom_capacity, 3);
    }
}

#[test]
fn points_cast_to_multi_points_of_one_run_each() {
    let points = point_array();
    let multi = match cast_point_array(&points, &GeoDataType::MultiPoint(CoordType::Interleaved)) {
        Ok(GeometryArray::MultiPoint(m)) => m,
        _ => panic!("expected multi points"),
    };
    assert_eq!(multi.len(), 3);
    assert_eq!(all(multi.geom_offsets()), vec![0, 1, 2, 3]);
    assert_eq!(multi.coords().len(), 3);
    let words: Vec<(f64, f64)> = (0..3)
        .map(|i| (f64::from_bits(multi.coords().get_x(i)), f64::from_bits(multi.coords().get_y(i))))
        .collect();
    assert_eq!(words, vec![(0., 1.), (1., 2.), (2., 3.)]);
    assert!(!multi.validity().is_some());

    // an absent point is an empty run, and a bitmap is held
    let mut builder = PointBuilder::new();
    builder.push_point(Some(&c(0., 1.)));
    builder.push_point::<Coord>(None);
    builder.push_point(Some(&c(2., 3.)));
    let with_null = builder.finish();
    let multi = match cast_point_array(&with_null, &GeoDataType::LargeMultiPoint(CoordType::Separated)) {
        Ok(GeometryArray::MultiPoint(m)) => m,
        _ => panic!("expected multi points"),
    };
    assert_eq!(all(multi.geom_offsets()), vec![0, 1, 1, 2]);
    assert_eq!(multi.coords().len(), 2);
    assert!(multi.validity().is_some());
    // in an array of mixed shape the absent point takes no coordinate either
    let mixed = match cast_point_array(&with_null, &GeoDataType::Mixed(CoordType::Interleaved)) {
        Ok(GeometryArray::Mixed(m)) => m,
        _ => panic!("expected an array of mixed shape"),
    };
    assert_eq!((0..3).map(|i| mixed.type_id(i)).collect::<Vec<_>>(), vec![1, 4, 1]);
    assert_eq!(mixed.points().len(), 2);
    assert_eq!(mixed.multi_points().coords().len(), 0);
    let back = match cast_mixed_array(&mixed, &GeoDataType::Point(CoordType::Interleaved)) {
        Ok(GeometryArray::Point(p)) => p,
        _ => panic!("expected points"),
    };
    assert_eq!(back.len(), 3);
    assert!(back.is_valid(0) && back.is_null(1) && back.is_valid(2));
    assert_eq!(geoarrow::io::geo::point_to_geo(&back.value(2)), c(2., 3.));
}

#[test]
fn line_strings_keep_their_four_coordinates_through_mixed_shape() {
    let mut builder = LineStringBuilder::new(OffsetWidth::Small);
    builder.push_line_string(Some(&&vec![c(0., 1.), c(1., 2.)])).unwrap();
    builder.push_line_string(Some(&&vec![c(3., 4.), c(5., 6.)])).unwrap();
    let lines = builder.finish();
    assert_eq!(lines.coords().len(), 4);
    assert_eq!(all(lines.geom_offsets()), vec![0, 2, 4]);
    let mixed = match cast_line_string_array(&lines, &GeoDataType::Mixed(CoordType::Interleaved)) {
        Ok(GeometryArray::Mixed(m)) => m,
        _ => panic!("expected an array of mixed shape"),
    };
    assert_eq!((0..2).map(|i| mixed.type_id(i)).collect::<Vec<_>>(), vec![2, 2]);
    assert_eq!((0..2).map(|i| mixed.child_index(i)).collect::<Vec<_>>(), vec![0, 1]);
    assert_eq!(mixed.line_strings().coords().len(), 4);
    assert_eq!(all(mixed.line_strings().geom_offsets()), vec![0, 2, 4]);
    assert_eq!(mixed.points().len(), 0);
    assert_eq!(mixed.polygons().len(), 0);
    assert_eq!(mixed.multi_points().len(), 0);
    assert_eq!(mixed.multi_line_strings().len(), 0);
    assert_eq!(mixed.multi_polygons().len(), 0);
    let back = match cast_mixed_array(&mixed, &GeoDataType::LineString(CoordType::Interleaved)) {
        Ok(GeometryArray::LineString(l)) => l,
        _ => panic!("expected line strings"),
    };
    assert_eq!(all(back.geom_offsets()), vec![0, 2, 4]);
    assert_eq!(back.coords().len(), 4);
    assert!(!back.validity().is_some());
    let collections =
        match cast_mixed_array(&mixed, &GeoDataType::GeometryCollection(CoordType::Interleaved)) {
            Ok(GeometryArray::GeometryCollection(g)) => g,
            _ => panic!("expected collections"),
        };
    assert_eq!(all(collections.geom_offsets()), vec![0, 1, 2]);
    assert_eq!(collections.members().line_strings().coords().len(), 4);
}

#[test]
fn one_level_of_runs_of_one_is_added_and_removed() {
    let mut builder = PolygonBuilder::new(OffsetWidth::Small);
    builder.push_polygon(Some(&&vec![ring(0.), ring(1.)])).unwrap();
    builder.push_polygon(Some(&&vec![ring(2.)])).unwrap();
    let polygons = builder.finish();
    let multi = match cast_polygon_array(&polygons, &GeoDataType::MultiPolygon(CoordType::Interleaved)) {
        Ok(GeometryArray::MultiPolygon(m)) => m,
        _ => panic!("expected multi polygons"),
    };
    assert_eq!(all(multi.geom_offsets()), vec![0, 1, 2]);
    assert_eq!(all(multi.polygon_offsets()), all(polygons.geom_offsets()));
    assert_eq!(all(multi.ring_offsets()), all(polygons.ring_offsets()));
    assert_eq!(multi.coords().len(), polygons.coords().len());

    let mut builder = MultiLineStringBuilder::new(OffsetWidth::Small);
    builder.push_multi_line_string(Some(&&vec![vec![c(0., 1.), c(1., 2.)]])).unwrap();
    builder.push_multi_line_string(Some(&&vec![vec![c(3., 4.), c(5., 6.), c(7., 8.)]])).unwrap();
    let multi_lines = builder.finish();
    let lines = match cast_multi_line_string_array(
        &multi_lines,
        &GeoDataType::LineString(CoordType::Interleaved),
    ) {
        Ok(GeometryArray::LineString(l)) => l,
        _ => panic!("expected line strings"),
    };
    assert_eq!(all(lines.geom_offsets()), all(multi_lines.ring_offsets()));
    assert_eq!(all(lines.geom_offsets()), vec![0, 2, 5]);
    assert_eq!(lines.coords().len(), 5);
}

#[test]
fn a_slice_keeps_the_buffer_and_drops_a_bitmap_without_absent_elements() {
    let mut builder = LineStringBuilder::new(OffsetWidth::Small);
    builder.push_line_string(Some(&&vec![c(0., 1.), c(1., 2.)])).unwrap();
    builder.push_line_string::<&Vec<Coord>>(None).unwrap();
    builder.push_line_string(Some(&&vec![c(3., 4.), c(5., 6.), c(7., 8.)])).unwrap();
    let lines = builder.finish();
    assert!(lines.validity().is_some());
    let tail = lines.slice(2, 1);
    assert_eq!(tail.coords().len(), lines.coords().len());
    assert_eq!(all(tail.geom_offsets()), vec![2, 5]);
    assert!(!tail.validity().is_some());
    let head = lines.slice_unchecked(0, 1);
    assert_eq!(all(head.geom_offsets()), vec![0, 2]);
    assert!(!head.validity().is_some());
    let middle = lines.slice_unchecked(0, 2);
    assert!(middle.validity().is_some());
    assert_eq!(middle.validity().bitmap_len(), Some(2));
    assert_eq!(middle.coords().len(), 5);
}
