use geoarrow::algorithm::native::eq::{line_string_eq, multi_polygon_eq, polygon_eq};
use geoarrow::array::geometrycollection::GeometryCollectionBuilder;
use geoarrow::array::linestring::{LineStringArray, LineStringBuilder, LineStringCapacity};
use geoarrow::array::metadata::{ArrayMetadata, Edges};
use geoarrow::array::mixed::{MixedCapacity, MixedGeometryBuilder};
use geoarrow::array::multilinestring::MultiLineStringBuilder;
use geoarrow::array::multipoint::MultiPointBuilder;
use geoarrow::array::multipolygon::{MultiPolygonArray, MultiPolygonBuilder, MultiPolygonCapacity};
use geoarrow::array::point::{PointArray, PointBuilder};
use geoarrow::array::polygon::{PolygonBuilder, PolygonCapacity};
use geoarrow::coord::{
    Coord, CoordBuffer, CoordBufferBuilder, CoordType, InterleavedCoordBuffer,
    SeparatedCoordBuffer,
};
use geoarrow::datatypes::{GeoDataType, Shape};
use geoarrow::error::GeoArrowError;
use geoarrow::geo_traits::{
    LineStringTrait, MultiLineStringTrait, MultiPointTrait, MultiPolygonTrait, PointTrait,
    PolygonTrait,
};
use geoarrow::geometry::Geometry;
use geoarrow::io::geo::{
    geometry_to_geo, line_string_to_geo, multi_line_string_to_geo, multi_point_to_geo,
    multi_polygon_to_geo, point_to_geo, polygon_to_geo,
};
use geoarrow::offsets::{OffsetBuffer, OffsetWidth, OffsetsBuilder};
use geoarrow::test::point::{p0, p1, p2, point_array};
use geoarrow::validity::{Validity, ValidityBuilder};

fn c(x: f64, y: f64) -> Coord {
    Coord { x: x.to_bits(), y: y.to_bits() }
}

fn ls0() -> Vec<Coord> {
    vec![c(0., 1.), c(1., 2.)]
}

fn ls1() -> Vec<Coord> {
    vec![c(3., 4.), c(5., 6.)]
}

fn ring(x: f64) -> Vec<Coord> {
    vec![c(x, 0.), c(x + 5., 0.), c(x + 5., 6.), c(x, 6.), c(x, 0.)]
}

fn outer() -> Vec<Coord> {
    vec![c(-111., 45.), c(-111., 41.), c(-104., 41.), c(-104., 45.), c(-111., 45.)]
}

fn inner() -> Vec<Coord> {
    vec![c(-110., 44.), c(-110., 42.), c(-105., 42.), c(-105., 44.), c(-110., 44.)]
}

fn mp0() -> Vec<Vec<Vec<Coord>>> {
    vec![vec![outer()], vec![outer(), inner()]]
}

fn mp1() -> Vec<Vec<Vec<Coord>>> {
    vec![vec![outer()], vec![inner()]]
}

fn multi_polygons(values: &[Vec<Vec<Vec<Coord>>>]) -> MultiPolygonArray {
    let mut builder = MultiPolygonBuilder::new(OffsetWidth::Small);
    for v in values {
        builder.push_multi_polygon(Some(&v)).unwrap();
    }
    builder.finish()
}

fn two_lines() -> LineStringArray {
    let mut builder = LineStringBuilder::new(OffsetWidth::Small);
    builder.push_line_string(Some(&&ls0())).unwrap();
    builder.push_line_string(Some(&&ls1())).unwrap();
    builder.finish()
}

#[test]
fn test_eq_other_index_false() {
    let arr1 = multi_polygons(&[mp0(), mp1()]);
    let arr2 = multi_polygons(&[mp0(), mp0()]);
    assert!(multi_polygon_eq(&arr1.value(0), &arr2.value(0)));
    assert!(!multi_polygon_eq(&arr1.value(1), &arr2.value(1)));
}

#[test]
fn geo_roundtrip_accurate() {
    let arr = two_lines();
    assert_eq!(line_string_to_geo(&arr.value(0)), ls0());
    assert_eq!(line_string_to_geo(&arr.value(1)), ls1());
}

#[test]
fn geo_roundtrip_accurate_option_vec() {
    let geoms = vec![Some(ls0()), Some(ls1()), None];
    let refs: Vec<Option<&Vec<Coord>>> = geoms.iter().map(|g| g.as_ref()).collect();
    let arr = LineStringBuilder::from_nullable_line_strings(
        &refs,
        OffsetWidth::Large,
        CoordType::Interleaved,
        ArrayMetadata::new(),
    )
    .unwrap()
    .finish();
    assert_eq!(arr.get(0).map(|l| line_string_to_geo(&l)), Some(ls0()));
    assert_eq!(arr.get(1).map(|l| line_string_to_geo(&l)), Some(ls1()));
    assert!(arr.get(2).is_none());
}

#[test]
fn slice() {
    let arr = two_lines();
    let sliced = arr.slice(1, 1);
    assert_eq!(sliced.len(), 1);
    assert_eq!(sliced.get(0).map(|l| line_string_to_geo(&l)), Some(ls1()));
}

#[test]
fn slicing_everything_changes_nothing() {
    let arr = two_lines();
    let whole = arr.slice(0, arr.len());
    assert_eq!(whole.len(), arr.len());
    for i in 0..arr.len() {
        assert_eq!(whole.is_valid(i), arr.is_valid(i));
        assert!(line_string_eq(&whole.value(i), &arr.value(i)));
    }
    let points = point_array();
    let whole = points.slice(0, 3);
    assert_eq!(whole.len(), 3);
    assert_eq!(point_to_geo(&whole.value(2)), p2());
    let none = points.slice(3, 0);
    assert_eq!(none.len(), 0);
}

#[test]
fn slices_share_the_coordinates() {
    let arr = two_lines();
    let sliced = arr.slice(1, 1);
    // the window moved; the coordinates did not
    assert_eq!(sliced.coords().len(), 4);
    assert_eq!(sliced.geom_offsets().first(), 2);
    assert_eq!(sliced.geom_offsets().last(), 4);
    assert_eq!(sliced.buffer_lengths(), LineStringCapacity { coord_capacity: 4, geom_capacity: 1 });
    let again = sliced.slice(0, 1).slice(0, 0);
    assert_eq!(again.len(), 0);
}

#[test]
fn point_fixture() {
    let points = point_array();
    assert_eq!(points.len(), 3);
    assert_eq!(points.coord_type(), CoordType::Interleaved);
    assert_eq!(point_to_geo(&points.value(0)), c(0., 1.));
    assert_eq!(point_to_geo(&points.value(1)), c(1., 2.));
    assert_eq!(point_to_geo(&points.value(2)), c(2., 3.));
    assert_eq!(p0(), c(0., 1.));
    assert_eq!(p1(), c(1., 2.));
    assert!((0..3).all(|i| points.is_valid(i)));
    assert_eq!(points.data_type(), GeoDataType::Point(CoordType::Interleaved));
    assert_eq!(points.value(1).x(), 1f64.to_bits());
    assert_eq!(points.value(1).y(), 2f64.to_bits());
}

#[test]
fn absent_point_keeps_its_slot() {
    let mut builder = PointBuilder::with_capacity_and_options(
        2,
        CoordType::Separated,
        ArrayMetadata::new(),
    );
    builder.push_point::<Coord>(None);
    builder.push_point(Some(&c(7., 8.)));
    assert_eq!(builder.len(), 2);
    let points = builder.finish();
    assert!(points.is_null(0));
    assert!(points.is_valid(1));
    assert!(points.get(0).is_none());
    assert_eq!(points.coords().len(), 2);
    assert_eq!(point_to_geo(&points.value(0)), Coord { x: 0, y: 0 });
    assert_eq!(point_to_geo(&points.value(1)), c(7., 8.));
    assert_eq!(points.coord_type(), CoordType::Separated);
}

#[test]
fn absent_elements_add_empty_runs_on_every_level() {
    let mut lines = LineStringBuilder::new(OffsetWidth::Small);
    lines.push_line_string(Some(&&ls0())).unwrap();
    lines.push_null();
    lines.push_line_string::<&Vec<Coord>>(None).unwrap();
    let lines = lines.finish();
    assert_eq!(lines.len(), 3);
    assert!(lines.is_valid(0) && lines.is_null(1) && lines.is_null(2));
    assert_eq!(lines.coords().len(), 2);
    assert_eq!(lines.geom_offsets().start_end(1), (2, 2));
    assert_eq!(lines.geom_offsets().start_end(2), (2, 2));

    let mut polygons = PolygonBuilder::new(OffsetWidth::Small);
    polygons.push_polygon(Some(&&vec![ring(0.), ring(10.)])).unwrap();
    polygons.push_polygon::<&Vec<Vec<Coord>>>(None).unwrap();
    let polygons = polygons.finish();
    assert!(polygons.is_null(1));
    assert_eq!(polygons.coords().len(), 10);
    assert_eq!(polygons.ring_offsets().len(), 2);
    assert_eq!(polygons.geom_offsets().start_end(1), (2, 2));
    assert_eq!(polygons.value(1).num_rings(), 0);
    assert!(polygons.value(1).exterior().is_none());

    let mut builder = MultiPolygonBuilder::new(OffsetWidth::Large);
    builder.push_multi_polygon::<&Vec<Vec<Vec<Coord>>>>(None).unwrap();
    builder.push_multi_polygon(Some(&&mp0())).unwrap();
    let array = builder.finish();
    assert!(array.is_null(0));
    assert_eq!(array.geom_offsets().start_end(0), (0, 0));
    assert_eq!(array.value(0).num_polygons(), 0);
    assert_eq!(array.polygon_offsets().len(), 2);
    assert_eq!(array.ring_offsets().len(), 3);
    assert_eq!(array.coords().len(), 15);
}

#[test]
fn offsets_end_where_the_level_below_ends() {
    let mut builder = MultiPolygonBuilder::with_capacity_and_options(
        OffsetWidth::Small,
        MultiPolygonCapacity::new(25, 5, 4, 2),
        CoordType::Interleaved,
        ArrayMetadata::new(),
    );
    builder.push_multi_polygon(Some(&&mp0())).unwrap();
    builder.push_multi_polygon(Some(&&mp1())).unwrap();
    let array = builder.finish();
    assert_eq!(array.geom_offsets().first(), 0);
    assert_eq!(array.geom_offsets().last(), array.polygon_offsets().len());
    assert_eq!(array.polygon_offsets().last(), array.ring_offsets().len());
    assert_eq!(array.ring_offsets().last(), array.coords().len());
    assert_eq!(array.coords().len(), 25);
    assert_eq!(array.buffer_lengths(), MultiPolygonCapacity::new(25, 5, 4, 2));
    assert_eq!(multi_polygon_to_geo(&array.value(0)), mp0());
    assert_eq!(multi_polygon_to_geo(&array.value(1)), mp1());
    let second = array.value(1).polygon(1).unwrap();
    assert_eq!(line_string_to_geo(&second.exterior().unwrap()), inner());
    assert_eq!(second.num_interiors(), 0);
    assert!(second.interior(0).is_none());
    assert!(array.value(1).polygon(2).is_none());
}

#[test]
fn first_pass_counts_what_the_second_fills() {
    let polygons = vec![vec![ring(0.), ring(1.)], vec![], vec![ring(2.)]];
    let geoms: Vec<Option<&Vec<Vec<Coord>>>> = vec![Some(&polygons[0]), None, Some(&polygons[1]), Some(&polygons[2])];
    let capacity = PolygonCapacity::from_polygons(&geoms).unwrap();
    assert_eq!(capacity, PolygonCapacity::new(15, 3, 4));
    let array = PolygonBuilder::from_nullable_polygons(
        &geoms,
        OffsetWidth::Small,
        CoordType::Separated,
        ArrayMetadata::new(),
    )
    .unwrap()
    .finish();
    assert_eq!(array.len(), 4);
    assert_eq!(array.buffer_lengths(), capacity);
    assert!(array.is_null(1));
    assert!(array.is_valid(2));
    assert_eq!(polygon_to_geo(&array.value(0)), polygons[0]);
    assert_eq!(array.value(2).num_rings(), 0);
    assert_eq!(polygon_to_geo(&array.value(3)), polygons[2]);
    assert!(polygon_eq(&array.value(3), &&polygons[2]));
}

#[test]
fn multi_builders_take_single_geometries() {
    let mut points = MultiPointBuilder::new(OffsetWidth::Small);
    points.push_point(Some(&c(1., 2.))).unwrap();
    points.push_point::<Coord>(None).unwrap();
    points.push_multi_point(Some(&&ls0())).unwrap();
    let points = points.finish();
    assert_eq!(multi_point_to_geo(&points.value(0)), vec![c(1., 2.)]);
    assert!(points.is_null(1));
    assert_eq!(points.value(2).num_points(), 2);
    assert_eq!(points.value(2).point(1), Some(c(1., 2.)));
    assert_eq!(points.value(2).point(2), None);

    let mut lines = MultiLineStringBuilder::with_capacities(OffsetWidth::Small, 4, 2, 3);
    lines.push_line_string(Some(&&ls0())).unwrap();
    lines.push_multi_line_string(Some(&&vec![ls0(), ls1()])).unwrap();
    let (coords, geom_offsets, ring_offsets, validity) = lines.into_inner();
    assert_eq!(coords.len(), 6);
    assert_eq!(geom_offsets.last(), 3);
    assert_eq!(ring_offsets.last(), 6);
    assert_eq!(validity.len(), 2);

    let mut lines = MultiLineStringBuilder::new(OffsetWidth::Small);
    lines.push_line_string(Some(&&ls1())).unwrap();
    let lines = lines.finish();
    assert_eq!(multi_line_string_to_geo(&lines.value(0)), vec![ls1()]);
    assert_eq!(lines.value(0).num_lines(), 1);
    assert_eq!(lines.value(0).line(0).unwrap().coord(1), Some(c(5., 6.)));

    let mut polygons = MultiPolygonBuilder::new(OffsetWidth::Small);
    polygons.push_polygon(Some(&&vec![outer(), inner()])).unwrap();
    let polygons = polygons.finish();
    assert_eq!(multi_polygon_to_geo(&polygons.value(0)), vec![vec![outer(), inner()]]);
}

#[test]
fn mixed_builder_files_every_shape_in_its_child() {
    let geoms = vec![
        Geometry::Point(c(1., 2.)),
        Geometry::LineString(ls0()),
        Geometry::Polygon(vec![ring(0.)]),
        Geometry::MultiPoint(ls1()),
        Geometry::MultiLineString(vec![ls0(), ls1()]),
        Geometry::MultiPolygon(mp0()),
        Geometry::Point(c(3., 4.)),
    ];
    let refs: Vec<&Geometry> = geoms.iter().collect();
    let capacity = MixedCapacity::from_geometries(
        &refs.iter().map(|g| Some(*g)).collect::<Vec<_>>(),
        false,
    )
    .unwrap();
    assert_eq!(capacity.point, 2);
    assert_eq!(capacity.line_string, LineStringCapacity::new(2, 1));
    assert_eq!(capacity.polygon, PolygonCapacity::new(5, 1, 1));
    assert_eq!(capacity.multi_polygon, MultiPolygonCapacity::new(15, 3, 2, 1));
    assert_eq!(capacity.total_num_geoms(), 7);
    let array = MixedGeometryBuilder::from_geometries(
        OffsetWidth::Small,
        &refs,
        CoordType::Interleaved,
        ArrayMetadata::new(),
        false,
    )
    .unwrap()
    .finish();
    assert_eq!(array.len(), 7);
    assert_eq!(array.buffer_lengths(), capacity);
    let tags: Vec<i8> = (0..7).map(|i| array.type_id(i)).collect();
    assert_eq!(tags, vec![1, 2, 3, 4, 5, 6, 1]);
    assert_eq!(array.child_index(6), 1);
    assert_eq!(array.points().len(), 2);
    assert_eq!(array.data_type().shape(), Some(Shape::Mixed));
    for (i, g) in geoms.iter().enumerate() {
        assert!(array.is_valid(i));
        let got = geometry_to_geo(&array.value(i));
        assert!(geoarrow::algorithm::native::eq::geometry_eq(&&got, &g));
    }
    let sliced = array.slice(5, 2);
    assert_eq!(sliced.len(), 2);
    assert_eq!(sliced.type_id(0), 6);
    assert_eq!(point_to_geo(&match sliced.value(1) {
        geoarrow::scalar::geometry::Geometry::Point(p) => p,
        _ => panic!("expected a point"),
    }), c(3., 4.));
}

#[test]
fn mixed_builder_prefers_multi_shapes_when_told() {
    let mut builder = MixedGeometryBuilder::new_with_options(
        OffsetWidth::Small,
        CoordType::Interleaved,
        ArrayMetadata::new(),
        true,
    );
    builder.push_point(Some(&c(1., 2.))).unwrap();
    builder.push_line_string(Some(&&ls0())).unwrap();
    builder.push_polygon(Some(&&vec![ring(0.)])).unwrap();
    builder.push_null().unwrap();
    assert!(builder.prefer_multi());
    let array = builder.finish();
    let tags: Vec<i8> = (0..4).map(|i| array.type_id(i)).collect();
    assert_eq!(tags, vec![4, 5, 6, 4]);
    assert!(array.is_null(3));
    assert!(array.get(3).is_none());
    assert_eq!(array.multi_points().coords().len(), 1);
    assert!(matches!(geometry_to_geo(&array.value(0)), Geometry::MultiPoint(ref m) if *m == vec![c(1., 2.)]));
}

#[test]
fn collections_of_one_member() {
    let mut builder = GeometryCollectionBuilder::new(OffsetWidth::Small);
    builder.push_point(Some(&c(1., 2.)), false).unwrap();
    builder.push_line_string::<&Vec<Coord>>(None, false).unwrap();
    builder.push_geometry(Some(&&Geometry::Polygon(vec![ring(0.)])), true).unwrap();
    assert_eq!(builder.len(), 3);
    let array = builder.finish();
    assert_eq!(array.len(), 3);
    assert!(array.is_null(1));
    assert_eq!(array.value(1).num_geometries(), 0);
    assert_eq!(array.value(0).num_geometries(), 1);
    assert!(array.value(0).is_member_valid(0));
    assert!(array.value(0).geometry(1).is_none());
    assert!(matches!(
        geometry_to_geo(&array.value(2).geometry(0).unwrap()),
        Geometry::MultiPolygon(ref m) if *m == vec![vec![ring(0.)]]
    ));
    assert_eq!(array.geom_offsets().last(), array.members().len());
    assert_eq!(array.slice(2, 1).value(0).num_geometries(), 1);
}

#[test]
fn metadata_travels_with_the_array() {
    let metadata = ArrayMetadata { crs: Some("{\"id\":4326}".to_string()), edges: Edges::Spherical };
    let mut builder = LineStringBuilder::with_capacity_and_options(
        OffsetWidth::Small,
        LineStringCapacity::new_empty(),
        CoordType::Interleaved,
        metadata.duplicate(),
    );
    builder.push_line_string(Some(&&ls0())).unwrap();
    let array = builder.finish();
    assert!(array.metadata().is_compatible_with(&metadata));
    let sliced = array.slice(0, 1);
    assert_eq!(sliced.metadata().crs, metadata.crs);
    assert_eq!(sliced.metadata().edges, Edges::Spherical);
    assert!(!sliced.metadata().is_compatible_with(&ArrayMetadata::new()));
}

#[test]
fn arrays_from_parts_are_checked() {
    let coords = || {
        let mut b = CoordBufferBuilder::with_capacity(CoordType::Interleaved, 3);
        b.push_coord(c(0., 1.));
        b.push_coord(c(1., 2.));
        b.push_coord(c(2., 3.));
        b.finish()
    };
    let ok = LineStringArray::try_new(
        coords(),
        OffsetBuffer::try_new_small(vec![0, 1, 3]).unwrap(),
        Validity::all_valid(),
        ArrayMetadata::new(),
    )
    .unwrap();
    assert_eq!(ok.len(), 2);
    assert_eq!(line_string_to_geo(&ok.value(1)), vec![c(1., 2.), c(2., 3.)]);
    // offsets beyond the coordinates
    assert!(matches!(
        LineStringArray::try_new(
            coords(),
            OffsetBuffer::try_new_small(vec![0, 4]).unwrap(),
            Validity::all_valid(),
            ArrayMetadata::new(),
        ),
        Err(GeoArrowError::ShapeMismatch)
    ));
    // a validity of another length
    let mut bits = ValidityBuilder::with_capacity(3);
    bits.append(true);
    bits.append(false);
    bits.append(true);
    assert!(matches!(
        LineStringArray::try_new(
            coords(),
            OffsetBuffer::try_new_small(vec![0, 1, 3]).unwrap(),
            bits.finish(),
            ArrayMetadata::new(),
        ),
        Err(GeoArrowError::ShapeMismatch)
    ));
    let mut bits = ValidityBuilder::with_capacity(3);
    bits.append(true);
    bits.append(false);
    bits.append(true);
    let points = PointArray::try_new(coords(), bits.finish(), ArrayMetadata::new()).unwrap();
    assert!(points.is_null(1));
    assert!(matches!(
        PointArray::try_new(
            coords(),
            {
                let mut b = ValidityBuilder::with_capacity(1);
                b.append(false);
                b.finish()
            },
            ArrayMetadata::new()
        ),
        Err(GeoArrowError::ShapeMismatch)
    ));
}

#[test]
fn coordinate_buffers_in_both_layouts() {
    let interleaved = InterleavedCoordBuffer::try_new(vec![1, 2, 3, 4]).unwrap();
    assert_eq!(interleaved.len(), 2);
    assert_eq!((interleaved.get_x(1), interleaved.get_y(1)), (3, 4));
    assert_eq!(interleaved.value(0).x(), 1);
    assert_eq!(interleaved.value(0).y(), 2);
    assert_eq!(interleaved.slice(1, 1).get_x(0), 3);
    assert!(matches!(
        InterleavedCoordBuffer::try_new(vec![1, 2, 3]),
        Err(GeoArrowError::ShapeMismatch)
    ));
    let separated = SeparatedCoordBuffer::try_new(vec![1, 3], vec![2, 4]).unwrap();
    assert_eq!((separated.get_x(1), separated.get_y(1)), (3, 4));
    assert!(matches!(
        SeparatedCoordBuffer::try_new(vec![1, 3], vec![2]),
        Err(GeoArrowError::ShapeMismatch)
    ));
    let buffer = CoordBuffer::Separated(separated);
    assert_eq!(buffer.coord_type(), CoordType::Separated);
    assert_eq!(buffer.value(0), Coord { x: 1, y: 2 });
    assert_eq!(buffer.slice(1, 1).value(0), Coord { x: 3, y: 4 });
    assert_eq!(buffer.duplicate().len(), 2);
    assert_eq!(CoordType::default(), CoordType::Interleaved);
}

#[test]
fn offsets_builder_pushes_runs() {
    let mut offsets = OffsetsBuilder::new(OffsetWidth::Small);
    assert_eq!(offsets.len(), 0);
    assert_eq!(offsets.last(), 0);
    offsets.try_push_usize(3).unwrap();
    offsets.try_push_usize(0).unwrap();
    offsets.try_push_usize(2).unwrap();
    assert_eq!(offsets.len(), 3);
    assert_eq!(offsets.last(), 5);
    assert_eq!(offsets.start_end(0), (0, 3));
    assert_eq!(offsets.start_end(1), (3, 3));
    assert_eq!(offsets.start_end(2), (3, 5));
    let buffer = offsets.finish();
    assert_eq!(buffer.len(), 3);
    assert_eq!(buffer.start_end(2), (3, 5));
    assert_eq!(buffer.last(), 5);
    assert_eq!(buffer.width(), OffsetWidth::Small);
    let window = buffer.slice(1, 2);
    assert_eq!(window.len(), 2);
    assert_eq!(window.first(), 3);
    assert_eq!(window.start_end(1), (3, 5));
}

#[test]
fn narrow_offsets_overflow_and_wide_ones_do_not() {
    let mut offsets = OffsetsBuilder::new(OffsetWidth::Small);
    offsets.try_push_usize(i32::MAX as usize - 1).unwrap();
    assert!(offsets.fits(1));
    assert!(!offsets.fits(2));
    assert!(matches!(offsets.try_push_usize(2), Err(GeoArrowError::IndexOverflow)));
    // the failed push changed nothing
    assert_eq!(offsets.len(), 1);
    assert_eq!(offsets.last(), i32::MAX as usize - 1);
    offsets.try_push_usize(1).unwrap();
    assert_eq!(offsets.last(), i32::MAX as usize);
    assert!(matches!(offsets.try_push_usize(1), Err(GeoArrowError::IndexOverflow)));

    let mut wide = OffsetsBuilder::new(OffsetWidth::Large);
    wide.try_push_usize(i32::MAX as usize).unwrap();
    wide.try_push_usize(5).unwrap();
    assert_eq!(wide.last(), i32::MAX as usize + 5);
    let wide = wide.finish();
    assert!(wide.to_width(OffsetWidth::Small).is_none());
    assert_eq!(wide.to_width(OffsetWidth::Large).unwrap().last(), i32::MAX as usize + 5);
    assert_eq!(OffsetWidth::Small.max_offset(), i32::MAX as usize);
}

#[test]
fn offset_buffers_must_not_descend() {
    assert!(OffsetBuffer::try_new_small(vec![]).is_none());
    assert!(OffsetBuffer::try_new_small(vec![-1, 0]).is_none());
    assert!(OffsetBuffer::try_new_small(vec![0, 2, 1]).is_none());
    assert!(OffsetBuffer::try_new_large(vec![0, 2, 1]).is_none());
    let b = OffsetBuffer::try_new_large(vec![2, 2, 7]).unwrap();
    assert_eq!(b.width(), OffsetWidth::Large);
    assert_eq!(b.len(), 2);
    assert_eq!(b.start_end(0), (2, 2));
    assert_eq!(b.get(2), 7);
    assert!(b.check());
    let narrow = b.to_width(OffsetWidth::Small).unwrap();
    assert_eq!(narrow.width(), OffsetWidth::Small);
    assert_eq!(narrow.start_end(1), (2, 7));
}

#[test]
fn validity_keeps_a_bitmap_only_for_absent_elements() {
    let mut all = ValidityBuilder::with_capacity(2);
    all.append(true);
    all.append(true);
    assert_eq!(all.len(), 2);
    let all = all.finish();
    assert!(!all.is_some());
    assert_eq!(all.null_count(), 0);
    assert!(all.is_valid(1));

    let mut some = ValidityBuilder::with_capacity(3);
    some.append(true);
    some.append(false);
    some.append(true);
    let some = some.finish();
    assert!(some.is_some());
    assert_eq!(some.bitmap_len(), Some(3));
    assert_eq!(some.null_count(), 1);
    assert!(!some.is_valid(1));
    // a window without absent elements drops the bitmap
    assert!(!some.slice(2, 1).is_some());
    assert!(some.slice(1, 2).is_some());
    assert!(!some.slice(1, 2).is_valid(0));
    assert!(some.duplicate().is_some());
}

#[test]
fn values_are_walked_from_both_ends() {
    let mut builder = MultiPointBuilder::new(OffsetWidth::Small);
    builder.push_multi_point(Some(&&vec![c(0., 0.)])).unwrap();
    builder.push_multi_point(Some(&&ls0())).unwrap();
    builder.push_multi_point(Some(&&vec![c(1., 1.), c(2., 2.), c(3., 3.)])).unwrap();
    let array = builder.finish();
    let mut it = array.values_iter();
    assert_eq!(it.size_hint(), (3, Some(3)));
    assert_eq!(it.next().unwrap().num_points(), 1);
    assert_eq!(it.next_back().unwrap().num_points(), 3);
    assert_eq!(it.size_hint(), (1, Some(1)));
    assert_eq!(it.next().unwrap().num_points(), 2);
    assert!(it.next().is_none());
    assert!(it.next_back().is_none());
}
