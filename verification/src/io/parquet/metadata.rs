//! The metadata of GeoParquet files, and what it implies for arrays.

use vstd::prelude::*;
use crate::array::metadata::{ArrayMetadata, Edges};
use crate::coord::CoordType;
use crate::datatypes::GeoDataType;
use crate::error::GeoArrowError;

verus! {

/// Whether a geometry type name declares a third ordinate: it holds `" Z"`.
pub open spec fn has_z(name: Seq<char>) -> bool {
    exists|i: int| 0 <= i < name.len() - 1 && name[i] == ' ' && #[trigger] name[i + 1] == 'Z'
}

/// Whether some of the names declares a third ordinate.
pub open spec fn any_has_z(names: Seq<Seq<char>>) -> bool {
    exists|i: int| 0 <= i < names.len() && has_z(#[trigger] names[i])
}

/// Whether every one of the names is `name`.
pub open spec fn all_are(names: Seq<Seq<char>>, name: Seq<char>) -> bool {
    forall|i: int| 0 <= i < names.len() ==> #[trigger] names[i] == name
}

/// Whether every one of the names is `a` or `b`.
pub open spec fn all_in(names: Seq<Seq<char>>, a: Seq<char>, b: Seq<char>) -> bool {
    forall|i: int| 0 <= i < names.len() ==> (#[trigger] names[i] == a || names[i] == b)
}

/// Whether `name` is one of the seven geometry type names.
pub open spec fn known_name(name: Seq<char>) -> bool {
    ||| name == "Point"@
    ||| name == "LineString"@
    ||| name == "Polygon"@
    ||| name == "MultiPoint"@
    ||| name == "MultiLineString"@
    ||| name == "MultiPolygon"@
    ||| name == "GeometryCollection"@
}

/// The names of the strings.
pub open spec fn names_of(strings: Seq<String>) -> Seq<Seq<char>> {
    strings.map_values(|s: String| s@)
}

/// The array type that holds a column whose geometries have the types `names`:
/// none where no type is declared; the type itself where there is one; the multi
/// type where there are a single type and its multi type; and the mixed type
/// otherwise. A third ordinate is a [`GeoArrowError::ShapeMismatch`].
pub open spec fn inferred(names: Seq<Seq<char>>, coord_type: CoordType) -> Result<
    Option<GeoDataType>,
    GeoArrowError,
> {
    if any_has_z(names) {
        Err(GeoArrowError::ShapeMismatch)
    } else if names.len() == 0 {
        Ok(None)
    } else if all_are(names, "Point"@) {
        Ok(Some(GeoDataType::Point(coord_type)))
    } else if all_are(names, "LineString"@) {
        Ok(Some(GeoDataType::LineString(coord_type)))
    } else if all_are(names, "Polygon"@) {
        Ok(Some(GeoDataType::Polygon(coord_type)))
    } else if all_are(names, "MultiPoint"@) {
        Ok(Some(GeoDataType::MultiPoint(coord_type)))
    } else if all_are(names, "MultiLineString"@) {
        Ok(Some(GeoDataType::MultiLineString(coord_type)))
    } else if all_are(names, "MultiPolygon"@) {
        Ok(Some(GeoDataType::MultiPolygon(coord_type)))
    } else if all_are(names, "GeometryCollection"@) {
        Ok(Some(GeoDataType::GeometryCollection(coord_type)))
    } else if all_in(names, "Point"@, "MultiPoint"@) {
        Ok(Some(GeoDataType::MultiPoint(coord_type)))
    } else if all_in(names, "LineString"@, "MultiLineString"@) {
        Ok(Some(GeoDataType::MultiLineString(coord_type)))
    } else if all_in(names, "Polygon"@, "MultiPolygon"@) {
        Ok(Some(GeoDataType::MultiPolygon(coord_type)))
    } else {
        Ok(Some(GeoDataType::Mixed(coord_type)))
    }
}

/// Whether `name` holds `" Z"`.
fn name_has_z(name: &String) -> (b: bool)
    ensures
        b == has_z(name@),
{
    let text = name.as_str();
    let n = text.unicode_len();
    if n < 2 {
        return false;
    }
    let mut i: usize = 0;
    while i < n - 1
        invariant
            n == text@.len(),
            text@ == name@,
            n >= 2,
            i <= n - 1,
            forall|j: int| 0 <= j < i ==> !(name@[j] == ' ' && #[trigger] name@[j + 1] == 'Z'),
        decreases n - i,
    {
        if text.get_char(i) == ' ' && text.get_char(i + 1) == 'Z' {
            return true;
        }
        i += 1;
    }
    false
}

/// The array type that holds a column whose geometries have the types
/// `geometry_types`.
///
/// A single type that is none of the seven geometry type names has no array
/// type; callers rule it out.
pub fn infer_geo_data_type(geometry_types: &Vec<String>, coord_type: CoordType) -> (r: Result<
    Option<GeoDataType>,
    GeoArrowError,
>)
    requires
        types_inferable(geometry_types@),
    ensures
        r == inferred(names_of(geometry_types@), coord_type),
{
    let ghost names = names_of(geometry_types@);
    let point = "Point".to_owned();
    let line_string = "LineString".to_owned();
    let polygon = "Polygon".to_owned();
    let multi_point = "MultiPoint".to_owned();
    let multi_line_string = "MultiLineString".to_owned();
    let multi_polygon = "MultiPolygon".to_owned();
    let collection = "GeometryCollection".to_owned();
    let n = geometry_types.len();
    let mut only_point = true;
    let mut only_line_string = true;
    let mut only_polygon = true;
    let mut only_multi_point = true;
    let mut only_multi_line_string = true;
    let mut only_multi_polygon = true;
    let mut only_collection = true;
    let mut only_points = true;
    let mut only_line_strings = true;
    let mut only_polygons = true;
    let mut i: usize = 0;
    while i < n
        invariant
            n == geometry_types@.len(),
            names == names_of(geometry_types@),
            i <= n,
            point@ == "Point"@,
            line_string@ == "LineString"@,
            polygon@ == "Polygon"@,
            multi_point@ == "MultiPoint"@,
            multi_line_string@ == "MultiLineString"@,
            multi_polygon@ == "MultiPolygon"@,
            collection@ == "GeometryCollection"@,
            forall|j: int| 0 <= j < i ==> !has_z(#[trigger] names[j]),
            only_point == all_are(names.take(i as int), "Point"@),
            only_line_string == all_are(names.take(i as int), "LineString"@),
            only_polygon == all_are(names.take(i as int), "Polygon"@),
            only_multi_point == all_are(names.take(i as int), "MultiPoint"@),
            only_multi_line_string == all_are(names.take(i as int), "MultiLineString"@),
            only_multi_polygon == all_are(names.take(i as int), "MultiPolygon"@),
            only_collection == all_are(names.take(i as int), "GeometryCollection"@),
            only_points == all_in(names.take(i as int), "Point"@, "MultiPoint"@),
            only_line_strings == all_in(names.take(i as int), "LineString"@, "MultiLineString"@),
            only_polygons == all_in(names.take(i as int), "Polygon"@, "MultiPolygon"@),
        decreases n - i,
    {
        let name = &geometry_types[i];
        assert(names[i as int] == name@);
        if name_has_z(name) {
            return Err(GeoArrowError::ShapeMismatch);
        }
        let is_point = *name == point;
        let is_line_string = *name == line_string;
        let is_polygon = *name == polygon;
        let is_multi_point = *name == multi_point;
        let is_multi_line_string = *name == multi_line_string;
        let is_multi_polygon = *name == multi_polygon;
        let is_collection = *name == collection;
        proof {
            let before = names.take(i as int);
            let after = names.take(i + 1);
            assert(after =~= before.push(names[i as int]));
            assert forall|a: Seq<char>| all_are(after, a) == (all_are(before, a) && names[i as int]
                == a) by {
                if all_are(after, a) {
                    assert(after[i as int] == a);
                    assert forall|j: int| 0 <= j < before.len() implies #[trigger] before[j]
                        == a by {
                        assert(after[j] == a);
                    }
                }
            }
            assert forall|a: Seq<char>, b: Seq<char>| all_in(after, a, b) == (all_in(before, a, b)
                && (names[i as int] == a || names[i as int] == b)) by {
                if all_in(after, a, b) {
                    assert(after[i as int] == a || after[i as int] == b);
                    assert forall|j: int| 0 <= j < before.len() implies (#[trigger] before[j] == a
                        || before[j] == b) by {
                        assert(after[j] == a || after[j] == b);
                    }
                }
            }
        }
        only_point = only_point && is_point;
        only_line_string = only_line_string && is_line_string;
        only_polygon = only_polygon && is_polygon;
        only_multi_point = only_multi_point && is_multi_point;
        only_multi_line_string = only_multi_line_string && is_multi_line_string;
        only_multi_polygon = only_multi_polygon && is_multi_polygon;
        only_collection = only_collection && is_collection;
        only_points = only_points && (is_point || is_multi_point);
        only_line_strings = only_line_strings && (is_line_string || is_multi_line_string);
        only_polygons = only_polygons && (is_polygon || is_multi_polygon);
        i += 1;
    }
    proof {
        assert(names.take(n as int) =~= names);
    }
    if n == 0 {
        Ok(None)
    } else if only_point {
        Ok(Some(GeoDataType::Point(coord_type)))
    } else if only_line_string {
        Ok(Some(GeoDataType::LineString(coord_type)))
    } else if only_polygon {
        Ok(Some(GeoDataType::Polygon(coord_type)))
    } else if only_multi_point {
        Ok(Some(GeoDataType::MultiPoint(coord_type)))
    } else if only_multi_line_string {
        Ok(Some(GeoDataType::MultiLineString(coord_type)))
    } else if only_multi_polygon {
        Ok(Some(GeoDataType::MultiPolygon(coord_type)))
    } else if only_collection {
        Ok(Some(GeoDataType::GeometryCollection(coord_type)))
    } else if only_points {
        Ok(Some(GeoDataType::MultiPoint(coord_type)))
    } else if only_line_strings {
        Ok(Some(GeoDataType::MultiLineString(coord_type)))
    } else if only_polygons {
        Ok(Some(GeoDataType::MultiPolygon(coord_type)))
    } else {
        Ok(Some(GeoDataType::Mixed(coord_type)))
    }
}

/// GeoParquet column metadata.
#[derive(Debug)]
pub struct GeoParquetColumnMetadata {
    /// Name of the geometry encoding format: `"WKB"`, `"point"`, `"linestring"`,
    /// `"polygon"`, `"multipoint"`, `"multilinestring"` or `"multipolygon"`.
    pub encoding: String,
    /// The geometry types of all geometries, or an empty list if they are not
    /// known. A `" Z"` suffix marks a third ordinate.
    pub geometry_types: Vec<String>,
    /// The coordinate reference system as PROJJSON text, or `None` for the
    /// default, OGC:CRS84.
    pub crs: Option<String>,
    /// Winding order of the exterior rings of polygons: `"counterclockwise"` if
    /// present.
    pub orientation: Option<String>,
    /// Name of the coordinate system for the edges: `"planar"` or `"spherical"`.
    /// The default is `"planar"`.
    pub edges: Option<String>,
    /// The bounding box of the geometries: the bits of four or six doubles.
    pub bbox: Option<Vec<u64>>,
    /// The coordinate epoch of a dynamic coordinate reference system: the bits
    /// of a decimal year.
    pub epoch: Option<u64>,
    /// The names of bounding box columns, as JSON text.
    pub covering: Option<String>,
}

/// Top-level GeoParquet file metadata.
#[derive(Debug)]
pub struct GeoParquetMetadata {
    /// The version identifier for the GeoParquet specification.
    pub version: String,
    /// The name of the "primary" geometry column.
    pub primary_column: String,
    /// Metadata about geometry columns: the name of each geometry column and what
    /// is known of it. A name is looked up from the front.
    pub columns: Vec<(String, GeoParquetColumnMetadata)>,
}

/// Whether two optional texts agree: both absent, or both present and equal.
pub open spec fn same_text(left: Option<String>, right: Option<String>) -> bool {
    match (left, right) {
        (Some(a), Some(b)) => a@ == b@,
        (None, None) => true,
        _ => false,
    }
}

/// How the edges of a column are read: spherical where the column says
/// `"spherical"`, planar otherwise and where it says nothing.
pub open spec fn edges_of(edges: Option<String>) -> Edges {
    match edges {
        Some(e) => if e@ == "spherical"@ {
            Edges::Spherical
        } else {
            Edges::Planar
        },
        None => Edges::Planar,
    }
}

/// Whether two columns can be merged: same encoding, same geometry types in the
/// same order, bounding boxes of the same dimension where both have one, the
/// same coordinate reference system, or both none, and edges that are read
/// alike.
pub open spec fn columns_compatible(
    left: &GeoParquetColumnMetadata,
    right: &GeoParquetColumnMetadata,
) -> bool {
    &&& left.encoding@ == right.encoding@
    &&& names_of(left.geometry_types@) == names_of(right.geometry_types@)
    &&& match (left.bbox, right.bbox) {
        (Some(a), Some(b)) => a@.len() == b@.len(),
        _ => true,
    }
    &&& same_text(left.crs, right.crs)
    &&& edges_of(left.edges) == edges_of(right.edges)
}

/// The position of the first column named `name`, where there is one.
pub open spec fn column_position(
    columns: Seq<(String, GeoParquetColumnMetadata)>,
    name: Seq<char>,
) -> Option<int>
    decreases columns.len(),
{
    if columns.len() == 0 {
        None
    } else if columns[0].0@ == name {
        Some(0)
    } else {
        match column_position(columns.drop_first(), name) {
            Some(i) => Some(i + 1),
            None => None,
        }
    }
}

/// Where a column is found, it is the first of that name.
pub proof fn lemma_column_position(columns: Seq<(String, GeoParquetColumnMetadata)>, name: Seq<char>)
    ensures
        match column_position(columns, name) {
            Some(i) => 0 <= i < columns.len() && columns[i].0@ == name && forall|j: int|
                0 <= j < i ==> (#[trigger] columns[j]).0@ != name,
            None => forall|j: int| 0 <= j < columns.len() ==> (#[trigger] columns[j]).0@ != name,
        },
    decreases columns.len(),
{
    if columns.len() > 0 && columns[0].0@ != name {
        lemma_column_position(columns.drop_first(), name);
        let rest = columns.drop_first();
        match column_position(rest, name) {
            Some(i) => {
                assert(rest[i] == columns[i + 1]);
                assert forall|j: int| 0 <= j < i + 1 implies (#[trigger] columns[j]).0@ != name by {
                    if j > 0 {
                        assert(rest[j - 1] == columns[j]);
                    }
                }
            },
            None => {
                assert forall|j: int| 0 <= j < columns.len() implies (#[trigger] columns[j]).0@
                    != name by {
                    if j > 0 {
                        assert(rest[j - 1] == columns[j]);
                    }
                }
            },
        }
    }
}

impl GeoParquetColumnMetadata {
    /// Whether this column and `other` can be merged.
    pub fn is_compatible_with(&self, other: &GeoParquetColumnMetadata) -> (ok: bool)
        ensures
            ok == columns_compatible(self, other),
    {
        if self.encoding != other.encoding {
            return false;
        }
        if self.geometry_types.len() != other.geometry_types.len() {
            assert(names_of(self.geometry_types@).len() != names_of(other.geometry_types@).len());
            return false;
        }
        let mut i: usize = 0;
        while i < self.geometry_types.len()
            invariant
                self.geometry_types@.len() == other.geometry_types@.len(),
                i <= self.geometry_types@.len(),
                forall|j: int|
                    0 <= j < i ==> names_of(self.geometry_types@)[j] == names_of(
                        other.geometry_types@,
                    )[j],
            decreases self.geometry_types@.len() - i,
        {
            if self.geometry_types[i] != other.geometry_types[i] {
                assert(names_of(self.geometry_types@)[i as int] != names_of(
                    other.geometry_types@,
                )[i as int]);
                return false;
            }
            i += 1;
        }
        assert(names_of(self.geometry_types@) =~= names_of(other.geometry_types@));
        let same_bbox = match (&self.bbox, &other.bbox) {
            (Some(a), Some(b)) => a.len() == b.len(),
            _ => true,
        };
        let same_crs = match (&self.crs, &other.crs) {
            (Some(a), Some(b)) => *a == *b,
            (None, None) => true,
            _ => false,
        };
        let same_edges = self.edges_read() == other.edges_read();
        same_bbox && same_crs && same_edges
    }

    /// How the edges of this column are read: spherical where the column says
    /// `"spherical"`, planar otherwise and where it says nothing.
    pub fn edges_read(&self) -> (e: Edges)
        ensures
            e == edges_of(self.edges),
    {
        let spherical = "spherical".to_owned();
        match &self.edges {
            Some(e) => if *e == spherical {
                Edges::Spherical
            } else {
                Edges::Planar
            },
            None => Edges::Planar,
        }
    }

    /// The metadata that an array of this column carries: the coordinate
    /// reference system as declared, and spherical edges where the column says
    /// `"spherical"`, planar edges otherwise.
    pub fn to_array_metadata(&self) -> (m: ArrayMetadata)
        ensures
            m.crs == self.crs,
            m.edges == edges_of(self.edges),
    {
        let edges = self.edges_read();
        let crs = match &self.crs {
            Some(text) => Some(text.clone()),
            None => None,
        };
        ArrayMetadata { crs, edges }
    }
}

/// Whether the metadata of two files can be merged: same version, same primary
/// column, and every column of `left` has a column of the same name in `right`
/// that it can be merged with.
pub open spec fn metadata_compatible(left: &GeoParquetMetadata, right: &GeoParquetMetadata) -> bool {
    &&& left.version@ == right.version@
    &&& left.primary_column@ == right.primary_column@
    &&& forall|i: int|
        0 <= i < left.columns@.len() ==> column_matches(#[trigger] left.columns@[i], right.columns@)
}

/// Whether `column` has a column of the same name in `columns` that it can be
/// merged with.
pub open spec fn column_matches(
    column: (String, GeoParquetColumnMetadata),
    columns: Seq<(String, GeoParquetColumnMetadata)>,
) -> bool {
    match column_position(columns, column.0@) {
        Some(j) => columns_compatible(&column.1, &columns[j].1),
        None => false,
    }
}

/// Whether the columns are keyed by their names: no name occurs twice.
pub open spec fn distinct_names(columns: Seq<(String, GeoParquetColumnMetadata)>) -> bool {
    forall|i: int, j: int|
        0 <= i < j < columns.len() ==> (#[trigger] columns[i]).0@ != (#[trigger] columns[j]).0@
}

/// Where no name occurs twice, a column is found under its name and nowhere
/// else.
pub proof fn lemma_distinct_names(columns: Seq<(String, GeoParquetColumnMetadata)>, i: int)
    requires
        distinct_names(columns),
        0 <= i < columns.len(),
    ensures
        column_position(columns, columns[i].0@) == Some(i),
{
    lemma_column_position(columns, columns[i].0@);
}

impl GeoParquetMetadata {
    /// The columns are keyed by their names: no name occurs twice. Metadata
    /// that was read from a file is so; where a name does occur twice, the first
    /// column of that name is the one that is found.
    pub open spec fn wf(&self) -> bool {
        distinct_names(self.columns@)
    }

    /// Whether no column name occurs twice.
    pub fn check(&self) -> (ok: bool)
        ensures
            ok == self.wf(),
    {
        let n = self.columns.len();
        let mut j: usize = 0;
        while j < n
            invariant
                n == self.columns@.len(),
                j <= n,
                forall|a: int, b: int|
                    0 <= a < b < j ==> (#[trigger] self.columns@[a]).0@ != (
                    #[trigger] self.columns@[b]).0@,
            decreases n - j,
        {
            let mut i: usize = 0;
            while i < j
                invariant
                    n == self.columns@.len(),
                    j < n,
                    i <= j,
                    forall|a: int|
                        0 <= a < i ==> (#[trigger] self.columns@[a]).0@ != self.columns@[j as int].0@,
                decreases j - i,
            {
                if self.columns[i].0 == self.columns[j].0 {
                    return false;
                }
                i += 1;
            }
            j += 1;
        }
        true
    }

    /// The position of the first column named `name`, where there is one.
    pub fn find_column(&self, name: &String) -> (r: Option<usize>)
        ensures
            match (r, column_position(self.columns@, name@)) {
                (Some(i), Some(j)) => i == j && i < self.columns@.len(),
                (None, None) => true,
                _ => false,
            },
    {
        let mut i: usize = 0;
        while i < self.columns.len()
            invariant
                i <= self.columns@.len(),
                forall|j: int| 0 <= j < i ==> (#[trigger] self.columns@[j]).0@ != name@,
            decreases self.columns@.len() - i,
        {
            if self.columns[i].0 == *name {
                proof {
                    lemma_column_position(self.columns@, name@);
                    assert(self.columns@[i as int].0@ == name@);
                }
                return Some(i);
            }
            i += 1;
        }
        proof {
            lemma_column_position(self.columns@, name@);
        }
        None
    }

    /// Check if this metadata is compatible with another metadata instance.
    pub fn is_compatible_with(&self, other: &GeoParquetMetadata) -> (ok: bool)
        ensures
            ok == metadata_compatible(self, other),
    {
        self.try_compatible_with(other).is_ok()
    }

    /// Assert that this metadata is compatible with another metadata instance,
    /// failing with [`GeoArrowError::IncompatibleMetadata`] if not.
    pub fn try_compatible_with(&self, other: &GeoParquetMetadata) -> (r: Result<(), GeoArrowError>)
        ensures
            metadata_compatible(self, other) ==> r is Ok,
            !metadata_compatible(self, other) ==> r == Err::<(), GeoArrowError>(
                GeoArrowError::IncompatibleMetadata,
            ),
    {
        if self.version != other.version {
            return Err(GeoArrowError::IncompatibleMetadata);
        }
        if self.primary_column != other.primary_column {
            return Err(GeoArrowError::IncompatibleMetadata);
        }
        let mut i: usize = 0;
        while i < self.columns.len()
            invariant
                i <= self.columns@.len(),
                forall|j: int|
                    0 <= j < i ==> column_matches(#[trigger] self.columns@[j], other.columns@),
            decreases self.columns@.len() - i,
        {
            let left = &self.columns[i];
            match other.find_column(&left.0) {
                Some(j) => {
                    if !left.1.is_compatible_with(&other.columns[j].1) {
                        assert(!column_matches(self.columns@[i as int], other.columns@));
                        return Err(GeoArrowError::IncompatibleMetadata);
                    }
                },
                None => {
                    assert(!column_matches(self.columns@[i as int], other.columns@));
                    return Err(GeoArrowError::IncompatibleMetadata);
                },
            }
            i += 1;
        }
        Ok(())
    }
}

/// The position of the first name in `names` that equals `name`, where there is
/// one.
pub fn position_of(names: &Vec<String>, name: &String) -> (r: Option<usize>)
    ensures
        match r {
            Some(i) => i < names@.len() && names@[i as int]@ == name@ && forall|j: int|
                0 <= j < i ==> (#[trigger] names@[j])@ != name@,
            None => forall|j: int| 0 <= j < names@.len() ==> (#[trigger] names@[j])@ != name@,
        },
{
    let mut i: usize = 0;
    while i < names.len()
        invariant
            i <= names@.len(),
            forall|j: int| 0 <= j < i ==> (#[trigger] names@[j])@ != name@,
        decreases names@.len() - i,
    {
        if names[i] == *name {
            return Some(i);
        }
        i += 1;
    }
    None
}

/// Whether the geometry types of a column have an array type or are refused
/// for a third ordinate: not the case for a single type that is none of the
/// seven geometry type names.
pub open spec fn types_inferable(types: Seq<String>) -> bool {
    types.len() > 0 && !any_has_z(names_of(types)) && all_are(names_of(types), types[0]@)
        ==> known_name(types[0]@)
}

/// Whether some field is named `name`.
pub open spec fn has_field(fields: Seq<String>, name: Seq<char>) -> bool {
    exists|j: int| 0 <= j < fields.len() && (#[trigger] fields[j])@ == name
}

/// Whether column `i` of `meta` can be found among `fields`: it has a field of
/// its name, and its geometry types have an array type.
pub open spec fn column_findable(
    meta: &GeoParquetMetadata,
    fields: Seq<String>,
    coord_type: CoordType,
    i: int,
) -> bool {
    has_field(fields, meta.columns@[i].0@) && inferred(
        names_of(meta.columns@[i].1.geometry_types@),
        coord_type,
    ) is Ok
}

/// Why column `i` of `meta` cannot be found among `fields`: no field has its
/// name, which is [`GeoArrowError::IncompatibleMetadata`], or its geometry types
/// have no array type.
pub open spec fn column_refusal(
    meta: &GeoParquetMetadata,
    fields: Seq<String>,
    coord_type: CoordType,
    i: int,
) -> GeoArrowError {
    if !has_field(fields, meta.columns@[i].0@) {
        GeoArrowError::IncompatibleMetadata
    } else {
        match inferred(names_of(meta.columns@[i].1.geometry_types@), coord_type) {
            Err(e) => e,
            Ok(_) => GeoArrowError::IncompatibleMetadata,
        }
    }
}

/// What is found for the first `k` geometry columns of `meta` in a table whose
/// fields are named `fields`: for every column, the position of the first field
/// of its name and the array type that holds it.
pub open spec fn found_columns(
    meta: &GeoParquetMetadata,
    fields: Seq<String>,
    coord_type: CoordType,
    found: Seq<(usize, Option<GeoDataType>)>,
    k: int,
) -> bool {
    &&& found.len() == k
    &&& forall|i: int|
        0 <= i < k ==> {
            let column = #[trigger] meta.columns@[i];
            let at = found[i].0 as int;
            &&& 0 <= at < fields.len()
            &&& fields[at]@ == column.0@
            &&& forall|j: int| 0 <= j < at ==> (#[trigger] fields[j])@ != column.0@
            &&& inferred(names_of(column.1.geometry_types@), coord_type) == Ok::<
                Option<GeoDataType>,
                GeoArrowError,
            >(found[i].1)
        }
}

/// Find all geometry columns among the fields `field_names` of a table,
/// constructing their array types.
///
/// Every column of `meta` is looked up by name. The result lists the columns in
/// the order of `meta`, or says why the first column that cannot be found
/// cannot.
pub fn find_geoparquet_geom_columns(
    meta: &GeoParquetMetadata,
    field_names: &Vec<String>,
    coord_type: CoordType,
) -> (r: Result<Vec<(usize, Option<GeoDataType>)>, GeoArrowError>)
    requires
        forall|i: int|
            0 <= i < meta.columns@.len() ==> types_inferable(
                (#[trigger] meta.columns@[i]).1.geometry_types@,
            ),
    ensures
        match r {
            Ok(found) => found_columns(
                meta,
                field_names@,
                coord_type,
                found@,
                meta.columns@.len() as int,
            ) && forall|i: int|
                0 <= i < meta.columns@.len() ==> #[trigger] column_findable(
                    meta,
                    field_names@,
                    coord_type,
                    i,
                ),
            Err(e) => exists|i: int|
                {
                    &&& 0 <= i < meta.columns@.len()
                    &&& !#[trigger] column_findable(meta, field_names@, coord_type, i)
                    &&& e == column_refusal(meta, field_names@, coord_type, i)
                    &&& forall|j: int|
                        0 <= j < i ==> #[trigger] column_findable(meta, field_names@, coord_type, j)
                },
        },
{
    let mut out: Vec<(usize, Option<GeoDataType>)> = Vec::with_capacity(meta.columns.len());
    let mut i: usize = 0;
    while i < meta.columns.len()
        invariant
            i <= meta.columns@.len(),
            forall|k: int|
                0 <= k < meta.columns@.len() ==> types_inferable(
                    (#[trigger] meta.columns@[k]).1.geometry_types@,
                ),
            found_columns(meta, field_names@, coord_type, out@, i as int),
            forall|k: int|
                0 <= k < i ==> #[trigger] column_findable(meta, field_names@, coord_type, k),
        decreases meta.columns@.len() - i,
    {
        let column = &meta.columns[i];
        let ghost before = out@;
        let at = match position_of(field_names, &column.0) {
            Some(at) => at,
            None => {
                assert(!column_findable(meta, field_names@, coord_type, i as int));
                return Err(GeoArrowError::IncompatibleMetadata);
            },
        };
        assert(has_field(field_names@, meta.columns@[i as int].0@));
        assert(types_inferable(meta.columns@[i as int].1.geometry_types@));
        match infer_geo_data_type(&column.1.geometry_types, coord_type) {
            Ok(t) => {
                out.push((at, t));
                proof {
                    assert forall|k: int| 0 <= k < i + 1 implies {
                        let c = #[trigger] meta.columns@[k];
                        let a = out@[k].0 as int;
                        &&& 0 <= a < field_names@.len()
                        &&& field_names@[a]@ == c.0@
                        &&& forall|j: int| 0 <= j < a ==> (#[trigger] field_names@[j])@ != c.0@
                        &&& inferred(names_of(c.1.geometry_types@), coord_type) == Ok::<
                            Option<GeoDataType>,
                            GeoArrowError,
                        >(out@[k].1)
                    } by {
                        if k < i {
                            assert(out@[k] == before[k]);
                        }
                    }
                }
            },
            Err(e) => {
                assert(!column_findable(meta, field_names@, coord_type, i as int));
                return Err(e);
            },
        }
        i += 1;
    }
    Ok(out)
}

} // verus!
