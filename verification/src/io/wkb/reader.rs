//! Reading well-known binary.
//!
//! The format is given as functions from bytes and a position to the value that
//! stands there and the position after it. The readers are proved to return
//! exactly that. Bytes after the geometry are not looked at.

use vstd::prelude::*;
use crate::coord::Coord;
use crate::error::GeoArrowError;
use crate::geo_traits::{seq2, seq3};
use crate::geometry::{AnyGeometry, AnyGeometryModel, Geometry, GeometryModel, models};
use crate::io::wkb::common::{
    Endianness, Parsed, get_coord, get_u32, get_u8, read_as, read_coord_at, read_u32_at,
    read_u8_at,
};

verus! {

/// The type code of points.
pub const WKB_POINT: u32 = 1;

/// The type code of line strings.
pub const WKB_LINE_STRING: u32 = 2;

/// The type code of polygons.
pub const WKB_POLYGON: u32 = 3;

/// The type code of multi points.
pub const WKB_MULTI_POINT: u32 = 4;

/// The type code of multi line strings.
pub const WKB_MULTI_LINE_STRING: u32 = 5;

/// The type code of multi polygons.
pub const WKB_MULTI_POLYGON: u32 = 6;

/// The type code of geometry collections.
pub const WKB_GEOMETRY_COLLECTION: u32 = 7;

/// The bits of a type code that flag a third ordinate or a measure.
pub const WKB_ZM_FLAGS: u32 = 0xc000_0000;

/// The bit of a type code that flags a reference system identifier.
pub const WKB_SRID_FLAG: u32 = 0x2000_0000;

/// The bits of a type code that hold the shape.
pub const WKB_SHAPE_BITS: u32 = 0x1fff_ffff;

/// The shape that a type code names, from `1` to `7`. A code that flags or
/// names a third ordinate or a measure is a [`GeoArrowError::ShapeMismatch`]:
/// coordinates here have two ordinates. Any other code is a
/// [`GeoArrowError::InvalidEncoding`].
pub open spec fn classify(code: u32) -> Result<u32, GeoArrowError> {
    let base = code & WKB_SHAPE_BITS;
    if code & WKB_ZM_FLAGS != 0 {
        Err(GeoArrowError::ShapeMismatch)
    } else if 1 <= base <= 7 {
        Ok(base)
    } else if (1001 <= base <= 1007) || (2001 <= base <= 2007) || (3001 <= base <= 3007) {
        Err(GeoArrowError::ShapeMismatch)
    } else {
        Err(GeoArrowError::InvalidEncoding)
    }
}

/// The header at `pos`: the byte order and the shape of the geometry that
/// follows. A reference system identifier, where flagged, is skipped.
pub open spec fn get_header(b: Seq<u8>, pos: int) -> Parsed<(Endianness, u32)> {
    match get_u8(b, pos) {
        Err(x) => Err(x),
        Ok((flag, after_flag)) => if flag > 1 {
            Err(GeoArrowError::InvalidEncoding)
        } else {
            let e = if flag == 0 {
                Endianness::BigEndian
            } else {
                Endianness::LittleEndian
            };
            match get_u32(b, after_flag, e) {
                Err(x) => Err(x),
                Ok((code, after_code)) => match classify(code) {
                    Err(x) => Err(x),
                    Ok(base) => if code & WKB_SRID_FLAG != 0 {
                        if after_code + 4 <= b.len() {
                            Ok(((e, base), after_code + 4))
                        } else {
                            Err(GeoArrowError::TruncatedInput)
                        }
                    } else {
                        Ok(((e, base), after_code))
                    },
                },
            }
        },
    }
}

/// A sequence read so far, followed by what reading the rest gives.
pub open spec fn prepend<T>(front: Seq<T>, rest: Parsed<Seq<T>>) -> Parsed<Seq<T>> {
    match rest {
        Ok((vs, q)) => Ok((front + vs, q)),
        Err(x) => Err(x),
    }
}

/// Reads the header at `pos`.
pub fn read_header(bytes: &[u8], pos: usize) -> (r: Result<((Endianness, u32), usize), GeoArrowError>)
    requires
        pos <= bytes@.len(),
    ensures
        read_as(r, get_header(bytes@, pos as int)),
        r matches Ok(((_, base), p)) ==> p <= bytes@.len() && 1 <= base <= 7,
{
    let (flag, after_flag) = match read_u8_at(bytes, pos) {
        Ok(v) => v,
        Err(x) => {
            return Err(x);
        },
    };
    if flag > 1 {
        return Err(GeoArrowError::InvalidEncoding);
    }
    let e = if flag == 0 {
        Endianness::BigEndian
    } else {
        Endianness::LittleEndian
    };
    let (code, after_code) = match read_u32_at(bytes, after_flag, e) {
        Ok(v) => v,
        Err(x) => {
            return Err(x);
        },
    };
    let base = code & WKB_SHAPE_BITS;
    if code & WKB_ZM_FLAGS != 0 {
        return Err(GeoArrowError::ShapeMismatch);
    }
    if !(1 <= base && base <= 7) {
        if (1001 <= base && base <= 1007) || (2001 <= base && base <= 2007) || (3001 <= base
            && base <= 3007) {
            return Err(GeoArrowError::ShapeMismatch);
        }
        return Err(GeoArrowError::InvalidEncoding);
    }
    if code & WKB_SRID_FLAG != 0 {
        if bytes.len() - after_code < 4 {
            return Err(GeoArrowError::TruncatedInput);
        }
        Ok(((e, base), after_code + 4))
    } else {
        Ok(((e, base), after_code))
    }
}

/// The `n` coordinates that stand one after the other from `pos` on.
pub open spec fn get_coords(b: Seq<u8>, pos: int, e: Endianness, n: nat) -> Parsed<Seq<Coord>>
    decreases n,
{
    if n == 0 {
        Ok((Seq::empty(), pos))
    } else {
        match get_coord(b, pos, e) {
            Err(x) => Err(x),
            Ok((v, p)) => prepend(seq![v], get_coords(b, p, e, (n - 1) as nat)),
        }
    }
}

/// Whether a reader of coordinates returned what the format says.
pub open spec fn read_coords_as(r: Result<(Vec<Coord>, usize), GeoArrowError>, s: Parsed<
    Seq<Coord>,
>) -> bool {
    match (r, s) {
        (Ok((v, p)), Ok((w, q))) => v@ == w && p == q,
        (Err(e), Err(f)) => e == f,
        _ => false,
    }
}

/// Reads the `n` coordinates that stand one after the other from `pos` on.
pub fn read_coords(bytes: &[u8], pos: usize, e: Endianness, n: u32) -> (r: Result<
    (Vec<Coord>, usize),
    GeoArrowError,
>)
    requires
        pos <= bytes@.len(),
    ensures
        read_coords_as(r, get_coords(bytes@, pos as int, e, n as nat)),
        r matches Ok((_, p)) ==> p <= bytes@.len(),
{
    let mut out: Vec<Coord> = Vec::new();
    let mut cur = pos;
    let mut k: u32 = 0;
    proof {
        assert(out@ =~= Seq::<Coord>::empty());
        let rest = get_coords(bytes@, pos as int, e, n as nat);
        if let Ok((vs, q)) = rest {
            assert(Seq::<Coord>::empty() + vs =~= vs);
        }
    }
    while k < n
        invariant
            cur <= bytes@.len(),
            k <= n,
            get_coords(bytes@, pos as int, e, n as nat) == prepend(
                out@,
                get_coords(bytes@, cur as int, e, (n - k) as nat),
            ),
        decreases n - k,
    {
        let ghost front = out@;
        match read_coord_at(bytes, cur, e) {
            Err(x) => {
                return Err(x);
            },
            Ok((c, p)) => {
                proof {
                    let rest = get_coords(bytes@, p as int, e, (n - k - 1) as nat);
                    if let Ok((vs, q)) = rest {
                        assert(front + (seq![c] + vs) =~= front.push(c) + vs);
                    }
                }
                out.push(c);
                proof {
                    assert(out@ =~= front.push(c));
                }
                cur = p;
            },
        }
        k += 1;
    }
    proof {
        assert(out@ + Seq::<Coord>::empty() =~= out@);
    }
    Ok((out, cur))
}

/// The payload of a line string: a count and that many coordinates.
pub open spec fn get_line(b: Seq<u8>, pos: int, e: Endianness) -> Parsed<Seq<Coord>> {
    match get_u32(b, pos, e) {
        Err(x) => Err(x),
        Ok((n, p)) => get_coords(b, p, e, n as nat),
    }
}

/// Reads the payload of a line string: a count and that many coordinates.
pub fn read_line(bytes: &[u8], pos: usize, e: Endianness) -> (r: Result<
    (Vec<Coord>, usize),
    GeoArrowError,
>)
    requires
        pos <= bytes@.len(),
    ensures
        read_coords_as(r, get_line(bytes@, pos as int, e)),
        r matches Ok((_, p)) ==> p <= bytes@.len(),
{
    match read_u32_at(bytes, pos, e) {
        Err(x) => Err(x),
        Ok((n, p)) => read_coords(bytes, p, e, n),
    }
}

/// The `n` rings that stand one after the other from `pos` on.
pub open spec fn get_rings(b: Seq<u8>, pos: int, e: Endianness, n: nat) -> Parsed<Seq<Seq<Coord>>>
    decreases n,
{
    if n == 0 {
        Ok((Seq::empty(), pos))
    } else {
        match get_line(b, pos, e) {
            Err(x) => Err(x),
            Ok((v, p)) => prepend(seq![v], get_rings(b, p, e, (n - 1) as nat)),
        }
    }
}

/// Whether a reader of rings returned what the format says.
pub open spec fn read_rings_as(r: Result<(Vec<Vec<Coord>>, usize), GeoArrowError>, s: Parsed<
    Seq<Seq<Coord>>,
>) -> bool {
    match (r, s) {
        (Ok((v, p)), Ok((w, q))) => seq2(v@) == w && p == q,
        (Err(e), Err(f)) => e == f,
        _ => false,
    }
}

/// Reads the `n` rings that stand one after the other from `pos` on.
pub fn read_rings(bytes: &[u8], pos: usize, e: Endianness, n: u32) -> (r: Result<
    (Vec<Vec<Coord>>, usize),
    GeoArrowError,
>)
    requires
        pos <= bytes@.len(),
    ensures
        read_rings_as(r, get_rings(bytes@, pos as int, e, n as nat)),
        r matches Ok((_, p)) ==> p <= bytes@.len(),
{
    let mut out: Vec<Vec<Coord>> = Vec::new();
    let mut cur = pos;
    let mut k: u32 = 0;
    proof {
        assert(seq2(out@) =~= Seq::<Seq<Coord>>::empty());
        let rest = get_rings(bytes@, pos as int, e, n as nat);
        if let Ok((vs, q)) = rest {
            assert(Seq::<Seq<Coord>>::empty() + vs =~= vs);
        }
    }
    while k < n
        invariant
            cur <= bytes@.len(),
            k <= n,
            get_rings(bytes@, pos as int, e, n as nat) == prepend(
                seq2(out@),
                get_rings(bytes@, cur as int, e, (n - k) as nat),
            ),
        decreases n - k,
    {
        let ghost front = seq2(out@);
        match read_line(bytes, cur, e) {
            Err(x) => {
                return Err(x);
            },
            Ok((c, p)) => {
                proof {
                    let rest = get_rings(bytes@, p as int, e, (n - k - 1) as nat);
                    if let Ok((vs, q)) = rest {
                        assert(front + (seq![c@] + vs) =~= front.push(c@) + vs);
                    }
                }
                out.push(c);
                proof {
                    assert(seq2(out@) =~= front.push(c@));
                }
                cur = p;
            },
        }
        k += 1;
    }
    proof {
        assert(seq2(out@) + Seq::<Seq<Coord>>::empty() =~= seq2(out@));
    }
    Ok((out, cur))
}

/// The payload of a polygon: a count and that many rings.
pub open spec fn get_polygon(b: Seq<u8>, pos: int, e: Endianness) -> Parsed<Seq<Seq<Coord>>> {
    match get_u32(b, pos, e) {
        Err(x) => Err(x),
        Ok((n, p)) => get_rings(b, p, e, n as nat),
    }
}

/// Reads the payload of a polygon: a count and that many rings.
pub fn read_polygon(bytes: &[u8], pos: usize, e: Endianness) -> (r: Result<
    (Vec<Vec<Coord>>, usize),
    GeoArrowError,
>)
    requires
        pos <= bytes@.len(),
    ensures
        read_rings_as(r, get_polygon(bytes@, pos as int, e)),
        r matches Ok((_, p)) ==> p <= bytes@.len(),
{
    match read_u32_at(bytes, pos, e) {
        Err(x) => Err(x),
        Ok((n, p)) => read_rings(bytes, p, e, n),
    }
}

/// A whole point: a header that names a point, then its payload.
pub open spec fn get_point_item(b: Seq<u8>, pos: int) -> Parsed<Coord> {
    match get_header(b, pos) {
        Err(x) => Err(x),
        Ok(((e, base), p)) => if base == WKB_POINT {
            get_coord(b, p, e)
        } else {
            Err(GeoArrowError::ShapeMismatch)
        },
    }
}

/// Reads a whole point: a header that names a point, then its payload.
pub fn read_point_item(bytes: &[u8], pos: usize) -> (r: Result<(Coord, usize), GeoArrowError>)
    requires
        pos <= bytes@.len(),
    ensures
        read_as(r, get_point_item(bytes@, pos as int)),
        r matches Ok((_, p)) ==> p <= bytes@.len(),
{
    match read_header(bytes, pos) {
        Err(x) => Err(x),
        Ok(((e, base), p)) => if base == WKB_POINT {
            read_coord_at(bytes, p, e)
        } else {
            Err(GeoArrowError::ShapeMismatch)
        },
    }
}

/// A whole line string: a header that names a line string, then its payload.
pub open spec fn get_line_item(b: Seq<u8>, pos: int) -> Parsed<Seq<Coord>> {
    match get_header(b, pos) {
        Err(x) => Err(x),
        Ok(((e, base), p)) => if base == WKB_LINE_STRING {
            get_line(b, p, e)
        } else {
            Err(GeoArrowError::ShapeMismatch)
        },
    }
}

/// Reads a whole line string: a header that names a line string, then its payload.
pub fn read_line_item(bytes: &[u8], pos: usize) -> (r: Result<(Vec<Coord>, usize), GeoArrowError>)
    requires
        pos <= bytes@.len(),
    ensures
        read_coords_as(r, get_line_item(bytes@, pos as int)),
        r matches Ok((_, p)) ==> p <= bytes@.len(),
{
    match read_header(bytes, pos) {
        Err(x) => Err(x),
        Ok(((e, base), p)) => if base == WKB_LINE_STRING {
            read_line(bytes, p, e)
        } else {
            Err(GeoArrowError::ShapeMismatch)
        },
    }
}

/// A whole polygon: a header that names a polygon, then its payload.
pub open spec fn get_polygon_item(b: Seq<u8>, pos: int) -> Parsed<Seq<Seq<Coord>>> {
    match get_header(b, pos) {
        Err(x) => Err(x),
        Ok(((e, base), p)) => if base == WKB_POLYGON {
            get_polygon(b, p, e)
        } else {
            Err(GeoArrowError::ShapeMismatch)
        },
    }
}

/// Reads a whole polygon: a header that names a polygon, then its payload.
pub fn read_polygon_item(bytes: &[u8], pos: usize) -> (r: Result<(Vec<Vec<Coord>>, usize), GeoArrowError>)
    requires
        pos <= bytes@.len(),
    ensures
        read_rings_as(r, get_polygon_item(bytes@, pos as int)),
        r matches Ok((_, p)) ==> p <= bytes@.len(),
{
    match read_header(bytes, pos) {
        Err(x) => Err(x),
        Ok(((e, base), p)) => if base == WKB_POLYGON {
            read_polygon(bytes, p, e)
        } else {
            Err(GeoArrowError::ShapeMismatch)
        },
    }
}

/// The `n` whole points that stand one after the other from `pos` on.
pub open spec fn get_points(b: Seq<u8>, pos: int, n: nat) -> Parsed<Seq<Coord>>
    decreases n,
{
    if n == 0 {
        Ok((Seq::empty(), pos))
    } else {
        match get_point_item(b, pos) {
            Err(x) => Err(x),
            Ok((v, p)) => prepend(seq![v], get_points(b, p, (n - 1) as nat)),
        }
    }
}

/// Whether a reader of whole points returned what the format says.
pub open spec fn read_points_as(r: Result<(Vec<Coord>, usize), GeoArrowError>, s: Parsed<
    Seq<Coord>,
>) -> bool {
    match (r, s) {
        (Ok((v, p)), Ok((w, q))) => v@ == w && p == q,
        (Err(e), Err(f)) => e == f,
        _ => false,
    }
}

/// Reads the `n` whole points that stand one after the other from `pos` on.
pub fn read_points(bytes: &[u8], pos: usize, n: u32) -> (r: Result<
    (Vec<Coord>, usize),
    GeoArrowError,
>)
    requires
        pos <= bytes@.len(),
    ensures
        read_points_as(r, get_points(bytes@, pos as int, n as nat)),
        r matches Ok((_, p)) ==> p <= bytes@.len(),
{
    let mut out: Vec<Coord> = Vec::new();
    let mut cur = pos;
    let mut k: u32 = 0;
    proof {
        assert(out@ =~= Seq::<Coord>::empty());
        let rest = get_points(bytes@, pos as int, n as nat);
        if let Ok((vs, q)) = rest {
            assert(Seq::<Coord>::empty() + vs =~= vs);
        }
    }
    while k < n
        invariant
            cur <= bytes@.len(),
            k <= n,
            get_points(bytes@, pos as int, n as nat) == prepend(
                out@,
                get_points(bytes@, cur as int, (n - k) as nat),
            ),
        decreases n - k,
    {
        let ghost front = out@;
        match read_point_item(bytes, cur) {
            Err(x) => {
                return Err(x);
            },
            Ok((c, p)) => {
                proof {
                    let rest = get_points(bytes@, p as int, (n - k - 1) as nat);
                    if let Ok((vs, q)) = rest {
                        assert(front + (seq![c] + vs) =~= front.push(c) + vs);
                    }
                }
                out.push(c);
                proof {
                    assert(out@ =~= front.push(c));
                }
                cur = p;
            },
        }
        k += 1;
    }
    proof {
        assert(out@ + Seq::<Coord>::empty() =~= out@);
    }
    Ok((out, cur))
}

/// The payload of a multi point: a count and that many whole points.
pub open spec fn get_multi_point(b: Seq<u8>, pos: int, e: Endianness) -> Parsed<Seq<Coord>> {
    match get_u32(b, pos, e) {
        Err(x) => Err(x),
        Ok((n, p)) => get_points(b, p, n as nat),
    }
}

/// Reads the payload of a multi point: a count and that many whole points.
pub fn read_multi_point(bytes: &[u8], pos: usize, e: Endianness) -> (r: Result<
    (Vec<Coord>, usize),
    GeoArrowError,
>)
    requires
        pos <= bytes@.len(),
    ensures
        read_points_as(r, get_multi_point(bytes@, pos as int, e)),
        r matches Ok((_, p)) ==> p <= bytes@.len(),
{
    match read_u32_at(bytes, pos, e) {
        Err(x) => Err(x),
        Ok((n, p)) => read_points(bytes, p, n),
    }
}

/// The `n` whole line strings that stand one after the other from `pos` on.
pub open spec fn get_lines(b: Seq<u8>, pos: int, n: nat) -> Parsed<Seq<Seq<Coord>>>
    decreases n,
{
    if n == 0 {
        Ok((Seq::empty(), pos))
    } else {
        match get_line_item(b, pos) {
            Err(x) => Err(x),
            Ok((v, p)) => prepend(seq![v], get_lines(b, p, (n - 1) as nat)),
        }
    }
}

/// Whether a reader of whole line strings returned what the format says.
pub open spec fn read_lines_as(r: Result<(Vec<Vec<Coord>>, usize), GeoArrowError>, s: Parsed<
    Seq<Seq<Coord>>,
>) -> bool {
    match (r, s) {
        (Ok((v, p)), Ok((w, q))) => seq2(v@) == w && p == q,
        (Err(e), Err(f)) => e == f,
        _ => false,
    }
}

/// Reads the `n` whole line strings that stand one after the other from `pos` on.
pub fn read_lines(bytes: &[u8], pos: usize, n: u32) -> (r: Result<
    (Vec<Vec<Coord>>, usize),
    GeoArrowError,
>)
    requires
        pos <= bytes@.len(),
    ensures
        read_lines_as(r, get_lines(bytes@, pos as int, n as nat)),
        r matches Ok((_, p)) ==> p <= bytes@.len(),
{
    let mut out: Vec<Vec<Coord>> = Vec::new();
    let mut cur = pos;
    let mut k: u32 = 0;
    proof {
        assert(seq2(out@) =~= Seq::<Seq<Coord>>::empty());
        let rest = get_lines(bytes@, pos as int, n as nat);
        if let Ok((vs, q)) = rest {
            assert(Seq::<Seq<Coord>>::empty() + vs =~= vs);
        }
    }
    while k < n
        invariant
            cur <= bytes@.len(),
            k <= n,
            get_lines(bytes@, pos as int, n as nat) == prepend(
                seq2(out@),
                get_lines(bytes@, cur as int, (n - k) as nat),
            ),
        decreases n - k,
    {
        let ghost front = seq2(out@);
        match read_line_item(bytes, cur) {
            Err(x) => {
                return Err(x);
            },
            Ok((c, p)) => {
                proof {
                    let rest = get_lines(bytes@, p as int, (n - k - 1) as nat);
                    if let Ok((vs, q)) = rest {
                        assert(front + (seq![c@] + vs) =~= front.push(c@) + vs);
                    }
                }
                out.push(c);
                proof {
                    assert(seq2(out@) =~= front.push(c@));
                }
                cur = p;
            },
        }
        k += 1;
    }
    proof {
        assert(seq2(out@) + Seq::<Seq<Coord>>::empty() =~= seq2(out@));
    }
    Ok((out, cur))
}

/// The payload of a multi line string: a count and that many whole line strings.
pub open spec fn get_multi_line_string(b: Seq<u8>, pos: int, e: Endianness) -> Parsed<Seq<Seq<Coord>>> {
    match get_u32(b, pos, e) {
        Err(x) => Err(x),
        Ok((n, p)) => get_lines(b, p, n as nat),
    }
}

/// Reads the payload of a multi line string: a count and that many whole line strings.
pub fn read_multi_line_string(bytes: &[u8], pos: usize, e: Endianness) -> (r: Result<
    (Vec<Vec<Coord>>, usize),
    GeoArrowError,
>)
    requires
        pos <= bytes@.len(),
    ensures
        read_lines_as(r, get_multi_line_string(bytes@, pos as int, e)),
        r matches Ok((_, p)) ==> p <= bytes@.len(),
{
    match read_u32_at(bytes, pos, e) {
        Err(x) => Err(x),
        Ok((n, p)) => read_lines(bytes, p, n),
    }
}

/// The `n` whole polygons that stand one after the other from `pos` on.
pub open spec fn get_polygons(b: Seq<u8>, pos: int, n: nat) -> Parsed<Seq<Seq<Seq<Coord>>>>
    decreases n,
{
    if n == 0 {
        Ok((Seq::empty(), pos))
    } else {
        match get_polygon_item(b, pos) {
            Err(x) => Err(x),
            Ok((v, p)) => prepend(seq![v], get_polygons(b, p, (n - 1) as nat)),
        }
    }
}

/// Whether a reader of whole polygons returned what the format says.
pub open spec fn read_polygons_as(r: Result<(Vec<Vec<Vec<Coord>>>, usize), GeoArrowError>, s: Parsed<
    Seq<Seq<Seq<Coord>>>,
>) -> bool {
    match (r, s) {
        (Ok((v, p)), Ok((w, q))) => seq3(v@) == w && p == q,
        (Err(e), Err(f)) => e == f,
        _ => false,
    }
}

/// Reads the `n` whole polygons that stand one after the other from `pos` on.
pub fn read_polygons(bytes: &[u8], pos: usize, n: u32) -> (r: Result<
    (Vec<Vec<Vec<Coord>>>, usize),
    GeoArrowError,
>)
    requires
        pos <= bytes@.len(),
    ensures
        read_polygons_as(r, get_polygons(bytes@, pos as int, n as nat)),
        r matches Ok((_, p)) ==> p <= bytes@.len(),
{
    let mut out: Vec<Vec<Vec<Coord>>> = Vec::new();
    let mut cur = pos;
    let mut k: u32 = 0;
    proof {
        assert(seq3(out@) =~= Seq::<Seq<Seq<Coord>>>::empty());
        let rest = get_polygons(bytes@, pos as int, n as nat);
        if let Ok((vs, q)) = rest {
            assert(Seq::<Seq<Seq<Coord>>>::empty() + vs =~= vs);
        }
    }
    while k < n
        invariant
            cur <= bytes@.len(),
            k <= n,
            get_polygons(bytes@, pos as int, n as nat) == prepend(
                seq3(out@),
                get_polygons(bytes@, cur as int, (n - k) as nat),
            ),
        decreases n - k,
    {
        let ghost front = seq3(out@);
        match read_polygon_item(bytes, cur) {
            Err(x) => {
                return Err(x);
            },
            Ok((c, p)) => {
                proof {
                    let rest = get_polygons(bytes@, p as int, (n - k - 1) as nat);
                    if let Ok((vs, q)) = rest {
                        assert(front + (seq![seq2(c@)] + vs) =~= front.push(seq2(c@)) + vs);
                    }
                }
                out.push(c);
                proof {
                    assert(seq3(out@) =~= front.push(seq2(c@)));
                }
                cur = p;
            },
        }
        k += 1;
    }
    proof {
        assert(seq3(out@) + Seq::<Seq<Seq<Coord>>>::empty() =~= seq3(out@));
    }
    Ok((out, cur))
}

/// The payload of a multi polygon: a count and that many whole polygons.
pub open spec fn get_multi_polygon(b: Seq<u8>, pos: int, e: Endianness) -> Parsed<Seq<Seq<Seq<Coord>>>> {
    match get_u32(b, pos, e) {
        Err(x) => Err(x),
        Ok((n, p)) => get_polygons(b, p, n as nat),
    }
}

/// Reads the payload of a multi polygon: a count and that many whole polygons.
pub fn read_multi_polygon(bytes: &[u8], pos: usize, e: Endianness) -> (r: Result<
    (Vec<Vec<Vec<Coord>>>, usize),
    GeoArrowError,
>)
    requires
        pos <= bytes@.len(),
    ensures
        read_polygons_as(r, get_multi_polygon(bytes@, pos as int, e)),
        r matches Ok((_, p)) ==> p <= bytes@.len(),
{
    match read_u32_at(bytes, pos, e) {
        Err(x) => Err(x),
        Ok((n, p)) => read_polygons(bytes, p, n),
    }
}

/// The geometry of shape `base`, from `1` to `6`, whose payload stands at `pos`
/// in byte order `e`.
pub open spec fn get_body(b: Seq<u8>, pos: int, e: Endianness, base: u32) -> Parsed<GeometryModel> {
    if base == 1 {
        match get_coord(b, pos, e) {
            Ok((v, p)) => Ok((GeometryModel::Point(v), p)),
            Err(x) => Err(x),
        }
    } else if base == 2 {
        match get_line(b, pos, e) {
            Ok((v, p)) => Ok((GeometryModel::LineString(v), p)),
            Err(x) => Err(x),
        }
    } else if base == 3 {
        match get_polygon(b, pos, e) {
            Ok((v, p)) => Ok((GeometryModel::Polygon(v), p)),
            Err(x) => Err(x),
        }
    } else if base == 4 {
        match get_multi_point(b, pos, e) {
            Ok((v, p)) => Ok((GeometryModel::MultiPoint(v), p)),
            Err(x) => Err(x),
        }
    } else if base == 5 {
        match get_multi_line_string(b, pos, e) {
            Ok((v, p)) => Ok((GeometryModel::MultiLineString(v), p)),
            Err(x) => Err(x),
        }
    } else {
        match get_multi_polygon(b, pos, e) {
            Ok((v, p)) => Ok((GeometryModel::MultiPolygon(v), p)),
            Err(x) => Err(x),
        }
    }
}

/// Whether a reader of one geometry returned what the format says.
pub open spec fn read_geometry_as(r: Result<(Geometry, usize), GeoArrowError>, s: Parsed<
    GeometryModel,
>) -> bool {
    match (r, s) {
        (Ok((v, p)), Ok((w, q))) => v@ == w && p == q,
        (Err(e), Err(f)) => e == f,
        _ => false,
    }
}

/// Reads the geometry of shape `base` whose payload stands at `pos`.
pub fn read_body(bytes: &[u8], pos: usize, e: Endianness, base: u32) -> (r: Result<
    (Geometry, usize),
    GeoArrowError,
>)
    requires
        pos <= bytes@.len(),
        1 <= base <= 6,
    ensures
        read_geometry_as(r, get_body(bytes@, pos as int, e, base)),
        r matches Ok((_, p)) ==> p <= bytes@.len(),
{
    if base == 1 {
        match read_coord_at(bytes, pos, e) {
            Ok((v, p)) => Ok((Geometry::Point(v), p)),
            Err(x) => Err(x),
        }
    } else if base == 2 {
        match read_line(bytes, pos, e) {
            Ok((v, p)) => Ok((Geometry::LineString(v), p)),
            Err(x) => Err(x),
        }
    } else if base == 3 {
        match read_polygon(bytes, pos, e) {
            Ok((v, p)) => Ok((Geometry::Polygon(v), p)),
            Err(x) => Err(x),
        }
    } else if base == 4 {
        match read_multi_point(bytes, pos, e) {
            Ok((v, p)) => Ok((Geometry::MultiPoint(v), p)),
            Err(x) => Err(x),
        }
    } else if base == 5 {
        match read_multi_line_string(bytes, pos, e) {
            Ok((v, p)) => Ok((Geometry::MultiLineString(v), p)),
            Err(x) => Err(x),
        }
    } else {
        match read_multi_polygon(bytes, pos, e) {
            Ok((v, p)) => Ok((Geometry::MultiPolygon(v), p)),
            Err(x) => Err(x),
        }
    }
}

/// The member of a collection that stands at `pos`: a geometry of one of the
/// six simple shapes, or a collection that wraps exactly one such geometry,
/// which is taken for that geometry. A collection of any other size, or one that
/// wraps another collection, is [`GeoArrowError::UnsupportedNesting`].
pub open spec fn get_member(b: Seq<u8>, pos: int) -> Parsed<GeometryModel> {
    match get_header(b, pos) {
        Err(x) => Err(x),
        Ok(((e, base), p)) => if base <= 6 {
            get_body(b, p, e, base)
        } else {
            match get_u32(b, p, e) {
                Err(x) => Err(x),
                Ok((n, after_code)) => if n != 1 {
                    Err(GeoArrowError::UnsupportedNesting)
                } else {
                    match get_header(b, after_code) {
                        Err(x) => Err(x),
                        Ok(((e2, base2), after_inner)) => if base2 <= 6 {
                            get_body(b, after_inner, e2, base2)
                        } else {
                            Err(GeoArrowError::UnsupportedNesting)
                        },
                    }
                },
            }
        },
    }
}

/// Reads the member of a collection that stands at `pos`.
pub fn read_member(bytes: &[u8], pos: usize) -> (r: Result<(Geometry, usize), GeoArrowError>)
    requires
        pos <= bytes@.len(),
    ensures
        read_geometry_as(r, get_member(bytes@, pos as int)),
        r matches Ok((_, p)) ==> p <= bytes@.len(),
{
    let ((e, base), p) = match read_header(bytes, pos) {
        Ok(v) => v,
        Err(x) => {
            return Err(x);
        },
    };
    if base <= 6 {
        return read_body(bytes, p, e, base);
    }
    let (n, after_code) = match read_u32_at(bytes, p, e) {
        Ok(v) => v,
        Err(x) => {
            return Err(x);
        },
    };
    if n != 1 {
        return Err(GeoArrowError::UnsupportedNesting);
    }
    let ((e2, base2), after_inner) = match read_header(bytes, after_code) {
        Ok(v) => v,
        Err(x) => {
            return Err(x);
        },
    };
    if base2 <= 6 {
        read_body(bytes, after_inner, e2, base2)
    } else {
        Err(GeoArrowError::UnsupportedNesting)
    }
}

/// The `n` members of a collection that stand one after the other from `pos` on.
pub open spec fn get_members(b: Seq<u8>, pos: int, n: nat) -> Parsed<Seq<GeometryModel>>
    decreases n,
{
    if n == 0 {
        Ok((Seq::empty(), pos))
    } else {
        match get_member(b, pos) {
            Err(x) => Err(x),
            Ok((v, p)) => prepend(seq![v], get_members(b, p, (n - 1) as nat)),
        }
    }
}

/// Whether a reader of members of a collection returned what the format says.
pub open spec fn read_members_as(r: Result<(Vec<Geometry>, usize), GeoArrowError>, s: Parsed<
    Seq<GeometryModel>,
>) -> bool {
    match (r, s) {
        (Ok((v, p)), Ok((w, q))) => models(v@) == w && p == q,
        (Err(e), Err(f)) => e == f,
        _ => false,
    }
}

/// Reads the `n` members of a collection that stand one after the other from `pos` on.
pub fn read_members(bytes: &[u8], pos: usize, n: u32) -> (r: Result<
    (Vec<Geometry>, usize),
    GeoArrowError,
>)
    requires
        pos <= bytes@.len(),
    ensures
        read_members_as(r, get_members(bytes@, pos as int, n as nat)),
        r matches Ok((_, p)) ==> p <= bytes@.len(),
{
    let mut out: Vec<Geometry> = Vec::new();
    let mut cur = pos;
    let mut k: u32 = 0;
    proof {
        assert(models(out@) =~= Seq::<GeometryModel>::empty());
        let rest = get_members(bytes@, pos as int, n as nat);
        if let Ok((vs, q)) = rest {
            assert(Seq::<GeometryModel>::empty() + vs =~= vs);
        }
    }
    while k < n
        invariant
            cur <= bytes@.len(),
            k <= n,
            get_members(bytes@, pos as int, n as nat) == prepend(
                models(out@),
                get_members(bytes@, cur as int, (n - k) as nat),
            ),
        decreases n - k,
    {
        let ghost front = models(out@);
        match read_member(bytes, cur) {
            Err(x) => {
                return Err(x);
            },
            Ok((c, p)) => {
                proof {
                    let rest = get_members(bytes@, p as int, (n - k - 1) as nat);
                    if let Ok((vs, q)) = rest {
                        assert(front + (seq![c@] + vs) =~= front.push(c@) + vs);
                    }
                }
                out.push(c);
                proof {
                    assert(models(out@) =~= front.push(c@));
                }
                cur = p;
            },
        }
        k += 1;
    }
    proof {
        assert(models(out@) + Seq::<GeometryModel>::empty() =~= models(out@));
    }
    Ok((out, cur))
}

/// The geometry or collection that stands at `pos`.
pub open spec fn get_geometry(b: Seq<u8>, pos: int) -> Parsed<AnyGeometryModel> {
    match get_header(b, pos) {
        Err(x) => Err(x),
        Ok(((e, base), p)) => if base <= 6 {
            match get_body(b, p, e, base) {
                Ok((g, q)) => Ok((AnyGeometryModel::Geometry(g), q)),
                Err(x) => Err(x),
            }
        } else {
            match get_u32(b, p, e) {
                Err(x) => Err(x),
                Ok((n, after_code)) => match get_members(b, after_code, n as nat) {
                    Ok((ms, q)) => Ok((AnyGeometryModel::GeometryCollection(ms), q)),
                    Err(x) => Err(x),
                },
            }
        },
    }
}

/// What well-known binary `b` decodes to: the geometry or collection that it
/// opens with.
pub open spec fn decoded(b: Seq<u8>) -> Result<AnyGeometryModel, GeoArrowError> {
    match get_geometry(b, 0) {
        Ok((g, _)) => Ok(g),
        Err(x) => Err(x),
    }
}

/// Decodes well-known binary: the geometry or collection that `bytes` open
/// with.
///
/// Fails with [`GeoArrowError::TruncatedInput`] where the bytes end before what
/// they declare, with [`GeoArrowError::InvalidEncoding`] on an unknown byte order
/// or type code, with [`GeoArrowError::ShapeMismatch`] on a third ordinate or a
/// part of the wrong shape, and with [`GeoArrowError::UnsupportedNesting`] on a
/// collection inside a collection that does not wrap exactly one simple
/// geometry.
pub fn decode_wkb(bytes: &[u8]) -> (r: Result<AnyGeometry, GeoArrowError>)
    ensures
        match (r, decoded(bytes@)) {
            (Ok(g), Ok(m)) => g@ == m,
            (Err(e), Err(f)) => e == f,
            _ => false,
        },
{
    let ((e, base), p) = match read_header(bytes, 0) {
        Ok(v) => v,
        Err(x) => {
            return Err(x);
        },
    };
    if base <= 6 {
        match read_body(bytes, p, e, base) {
            Ok((g, _)) => Ok(AnyGeometry::Geometry(g)),
            Err(x) => Err(x),
        }
    } else {
        let (n, after_code) = match read_u32_at(bytes, p, e) {
            Ok(v) => v,
            Err(x) => {
                return Err(x);
            },
        };
        match read_members(bytes, after_code, n) {
            Ok((ms, _)) => Ok(AnyGeometry::GeometryCollection(ms)),
            Err(x) => Err(x),
        }
    }
}

} // verus!
