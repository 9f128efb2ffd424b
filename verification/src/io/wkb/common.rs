//! Byte orders and the numbers of the format.

use byteorder::{BigEndian, ByteOrder, LittleEndian, WriteBytesExt};
use vstd::prelude::*;
use vstd::slice::slice_subrange;
use crate::coord::Coord;
use crate::error::GeoArrowError;

verus! {

/// The order of the bytes of a number.
#[derive(Clone, Copy, Debug, PartialEq, Eq, Structural)]
pub enum Endianness {
    /// Most significant byte first. Flag byte `0`.
    BigEndian,
    /// Least significant byte first. Flag byte `1`.
    LittleEndian,
}

impl Endianness {
    /// The flag byte that names this byte order.
    pub open spec fn spec_flag(self) -> u8 {
        match self {
            Endianness::BigEndian => 0,
            Endianness::LittleEndian => 1,
        }
    }

    /// The flag byte that names this byte order.
    pub fn flag(self) -> (b: u8)
        ensures
            b == self.spec_flag(),
    {
        match self {
            Endianness::BigEndian => 0,
            Endianness::LittleEndian => 1,
        }
    }
}

/// The four bytes of `x`, least significant first.
pub open spec fn u32_le(x: u32) -> Seq<u8> {
    seq![
        (x & 0xff) as u8,
        ((x >> 8) & 0xff) as u8,
        ((x >> 16) & 0xff) as u8,
        ((x >> 24) & 0xff) as u8,
    ]
}

/// The four bytes of `x`, most significant first.
pub open spec fn u32_be(x: u32) -> Seq<u8> {
    seq![
        ((x >> 24) & 0xff) as u8,
        ((x >> 16) & 0xff) as u8,
        ((x >> 8) & 0xff) as u8,
        (x & 0xff) as u8,
    ]
}

/// The eight bytes of `x`, least significant first.
pub open spec fn u64_le(x: u64) -> Seq<u8> {
    seq![
        (x & 0xff) as u8,
        ((x >> 8) & 0xff) as u8,
        ((x >> 16) & 0xff) as u8,
        ((x >> 24) & 0xff) as u8,
        ((x >> 32) & 0xff) as u8,
        ((x >> 40) & 0xff) as u8,
        ((x >> 48) & 0xff) as u8,
        ((x >> 56) & 0xff) as u8,
    ]
}

/// The eight bytes of `x`, most significant first.
pub open spec fn u64_be(x: u64) -> Seq<u8> {
    seq![
        ((x >> 56) & 0xff) as u8,
        ((x >> 48) & 0xff) as u8,
        ((x >> 40) & 0xff) as u8,
        ((x >> 32) & 0xff) as u8,
        ((x >> 24) & 0xff) as u8,
        ((x >> 16) & 0xff) as u8,
        ((x >> 8) & 0xff) as u8,
        (x & 0xff) as u8,
    ]
}

/// The number whose four bytes, least significant first, are `b`.
pub open spec fn u32_from_le(b: Seq<u8>) -> u32 {
    (b[0] as u32) | (b[1] as u32) << 8 | (b[2] as u32) << 16 | (b[3] as u32) << 24
}

/// The number whose four bytes, most significant first, are `b`.
pub open spec fn u32_from_be(b: Seq<u8>) -> u32 {
    (b[3] as u32) | (b[2] as u32) << 8 | (b[1] as u32) << 16 | (b[0] as u32) << 24
}

/// The number whose eight bytes, least significant first, are `b`.
pub open spec fn u64_from_le(b: Seq<u8>) -> u64 {
    (b[0] as u64) | (b[1] as u64) << 8 | (b[2] as u64) << 16 | (b[3] as u64) << 24 | (b[4] as u64)
        << 32 | (b[5] as u64) << 40 | (b[6] as u64) << 48 | (b[7] as u64) << 56
}

/// The number whose eight bytes, most significant first, are `b`.
pub open spec fn u64_from_be(b: Seq<u8>) -> u64 {
    (b[7] as u64) | (b[6] as u64) << 8 | (b[5] as u64) << 16 | (b[4] as u64) << 24 | (b[3] as u64)
        << 32 | (b[2] as u64) << 40 | (b[1] as u64) << 48 | (b[0] as u64) << 56
}

/// The four bytes of `x` in byte order `e`.
pub open spec fn u32_bytes(x: u32, e: Endianness) -> Seq<u8> {
    match e {
        Endianness::BigEndian => u32_be(x),
        Endianness::LittleEndian => u32_le(x),
    }
}

/// The eight bytes of `x` in byte order `e`.
pub open spec fn u64_bytes(x: u64, e: Endianness) -> Seq<u8> {
    match e {
        Endianness::BigEndian => u64_be(x),
        Endianness::LittleEndian => u64_le(x),
    }
}

/// The number whose four bytes in byte order `e` are `b`.
pub open spec fn u32_from(b: Seq<u8>, e: Endianness) -> u32 {
    match e {
        Endianness::BigEndian => u32_from_be(b),
        Endianness::LittleEndian => u32_from_le(b),
    }
}

/// The number whose eight bytes in byte order `e` are `b`.
pub open spec fn u64_from(b: Seq<u8>, e: Endianness) -> u64 {
    match e {
        Endianness::BigEndian => u64_from_be(b),
        Endianness::LittleEndian => u64_from_le(b),
    }
}

/// Reading the bytes of a 32-bit number gives the number back.
pub proof fn lemma_u32_round_trip(x: u32, e: Endianness)
    ensures
        u32_bytes(x, e).len() == 4,
        u32_from(u32_bytes(x, e), e) == x,
{
    let b0 = x & 0xff;
    let b1 = (x >> 8) & 0xff;
    let b2 = (x >> 16) & 0xff;
    let b3 = (x >> 24) & 0xff;
    assert(b0 < 256 && b1 < 256 && b2 < 256 && b3 < 256 && x == (b0 | b1 << 8 | b2 << 16 | b3
        << 24)) by (bit_vector)
        requires
            b0 == x & 0xff,
            b1 == (x >> 8) & 0xff,
            b2 == (x >> 16) & 0xff,
            b3 == (x >> 24) & 0xff,
    ;
    assert((b0 as u8) as u32 == b0);
    assert((b1 as u8) as u32 == b1);
    assert((b2 as u8) as u32 == b2);
    assert((b3 as u8) as u32 == b3);
}

/// Reading the bytes of a 64-bit number gives the number back.
pub proof fn lemma_u64_round_trip(x: u64, e: Endianness)
    ensures
        u64_bytes(x, e).len() == 8,
        u64_from(u64_bytes(x, e), e) == x,
{
    let b0 = x & 0xff;
    let b1 = (x >> 8) & 0xff;
    let b2 = (x >> 16) & 0xff;
    let b3 = (x >> 24) & 0xff;
    let b4 = (x >> 32) & 0xff;
    let b5 = (x >> 40) & 0xff;
    let b6 = (x >> 48) & 0xff;
    let b7 = (x >> 56) & 0xff;
    assert(b0 < 256 && b1 < 256 && b2 < 256 && b3 < 256 && b4 < 256 && b5 < 256 && b6 < 256 && b7
        < 256 && x == (b0 | b1 << 8 | b2 << 16 | b3 << 24 | b4 << 32 | b5 << 40 | b6 << 48 | b7
        << 56)) by (bit_vector)
        requires
            b0 == x & 0xff,
            b1 == (x >> 8) & 0xff,
            b2 == (x >> 16) & 0xff,
            b3 == (x >> 24) & 0xff,
            b4 == (x >> 32) & 0xff,
            b5 == (x >> 40) & 0xff,
            b6 == (x >> 48) & 0xff,
            b7 == (x >> 56) & 0xff,
    ;
    assert((b0 as u8) as u64 == b0);
    assert((b1 as u8) as u64 == b1);
    assert((b2 as u8) as u64 == b2);
    assert((b3 as u8) as u64 == b3);
    assert((b4 as u8) as u64 == b4);
    assert((b5 as u8) as u64 == b5);
    assert((b6 as u8) as u64 == b6);
    assert((b7 as u8) as u64 == b7);
}

/// `byteorder::LittleEndian::read_u32`: the number whose least significant byte
/// is the first of `buf`. It reads four bytes and panics on a shorter buffer,
/// which `requires` rules out.
#[verifier::external_body]
fn read_u32_le(buf: &[u8]) -> (x: u32)
    requires
        buf@.len() >= 4,
    ensures
        x == u32_from_le(buf@.subrange(0, 4)),
{
    LittleEndian::read_u32(buf)
}

/// `byteorder::BigEndian::read_u32`: the number whose most significant byte is
/// the first of `buf`. It reads four bytes and panics on a shorter buffer, which
/// `requires` rules out.
#[verifier::external_body]
fn read_u32_be(buf: &[u8]) -> (x: u32)
    requires
        buf@.len() >= 4,
    ensures
        x == u32_from_be(buf@.subrange(0, 4)),
{
    BigEndian::read_u32(buf)
}

/// `byteorder::LittleEndian::read_u64`: the number whose least significant byte
/// is the first of `buf`. It reads eight bytes and panics on a shorter buffer,
/// which `requires` rules out.
#[verifier::external_body]
fn read_u64_le(buf: &[u8]) -> (x: u64)
    requires
        buf@.len() >= 8,
    ensures
        x == u64_from_le(buf@.subrange(0, 8)),
{
    LittleEndian::read_u64(buf)
}

/// `byteorder::BigEndian::read_u64`: the number whose most significant byte is
/// the first of `buf`. It reads eight bytes and panics on a shorter buffer, which
/// `requires` rules out.
#[verifier::external_body]
fn read_u64_be(buf: &[u8]) -> (x: u64)
    requires
        buf@.len() >= 8,
    ensures
        x == u64_from_be(buf@.subrange(0, 8)),
{
    BigEndian::read_u64(buf)
}

/// `byteorder::WriteBytesExt::write_u32::<LittleEndian>` on a vector: appends
/// the four bytes of `x`, least significant first. Writing to a vector does not
/// fail.
#[verifier::external_body]
fn write_u32_le(out: &mut Vec<u8>, x: u32)
    ensures
        final(out)@ == old(out)@ + u32_le(x),
{
    out.write_u32::<LittleEndian>(x).unwrap()
}

/// `byteorder::WriteBytesExt::write_u32::<BigEndian>` on a vector: appends the
/// four bytes of `x`, most significant first. Writing to a vector does not fail.
#[verifier::external_body]
fn write_u32_be(out: &mut Vec<u8>, x: u32)
    ensures
        final(out)@ == old(out)@ + u32_be(x),
{
    out.write_u32::<BigEndian>(x).unwrap()
}

/// `byteorder::WriteBytesExt::write_u64::<LittleEndian>` on a vector: appends
/// the eight bytes of `x`, least significant first. Writing to a vector does not
/// fail.
#[verifier::external_body]
fn write_u64_le(out: &mut Vec<u8>, x: u64)
    ensures
        final(out)@ == old(out)@ + u64_le(x),
{
    out.write_u64::<LittleEndian>(x).unwrap()
}

/// `byteorder::WriteBytesExt::write_u64::<BigEndian>` on a vector: appends the
/// eight bytes of `x`, most significant first. Writing to a vector does not fail.
#[verifier::external_body]
fn write_u64_be(out: &mut Vec<u8>, x: u64)
    ensures
        final(out)@ == old(out)@ + u64_be(x),
{
    out.write_u64::<BigEndian>(x).unwrap()
}

/// What reading at a position gives: the value read and the position after it,
/// or why nothing could be read.
pub type Parsed<T> = Result<(T, int), GeoArrowError>;

/// The byte at `pos` of `b`, where there is one.
pub open spec fn get_u8(b: Seq<u8>, pos: int) -> Parsed<u8> {
    if pos + 1 <= b.len() {
        Ok((b[pos], pos + 1))
    } else {
        Err(GeoArrowError::TruncatedInput)
    }
}

/// The 32-bit number at `pos` of `b` in byte order `e`, where four bytes are
/// left.
pub open spec fn get_u32(b: Seq<u8>, pos: int, e: Endianness) -> Parsed<u32> {
    if pos + 4 <= b.len() {
        Ok((u32_from(b.subrange(pos, pos + 4), e), pos + 4))
    } else {
        Err(GeoArrowError::TruncatedInput)
    }
}

/// The coordinate at `pos` of `b` in byte order `e`, where sixteen bytes are
/// left: the bits of `x`, then the bits of `y`.
pub open spec fn get_coord(b: Seq<u8>, pos: int, e: Endianness) -> Parsed<Coord> {
    if pos + 16 <= b.len() {
        Ok(
            (
                Coord {
                    x: u64_from(b.subrange(pos, pos + 8), e),
                    y: u64_from(b.subrange(pos + 8, pos + 16), e),
                },
                pos + 16,
            ),
        )
    } else {
        Err(GeoArrowError::TruncatedInput)
    }
}

/// Whether an executable reader returned what the format says: the same value
/// and position, or the same failure.
pub open spec fn read_as<T>(r: Result<(T, usize), GeoArrowError>, s: Parsed<T>) -> bool {
    match (r, s) {
        (Ok((v, p)), Ok((w, q))) => v == w && p == q,
        (Err(e), Err(f)) => e == f,
        _ => false,
    }
}

/// Reads the byte at `pos`.
pub fn read_u8_at(bytes: &[u8], pos: usize) -> (r: Result<(u8, usize), GeoArrowError>)
    requires
        pos <= bytes@.len(),
    ensures
        read_as(r, get_u8(bytes@, pos as int)),
        r matches Ok((_, p)) ==> p <= bytes@.len(),
{
    if pos < bytes.len() {
        Ok((bytes[pos], pos + 1))
    } else {
        Err(GeoArrowError::TruncatedInput)
    }
}

/// Reads the 32-bit number at `pos` in byte order `e`.
pub fn read_u32_at(bytes: &[u8], pos: usize, e: Endianness) -> (r: Result<
    (u32, usize),
    GeoArrowError,
>)
    requires
        pos <= bytes@.len(),
    ensures
        read_as(r, get_u32(bytes@, pos as int, e)),
        r matches Ok((_, p)) ==> p <= bytes@.len(),
{
    if bytes.len() - pos < 4 {
        return Err(GeoArrowError::TruncatedInput);
    }
    let window = slice_subrange(bytes, pos, pos + 4);
    assert(window@.subrange(0, 4) =~= bytes@.subrange(pos as int, pos + 4));
    let x = match e {
        Endianness::BigEndian => read_u32_be(window),
        Endianness::LittleEndian => read_u32_le(window),
    };
    Ok((x, pos + 4))
}

/// Reads the 64-bit number at `pos` in byte order `e`.
fn read_u64_at(bytes: &[u8], pos: usize, e: Endianness) -> (x: u64)
    requires
        pos + 8 <= bytes@.len(),
    ensures
        x == u64_from(bytes@.subrange(pos as int, pos + 8), e),
{
    let n = bytes.len();
    let window = slice_subrange(bytes, pos, pos + 8);
    assert(window@.subrange(0, 8) =~= bytes@.subrange(pos as int, pos + 8));
    match e {
        Endianness::BigEndian => read_u64_be(window),
        Endianness::LittleEndian => read_u64_le(window),
    }
}

/// Reads the coordinate at `pos` in byte order `e`.
pub fn read_coord_at(bytes: &[u8], pos: usize, e: Endianness) -> (r: Result<
    (Coord, usize),
    GeoArrowError,
>)
    requires
        pos <= bytes@.len(),
    ensures
        read_as(r, get_coord(bytes@, pos as int, e)),
        r matches Ok((_, p)) ==> p <= bytes@.len(),
{
    if bytes.len() - pos < 16 {
        return Err(GeoArrowError::TruncatedInput);
    }
    let x = read_u64_at(bytes, pos, e);
    let y = read_u64_at(bytes, pos + 8, e);
    Ok((Coord { x, y }, pos + 16))
}

/// Appends the four bytes of `x` in byte order `e`.
pub fn write_u32(out: &mut Vec<u8>, x: u32, e: Endianness)
    ensures
        final(out)@ == old(out)@ + u32_bytes(x, e),
{
    match e {
        Endianness::BigEndian => write_u32_be(out, x),
        Endianness::LittleEndian => write_u32_le(out, x),
    }
}

/// The bytes of a coordinate in byte order `e`: the bits of `x`, then the bits
/// of `y`.
pub open spec fn coord_bytes(c: Coord, e: Endianness) -> Seq<u8> {
    u64_bytes(c.x, e) + u64_bytes(c.y, e)
}

/// Appends the sixteen bytes of `c` in byte order `e`.
pub fn write_coord(out: &mut Vec<u8>, c: Coord, e: Endianness)
    ensures
        final(out)@ == old(out)@ + coord_bytes(c, e),
{
    match e {
        Endianness::BigEndian => {
            write_u64_be(out, c.x);
            write_u64_be(out, c.y);
        },
        Endianness::LittleEndian => {
            write_u64_le(out, c.x);
            write_u64_le(out, c.y);
        },
    }
    assert(out@ =~= old(out)@ + coord_bytes(c, e));
}

/// The bytes `s` stand at position `pos` of `b`.
pub open spec fn has_at(b: Seq<u8>, pos: int, s: Seq<u8>) -> bool {
    0 <= pos && pos + s.len() <= b.len() && b.subrange(pos, pos + s.len()) == s
}

/// Where two runs of bytes stand one after the other, each stands at its place.
pub proof fn lemma_has_at_split(b: Seq<u8>, pos: int, first: Seq<u8>, rest: Seq<u8>)
    requires
        has_at(b, pos, first + rest),
    ensures
        has_at(b, pos, first),
        has_at(b, pos + first.len(), rest),
{
    let whole = b.subrange(pos, pos + (first + rest).len());
    assert(b.subrange(pos, pos + first.len()) =~= whole.subrange(0, first.len() as int));
    assert((first + rest).subrange(0, first.len() as int) =~= first);
    assert(b.subrange(pos + first.len(), pos + first.len() + rest.len()) =~= whole.subrange(
        first.len() as int,
        (first + rest).len() as int,
    ));
    assert((first + rest).subrange(first.len() as int, (first + rest).len() as int) =~= rest);
}

/// Where the bytes of a 32-bit number stand, the number is read.
pub proof fn lemma_get_u32(b: Seq<u8>, pos: int, x: u32, e: Endianness)
    requires
        has_at(b, pos, u32_bytes(x, e)),
    ensures
        get_u32(b, pos, e) == Ok::<(u32, int), GeoArrowError>((x, pos + 4)),
{
    lemma_u32_round_trip(x, e);
}

/// Where the bytes of a coordinate stand, the coordinate is read.
pub proof fn lemma_get_coord(b: Seq<u8>, pos: int, c: Coord, e: Endianness)
    requires
        has_at(b, pos, coord_bytes(c, e)),
    ensures
        coord_bytes(c, e).len() == 16,
        get_coord(b, pos, e) == Ok::<(Coord, int), GeoArrowError>((c, pos + 16)),
{
    lemma_u64_round_trip(c.x, e);
    lemma_u64_round_trip(c.y, e);
    lemma_has_at_split(b, pos, u64_bytes(c.x, e), u64_bytes(c.y, e));
}

} // verus!
