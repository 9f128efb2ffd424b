//! Coordinate buffers: flat storage for two-dimensional coordinates.
//!
//! A coordinate is a pair of IEEE-754 doubles. This crate never computes with
//! coordinates; it stores, moves and compares them. It therefore carries each
//! double as its 64-bit pattern (`f64::to_bits` and `f64::from_bits` convert),
//! and two coordinates are equal when their bit patterns are.

use vstd::prelude::*;
use crate::buffer::{WordBuffer, word_values};
use crate::error::GeoArrowError;

verus! {

/// A coordinate: the bit patterns of its `x` and `y` doubles.
#[derive(Clone, Copy, Debug, PartialEq, Eq, Structural)]
pub struct Coord {
    /// The bits of the first ordinate.
    pub x: u64,
    /// The bits of the second ordinate.
    pub y: u64,
}

/// How a coordinate buffer lays its ordinates out in memory.
#[derive(Clone, Copy, Debug, PartialEq, Eq, Structural)]
pub enum CoordType {
    /// One buffer: `x, y, x, y, ...`.
    Interleaved,
    /// Two buffers: all `x`, and all `y`.
    Separated,
}

impl Default for CoordType {
    fn default() -> (t: CoordType)
        ensures
            t == CoordType::Interleaved,
    {
        CoordType::Interleaved
    }
}

/// The coordinates that interleaved `words` spell: word `2 i` and word `2 i + 1`
/// make coordinate `i`.
pub open spec fn interleaved(words: Seq<u64>) -> Seq<Coord> {
    Seq::new(words.len() / 2, |i: int| Coord { x: words[2 * i], y: words[2 * i + 1] })
}

/// The coordinates that separated ordinates spell: `xs[i]` and `ys[i]` make
/// coordinate `i`.
pub open spec fn separated(xs: Seq<u64>, ys: Seq<u64>) -> Seq<Coord> {
    Seq::new(xs.len(), |i: int| Coord { x: xs[i], y: ys[i] })
}

/// An array of coordinates stored interleaved in a single buffer.
pub struct InterleavedCoordBuffer {
    coords: WordBuffer,
}

impl View for InterleavedCoordBuffer {
    type V = Seq<Coord>;

    closed spec fn view(&self) -> Seq<Coord> {
        interleaved(word_values(self.coords))
    }
}

/// One coordinate of an [`InterleavedCoordBuffer`], read in place.
pub struct InterleavedCoord<'a> {
    coords: &'a InterleavedCoordBuffer,
    i: usize,
}

impl<'a> InterleavedCoord<'a> {
    /// The position is inside a well-formed buffer.
    pub closed spec fn wf(&self) -> bool {
        self.coords.wf() && self.i < self.coords@.len()
    }

    /// The coordinate that this view stands for.
    pub closed spec fn coord(&self) -> Coord {
        self.coords@[self.i as int]
    }

    /// The bits of the first ordinate.
    pub fn x(&self) -> (x: u64)
        requires
            self.wf(),
        ensures
            x == self.coord().x,
    {
        self.coords.get_x(self.i)
    }

    /// The bits of the second ordinate.
    pub fn y(&self) -> (y: u64)
        requires
            self.wf(),
        ensures
            y == self.coord().y,
    {
        self.coords.get_y(self.i)
    }
}

impl InterleavedCoordBuffer {
    /// The buffer holds an even number of words.
    pub closed spec fn wf(&self) -> bool {
        word_values(self.coords).len() % 2 == 0
    }

    /// A buffer over `words`, which come in pairs.
    pub fn new(words: Vec<u64>) -> (b: InterleavedCoordBuffer)
        requires
            words@.len() % 2 == 0,
        ensures
            b.wf(),
            b@ == interleaved(words@),
    {
        InterleavedCoordBuffer { coords: WordBuffer::from_vec(words) }
    }

    /// A buffer over `words`, which must come in pairs:
    /// [`GeoArrowError::ShapeMismatch`] where their number is odd.
    pub fn try_new(words: Vec<u64>) -> (r: Result<InterleavedCoordBuffer, GeoArrowError>)
        ensures
            words@.len() % 2 == 0 ==> r is Ok,
            words@.len() % 2 != 0 ==> r == Err::<InterleavedCoordBuffer, GeoArrowError>(
                GeoArrowError::ShapeMismatch,
            ),
            r matches Ok(b) ==> b.wf() && b@ == interleaved(words@),
    {
        if words.len() % 2 != 0 {
            return Err(GeoArrowError::ShapeMismatch);
        }
        Ok(InterleavedCoordBuffer { coords: WordBuffer::from_vec(words) })
    }

    /// The number of coordinates.
    pub fn len(&self) -> (n: usize)
        requires
            self.wf(),
        ensures
            n == self@.len(),
    {
        self.coords.len() / 2
    }

    /// The coordinate at `i`, read in place.
    pub fn value(&self, i: usize) -> (c: InterleavedCoord<'_>)
        requires
            self.wf(),
            i < self@.len(),
        ensures
            c.wf(),
            c.coord() == self@[i as int],
    {
        InterleavedCoord { coords: self, i }
    }

    /// The bits of the first ordinate of coordinate `i`.
    pub fn get_x(&self, i: usize) -> (x: u64)
        requires
            self.wf(),
            i < self@.len(),
        ensures
            x == self@[i as int].x,
    {
        let n = self.coords.len();
        self.coords.get(2 * i)
    }

    /// The bits of the second ordinate of coordinate `i`.
    pub fn get_y(&self, i: usize) -> (y: u64)
        requires
            self.wf(),
            i < self@.len(),
        ensures
            y == self@[i as int].y,
    {
        let n = self.coords.len();
        self.coords.get(2 * i + 1)
    }

    /// The `length` coordinates that start at `offset`, sharing the memory of this
    /// buffer.
    pub fn slice(&self, offset: usize, length: usize) -> (r: InterleavedCoordBuffer)
        requires
            self.wf(),
            offset + length <= self@.len(),
        ensures
            r.wf(),
            r@ == self@.subrange(offset as int, offset + length),
    {
        self.slice_unchecked(offset, length)
    }

    /// The `length` coordinates that start at `offset`, without a test of the
    /// bounds: that `offset + length` does not exceed the length is for the caller
    /// to show.
    pub fn slice_unchecked(&self, offset: usize, length: usize) -> (r: InterleavedCoordBuffer)
        requires
            self.wf(),
            offset + length <= self@.len(),
        ensures
            r.wf(),
            r@ == self@.subrange(offset as int, offset + length),
    {
        let n = self.coords.len();
        let r = InterleavedCoordBuffer { coords: self.coords.slice(offset * 2, length * 2) };
        assert(r@ =~= self@.subrange(offset as int, offset + length));
        r
    }

    /// A second handle on the same coordinates.
    pub fn duplicate(&self) -> (r: InterleavedCoordBuffer)
        ensures
            r@ == self@,
            r.wf() == self.wf(),
    {
        InterleavedCoordBuffer { coords: self.coords.duplicate() }
    }
}

/// An array of coordinates stored as one buffer per ordinate.
pub struct SeparatedCoordBuffer {
    x: WordBuffer,
    y: WordBuffer,
}

impl View for SeparatedCoordBuffer {
    type V = Seq<Coord>;

    closed spec fn view(&self) -> Seq<Coord> {
        separated(word_values(self.x), word_values(self.y))
    }
}

impl SeparatedCoordBuffer {
    /// Both ordinate buffers have the same length.
    pub closed spec fn wf(&self) -> bool {
        word_values(self.x).len() == word_values(self.y).len()
    }

    /// A buffer over the ordinates `xs` and `ys`, which must pair up:
    /// [`GeoArrowError::ShapeMismatch`] where their lengths differ.
    pub fn try_new(xs: Vec<u64>, ys: Vec<u64>) -> (r: Result<SeparatedCoordBuffer, GeoArrowError>)
        ensures
            xs@.len() == ys@.len() ==> r is Ok,
            xs@.len() != ys@.len() ==> r == Err::<SeparatedCoordBuffer, GeoArrowError>(
                GeoArrowError::ShapeMismatch,
            ),
            r matches Ok(b) ==> b.wf() && b@ == separated(xs@, ys@),
    {
        if xs.len() != ys.len() {
            return Err(GeoArrowError::ShapeMismatch);
        }
        Ok(SeparatedCoordBuffer { x: WordBuffer::from_vec(xs), y: WordBuffer::from_vec(ys) })
    }

    /// The number of coordinates.
    pub fn len(&self) -> (n: usize)
        requires
            self.wf(),
        ensures
            n == self@.len(),
    {
        self.x.len()
    }

    /// The bits of the first ordinate of coordinate `i`.
    pub fn get_x(&self, i: usize) -> (x: u64)
        requires
            self.wf(),
            i < self@.len(),
        ensures
            x == self@[i as int].x,
    {
        self.x.get(i)
    }

    /// The bits of the second ordinate of coordinate `i`.
    pub fn get_y(&self, i: usize) -> (y: u64)
        requires
            self.wf(),
            i < self@.len(),
        ensures
            y == self@[i as int].y,
    {
        self.y.get(i)
    }

    /// The `length` coordinates that start at `offset`, sharing the memory of this
    /// buffer.
    pub fn slice(&self, offset: usize, length: usize) -> (r: SeparatedCoordBuffer)
        requires
            self.wf(),
            offset + length <= self@.len(),
        ensures
            r.wf(),
            r@ == self@.subrange(offset as int, offset + length),
    {
        self.slice_unchecked(offset, length)
    }

    /// The `length` coordinates that start at `offset`, without a test of the
    /// bounds: that `offset + length` does not exceed the length is for the caller
    /// to show.
    pub fn slice_unchecked(&self, offset: usize, length: usize) -> (r: SeparatedCoordBuffer)
        requires
            self.wf(),
            offset + length <= self@.len(),
        ensures
            r.wf(),
            r@ == self@.subrange(offset as int, offset + length),
    {
        let r = SeparatedCoordBuffer {
            x: self.x.slice(offset, length),
            y: self.y.slice(offset, length),
        };
        assert(r@ =~= self@.subrange(offset as int, offset + length));
        r
    }

    /// A second handle on the same coordinates.
    pub fn duplicate(&self) -> (r: SeparatedCoordBuffer)
        ensures
            r@ == self@,
            r.wf() == self.wf(),
    {
        SeparatedCoordBuffer { x: self.x.duplicate(), y: self.y.duplicate() }
    }
}

/// An array of coordinates in either layout.
pub enum CoordBuffer {
    /// One buffer of interleaved ordinates.
    Interleaved(InterleavedCoordBuffer),
    /// One buffer per ordinate.
    Separated(SeparatedCoordBuffer),
}

impl View for CoordBuffer {
    type V = Seq<Coord>;

    open spec fn view(&self) -> Seq<Coord> {
        match self {
            CoordBuffer::Interleaved(c) => c@,
            CoordBuffer::Separated(c) => c@,
        }
    }
}

impl CoordBuffer {
    /// The buffer inside is well formed.
    pub open spec fn wf(&self) -> bool {
        match self {
            CoordBuffer::Interleaved(c) => c.wf(),
            CoordBuffer::Separated(c) => c.wf(),
        }
    }

    /// The layout of the buffer.
    pub open spec fn spec_coord_type(&self) -> CoordType {
        match self {
            CoordBuffer::Interleaved(_) => CoordType::Interleaved,
            CoordBuffer::Separated(_) => CoordType::Separated,
        }
    }

    /// The layout of the buffer.
    pub fn coord_type(&self) -> (t: CoordType)
        ensures
            t == self.spec_coord_type(),
    {
        match self {
            CoordBuffer::Interleaved(_) => CoordType::Interleaved,
            CoordBuffer::Separated(_) => CoordType::Separated,
        }
    }

    /// Whether the buffer is well formed. Buffers made by this crate always are.
    pub fn check(&self) -> (ok: bool)
        ensures
            ok == self.wf(),
    {
        match self {
            CoordBuffer::Interleaved(c) => c.coords.len() % 2 == 0,
            CoordBuffer::Separated(c) => c.x.len() == c.y.len(),
        }
    }

    /// The number of coordinates.
    pub fn len(&self) -> (n: usize)
        requires
            self.wf(),
        ensures
            n == self@.len(),
    {
        match self {
            CoordBuffer::Interleaved(c) => c.len(),
            CoordBuffer::Separated(c) => c.len(),
        }
    }

    /// The bits of the first ordinate of coordinate `i`.
    pub fn get_x(&self, i: usize) -> (x: u64)
        requires
            self.wf(),
            i < self@.len(),
        ensures
            x == self@[i as int].x,
    {
        match self {
            CoordBuffer::Interleaved(c) => c.get_x(i),
            CoordBuffer::Separated(c) => c.get_x(i),
        }
    }

    /// The bits of the second ordinate of coordinate `i`.
    pub fn get_y(&self, i: usize) -> (y: u64)
        requires
            self.wf(),
            i < self@.len(),
        ensures
            y == self@[i as int].y,
    {
        match self {
            CoordBuffer::Interleaved(c) => c.get_y(i),
            CoordBuffer::Separated(c) => c.get_y(i),
        }
    }

    /// Coordinate `i`.
    pub fn value(&self, i: usize) -> (c: Coord)
        requires
            self.wf(),
            i < self@.len(),
        ensures
            c == self@[i as int],
    {
        Coord { x: self.get_x(i), y: self.get_y(i) }
    }

    /// The `length` coordinates that start at `offset`, sharing the memory of this
    /// buffer.
    pub fn slice(&self, offset: usize, length: usize) -> (r: CoordBuffer)
        requires
            self.wf(),
            offset + length <= self@.len(),
        ensures
            r.wf(),
            r@ == self@.subrange(offset as int, offset + length),
            r.spec_coord_type() == self.spec_coord_type(),
    {
        self.slice_unchecked(offset, length)
    }

    /// The `length` coordinates that start at `offset`, without a test of the
    /// bounds: that `offset + length` does not exceed the length is for the caller
    /// to show.
    pub fn slice_unchecked(&self, offset: usize, length: usize) -> (r: CoordBuffer)
        requires
            self.wf(),
            offset + length <= self@.len(),
        ensures
            r.wf(),
            r@ == self@.subrange(offset as int, offset + length),
            r.spec_coord_type() == self.spec_coord_type(),
    {
        match self {
            CoordBuffer::Interleaved(c) => CoordBuffer::Interleaved(
                c.slice_unchecked(offset, length),
            ),
            CoordBuffer::Separated(c) => CoordBuffer::Separated(c.slice_unchecked(offset, length)),
        }
    }

    /// A second handle on the same coordinates.
    pub fn duplicate(&self) -> (r: CoordBuffer)
        ensures
            r@ == self@,
            r.wf() == self.wf(),
            r.spec_coord_type() == self.spec_coord_type(),
    {
        match self {
            CoordBuffer::Interleaved(c) => CoordBuffer::Interleaved(c.duplicate()),
            CoordBuffer::Separated(c) => CoordBuffer::Separated(c.duplicate()),
        }
    }
}

/// A growing coordinate buffer in either layout, as builders hold it.
pub enum CoordBufferBuilder {
    /// Interleaved ordinates.
    Interleaved(Vec<u64>),
    /// The `x` ordinates and the `y` ordinates.
    Separated(Vec<u64>, Vec<u64>),
}

impl View for CoordBufferBuilder {
    type V = Seq<Coord>;

    open spec fn view(&self) -> Seq<Coord> {
        match self {
            CoordBufferBuilder::Interleaved(words) => interleaved(words@),
            CoordBufferBuilder::Separated(xs, ys) => separated(xs@, ys@),
        }
    }
}

impl CoordBufferBuilder {
    /// The ordinates pair up.
    pub open spec fn wf(&self) -> bool {
        match self {
            CoordBufferBuilder::Interleaved(words) => words@.len() % 2 == 0,
            CoordBufferBuilder::Separated(xs, ys) => xs@.len() == ys@.len(),
        }
    }

    /// The layout of the buffer.
    pub open spec fn spec_coord_type(&self) -> CoordType {
        match self {
            CoordBufferBuilder::Interleaved(_) => CoordType::Interleaved,
            CoordBufferBuilder::Separated(_, _) => CoordType::Separated,
        }
    }

    /// An empty buffer of the given layout with room for `capacity` coordinates.
    pub fn with_capacity(coord_type: CoordType, capacity: usize) -> (b: CoordBufferBuilder)
        ensures
            b.wf(),
            b@ == Seq::<Coord>::empty(),
            b.spec_coord_type() == coord_type,
    {
        let b = match coord_type {
            CoordType::Interleaved => {
                let words = if capacity <= usize::MAX / 2 {
                    capacity * 2
                } else {
                    capacity
                };
                CoordBufferBuilder::Interleaved(Vec::with_capacity(words))
            },
            CoordType::Separated => CoordBufferBuilder::Separated(
                Vec::with_capacity(capacity),
                Vec::with_capacity(capacity),
            ),
        };
        assert(b@ =~= Seq::<Coord>::empty());
        b
    }

    /// The layout of the buffer.
    pub fn coord_type(&self) -> (t: CoordType)
        ensures
            t == self.spec_coord_type(),
    {
        match self {
            CoordBufferBuilder::Interleaved(_) => CoordType::Interleaved,
            CoordBufferBuilder::Separated(_, _) => CoordType::Separated,
        }
    }

    /// Whether the ordinates pair up. Buffers made by this crate always do; one
    /// put together from vectors may not.
    pub fn check(&self) -> (ok: bool)
        ensures
            ok == self.wf(),
    {
        match self {
            CoordBufferBuilder::Interleaved(words) => words.len() % 2 == 0,
            CoordBufferBuilder::Separated(xs, ys) => xs.len() == ys.len(),
        }
    }

    /// Makes room for `additional` more coordinates.
    pub fn reserve(&mut self, additional: usize)
        ensures
            final(self)@ == old(self)@,
            final(self).wf() == old(self).wf(),
            final(self).spec_coord_type() == old(self).spec_coord_type(),
    {
        match self {
            CoordBufferBuilder::Interleaved(words) => {
                let n = if additional <= usize::MAX / 2 {
                    additional * 2
                } else {
                    additional
                };
                words.reserve(n)
            },
            CoordBufferBuilder::Separated(xs, ys) => {
                xs.reserve(additional);
                ys.reserve(additional);
            },
        }
    }

    /// The number of coordinates pushed so far.
    pub fn len(&self) -> (n: usize)
        requires
            self.wf(),
        ensures
            n == self@.len(),
    {
        match self {
            CoordBufferBuilder::Interleaved(words) => words.len() / 2,
            CoordBufferBuilder::Separated(xs, _) => xs.len(),
        }
    }

    /// Appends one coordinate.
    pub fn push_coord(&mut self, coord: Coord)
        requires
            old(self).wf(),
        ensures
            final(self).wf(),
            final(self)@ == old(self)@.push(coord),
            final(self).spec_coord_type() == old(self).spec_coord_type(),
    {
        let ghost before = self@;
        match self {
            CoordBufferBuilder::Interleaved(words) => {
                words.push(coord.x);
                words.push(coord.y);
            },
            CoordBufferBuilder::Separated(xs, ys) => {
                xs.push(coord.x);
                ys.push(coord.y);
            },
        }
        assert(self@ =~= before.push(coord));
    }

    /// The coordinates pushed, as an immutable buffer of the same layout.
    pub fn finish(self) -> (b: CoordBuffer)
        requires
            self.wf(),
        ensures
            b.wf(),
            b@ == self@,
            b.spec_coord_type() == self.spec_coord_type(),
    {
        match self {
            CoordBufferBuilder::Interleaved(words) => CoordBuffer::Interleaved(
                InterleavedCoordBuffer { coords: WordBuffer::from_vec(words) },
            ),
            CoordBufferBuilder::Separated(xs, ys) => CoordBuffer::Separated(
                SeparatedCoordBuffer { x: WordBuffer::from_vec(xs), y: WordBuffer::from_vec(ys) },
            ),
        }
    }
}

} // verus!
