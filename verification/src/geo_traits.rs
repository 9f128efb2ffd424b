//! What a value must offer to be read as a geometry of some shape.
//!
//! Builders take their input through these traits, so anything that can say how
//! many parts it has and hand out part `i` can feed them: the scalars of this
//! crate's arrays, plain nested vectors of coordinates, or a caller's own types.
//! Each trait names the mathematical value that an implementor stands for
//! (`model`) and ties every accessor to it.

use vstd::prelude::*;
use crate::coord::Coord;

verus! {

/// A value that can be read as a point.
pub trait PointTrait {
    /// The value is in a state in which it can be read.
    spec fn wf(&self) -> bool;

    /// The point that the value stands for.
    spec fn model(&self) -> Coord;

    /// The bits of the first ordinate.
    fn x(&self) -> (x: u64)
        requires
            self.wf(),
        ensures
            x == self.model().x,
    ;

    /// The bits of the second ordinate.
    fn y(&self) -> (y: u64)
        requires
            self.wf(),
        ensures
            y == self.model().y,
    ;
}

/// A value that can be read as a line string: a sequence of coordinates.
pub trait LineStringTrait {
    /// The value is in a state in which it can be read.
    spec fn wf(&self) -> bool;

    /// The coordinates that the value stands for.
    spec fn model(&self) -> Seq<Coord>;

    /// The number of coordinates.
    fn num_coords(&self) -> (n: usize)
        requires
            self.wf(),
        ensures
            n == self.model().len(),
    ;

    /// Coordinate `i`, or `None` where `i` is out of bounds.
    fn coord(&self, i: usize) -> (c: Option<Coord>)
        requires
            self.wf(),
        ensures
            i < self.model().len() ==> c == Some(self.model()[i as int]),
            i >= self.model().len() ==> c is None,
    ;
}

/// A value that can be read as a polygon: a sequence of rings, the exterior
/// first, then the interiors.
pub trait PolygonTrait {
    /// The type of a ring.
    type Ring: LineStringTrait;

    /// The value is in a state in which it can be read.
    spec fn wf(&self) -> bool;

    /// The rings that the value stands for.
    spec fn model(&self) -> Seq<Seq<Coord>>;

    /// The exterior ring, or `None` for a polygon without rings.
    fn exterior(&self) -> (r: Option<Self::Ring>)
        requires
            self.wf(),
        ensures
            self.model().len() == 0 ==> r is None,
            self.model().len() > 0 ==> r is Some && r->0.wf() && r->0.model() == self.model()[0],
    ;

    /// The number of interior rings. All rings together can be counted in a
    /// `usize`.
    fn num_interiors(&self) -> (n: usize)
        requires
            self.wf(),
        ensures
            self.model().len() == 0 ==> n == 0,
            self.model().len() > 0 ==> n == self.model().len() - 1,
            self.model().len() <= usize::MAX,
    ;

    /// Interior ring `i`, or `None` where `i` is out of bounds.
    fn interior(&self, i: usize) -> (r: Option<Self::Ring>)
        requires
            self.wf(),
        ensures
            i + 1 < self.model().len() ==> r is Some && r->0.wf() && r->0.model()
                == self.model()[i + 1],
            i + 1 >= self.model().len() ==> r is None,
    ;
}

/// A value that can be read as a multi point: a sequence of points.
pub trait MultiPointTrait {
    /// The type of a point.
    type Item: PointTrait;

    /// The value is in a state in which it can be read.
    spec fn wf(&self) -> bool;

    /// The points that the value stands for.
    spec fn model(&self) -> Seq<Coord>;

    /// The number of points.
    fn num_points(&self) -> (n: usize)
        requires
            self.wf(),
        ensures
            n == self.model().len(),
    ;

    /// Point `i`, or `None` where `i` is out of bounds.
    fn point(&self, i: usize) -> (p: Option<Self::Item>)
        requires
            self.wf(),
        ensures
            i < self.model().len() ==> p is Some && p->0.wf() && p->0.model()
                == self.model()[i as int],
            i >= self.model().len() ==> p is None,
    ;
}

/// A value that can be read as a multi line string: a sequence of line strings.
pub trait MultiLineStringTrait {
    /// The type of a line string.
    type Item: LineStringTrait;

    /// The value is in a state in which it can be read.
    spec fn wf(&self) -> bool;

    /// The line strings that the value stands for.
    spec fn model(&self) -> Seq<Seq<Coord>>;

    /// The number of line strings.
    fn num_lines(&self) -> (n: usize)
        requires
            self.wf(),
        ensures
            n == self.model().len(),
    ;

    /// Line string `i`, or `None` where `i` is out of bounds.
    fn line(&self, i: usize) -> (l: Option<Self::Item>)
        requires
            self.wf(),
        ensures
            i < self.model().len() ==> l is Some && l->0.wf() && l->0.model()
                == self.model()[i as int],
            i >= self.model().len() ==> l is None,
    ;
}

/// A value that can be read as a multi polygon: a sequence of polygons.
pub trait MultiPolygonTrait {
    /// The type of a polygon.
    type Item: PolygonTrait;

    /// The value is in a state in which it can be read.
    spec fn wf(&self) -> bool;

    /// The polygons that the value stands for, each as its rings.
    spec fn model(&self) -> Seq<Seq<Seq<Coord>>>;

    /// The number of polygons.
    fn num_polygons(&self) -> (n: usize)
        requires
            self.wf(),
        ensures
            n == self.model().len(),
    ;

    /// Polygon `i`, or `None` where `i` is out of bounds.
    fn polygon(&self, i: usize) -> (p: Option<Self::Item>)
        requires
            self.wf(),
        ensures
            i < self.model().len() ==> p is Some && p->0.wf() && p->0.model()
                == self.model()[i as int],
            i >= self.model().len() ==> p is None,
    ;
}

/// Ring `i` of a polygon, counting the exterior as ring `0`.
pub fn polygon_ring<P: PolygonTrait>(polygon: &P, i: usize) -> (r: P::Ring)
    requires
        polygon.wf(),
        i < polygon.model().len(),
    ensures
        r.wf(),
        r.model() == polygon.model()[i as int],
{
    if i == 0 {
        polygon.exterior().unwrap()
    } else {
        polygon.interior(i - 1).unwrap()
    }
}

/// The number of rings of a polygon, the exterior included.
pub fn polygon_num_rings<P: PolygonTrait>(polygon: &P) -> (n: usize)
    requires
        polygon.wf(),
    ensures
        n == polygon.model().len(),
{
    let interiors = polygon.num_interiors();
    match polygon.exterior() {
        None => 0,
        Some(_) => interiors + 1,
    }
}

/// The coordinate sequences behind a sequence of vectors.
pub open spec fn seq2(v: Seq<Vec<Coord>>) -> Seq<Seq<Coord>> {
    v.map_values(|part: Vec<Coord>| part@)
}

/// The sequences of coordinate sequences behind a sequence of nested vectors.
pub open spec fn seq3(v: Seq<Vec<Vec<Coord>>>) -> Seq<Seq<Seq<Coord>>> {
    v.map_values(|part: Vec<Vec<Coord>>| seq2(part@))
}

impl PointTrait for Coord {
    open spec fn wf(&self) -> bool {
        true
    }

    open spec fn model(&self) -> Coord {
        *self
    }

    fn x(&self) -> (x: u64) {
        self.x
    }

    fn y(&self) -> (y: u64) {
        self.y
    }
}

impl<'a> LineStringTrait for &'a Vec<Coord> {
    open spec fn wf(&self) -> bool {
        true
    }

    open spec fn model(&self) -> Seq<Coord> {
        self@
    }

    fn num_coords(&self) -> (n: usize) {
        self.len()
    }

    fn coord(&self, i: usize) -> (c: Option<Coord>) {
        if i < self.len() {
            Some(self[i])
        } else {
            None
        }
    }
}

impl<'a> MultiPointTrait for &'a Vec<Coord> {
    type Item = Coord;

    open spec fn wf(&self) -> bool {
        true
    }

    open spec fn model(&self) -> Seq<Coord> {
        self@
    }

    fn num_points(&self) -> (n: usize) {
        self.len()
    }

    fn point(&self, i: usize) -> (p: Option<Coord>) {
        if i < self.len() {
            Some(self[i])
        } else {
            None
        }
    }
}

impl<'a> PolygonTrait for &'a Vec<Vec<Coord>> {
    type Ring = &'a Vec<Coord>;

    open spec fn wf(&self) -> bool {
        true
    }

    open spec fn model(&self) -> Seq<Seq<Coord>> {
        seq2(self@)
    }

    fn exterior(&self) -> (r: Option<&'a Vec<Coord>>) {
        if self.len() > 0 {
            Some(&self[0])
        } else {
            None
        }
    }

    fn num_interiors(&self) -> (n: usize) {
        if self.len() > 0 {
            self.len() - 1
        } else {
            0
        }
    }

    fn interior(&self, i: usize) -> (r: Option<&'a Vec<Coord>>) {
        if i < self.len() && i + 1 < self.len() {
            Some(&self[i + 1])
        } else {
            None
        }
    }
}

impl<'a> MultiLineStringTrait for &'a Vec<Vec<Coord>> {
    type Item = &'a Vec<Coord>;

    open spec fn wf(&self) -> bool {
        true
    }

    open spec fn model(&self) -> Seq<Seq<Coord>> {
        seq2(self@)
    }

    fn num_lines(&self) -> (n: usize) {
        self.len()
    }

    fn line(&self, i: usize) -> (l: Option<&'a Vec<Coord>>) {
        if i < self.len() {
            Some(&self[i])
        } else {
            None
        }
    }
}

impl<'a> MultiPolygonTrait for &'a Vec<Vec<Vec<Coord>>> {
    type Item = &'a Vec<Vec<Coord>>;

    open spec fn wf(&self) -> bool {
        true
    }

    open spec fn model(&self) -> Seq<Seq<Seq<Coord>>> {
        seq3(self@)
    }

    fn num_polygons(&self) -> (n: usize) {
        self.len()
    }

    fn polygon(&self, i: usize) -> (p: Option<&'a Vec<Vec<Coord>>>) {
        if i < self.len() {
            Some(&self[i])
        } else {
            None
        }
    }
}

} // verus!
