//! The point scalar.

use vstd::prelude::*;
use crate::coord::{Coord, CoordBuffer};
use crate::geo_traits::PointTrait;

verus! {

/// One point of an array, read in place.
#[derive(Clone, Copy)]
pub struct Point<'a> {
    coords: &'a CoordBuffer,
    geom_index: usize,
}

impl<'a> Point<'a> {
    /// The point at `geom_index` of `coords`.
    pub fn new(coords: &'a CoordBuffer, geom_index: usize) -> (p: Point<'a>)
        requires
            coords.wf(),
            geom_index < coords@.len(),
        ensures
            p.wf(),
            p.model() == coords@[geom_index as int],
    {
        Point { coords, geom_index }
    }

    /// The coordinate of the point.
    pub fn coord(&self) -> (c: Coord)
        requires
            self.wf(),
        ensures
            c == self.model(),
    {
        self.coords.value(self.geom_index)
    }
}

impl<'a> PointTrait for Point<'a> {
    closed spec fn wf(&self) -> bool {
        self.coords.wf() && self.geom_index < self.coords@.len()
    }

    closed spec fn model(&self) -> Coord {
        self.coords@[self.geom_index as int]
    }

    fn x(&self) -> (x: u64) {
        self.coords.get_x(self.geom_index)
    }

    fn y(&self) -> (y: u64) {
        self.coords.get_y(self.geom_index)
    }
}

} // verus!
