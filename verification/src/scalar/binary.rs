//! The well-known binary scalar.

use vstd::prelude::*;
use vstd::slice::slice_subrange;
use crate::array::binary::WKBArray;
use crate::error::GeoArrowError;
use crate::geometry::AnyGeometry;
use crate::io::wkb::reader::{decode_wkb, decoded};

verus! {

/// One geometry of an array of well-known binary, read in place.
#[derive(Clone, Copy)]
pub struct WKB<'a> {
    arr: &'a WKBArray,
    geom_index: usize,
}

impl<'a> WKB<'a> {
    /// The index is inside a well-formed array.
    pub closed spec fn wf(&self) -> bool {
        self.arr.wf() && self.geom_index < self.arr.values().len()
    }

    /// The bytes that the scalar stands for.
    pub closed spec fn model(&self) -> Seq<u8> {
        self.arr.values()[self.geom_index as int]
    }

    /// The scalar at `geom_index` of `arr`.
    pub fn new(arr: &'a WKBArray, geom_index: usize) -> (w: WKB<'a>)
        requires
            arr.wf(),
            geom_index < arr.values().len(),
        ensures
            w.wf(),
            w.model() == arr.values()[geom_index as int],
    {
        WKB { arr, geom_index }
    }

    /// The scalar at `geom_index` of `arr`.
    pub fn new_borrowed(arr: &'a WKBArray, geom_index: usize) -> (w: WKB<'a>)
        requires
            arr.wf(),
            geom_index < arr.values().len(),
        ensures
            w.wf(),
            w.model() == arr.values()[geom_index as int],
    {
        WKB::new(arr, geom_index)
    }

    /// The bytes of the geometry.
    pub fn as_ref(&self) -> (bytes: &'a [u8])
        requires
            self.wf(),
        ensures
            bytes@ == self.model(),
    {
        self.arr.bytes_at(self.geom_index)
    }

    /// The geometry that the bytes decode to.
    pub fn to_geo(&self) -> (r: Result<AnyGeometry, GeoArrowError>)
        requires
            self.wf(),
        ensures
            match (r, decoded(self.model())) {
                (Ok(g), Ok(m)) => g@ == m,
                (Err(e), Err(f)) => e == f,
                _ => false,
            },
    {
        decode_wkb(self.as_ref())
    }

    /// Whether two scalars hold the same bytes.
    pub fn equals(&self, other: &WKB<'_>) -> (b: bool)
        requires
            self.wf(),
            other.wf(),
        ensures
            b == (self.model() == other.model()),
    {
        let left = self.as_ref();
        let right = other.as_ref();
        if left.len() != right.len() {
            return false;
        }
        let mut i: usize = 0;
        while i < left.len()
            invariant
                left@ == self.model(),
                right@ == other.model(),
                left@.len() == right@.len(),
                i <= left@.len(),
                forall|j: int| 0 <= j < i ==> left@[j] == right@[j],
            decreases left@.len() - i,
        {
            if left[i] != right[i] {
                assert(left@[i as int] != right@[i as int]);
                return false;
            }
            i += 1;
        }
        assert(left@ =~= right@);
        true
    }
}

} // verus!
