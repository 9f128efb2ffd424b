//! Three points and the array of them.

use vstd::prelude::*;
use crate::array::point::{PointArray, PointBuilder};
use crate::coord::{Coord, CoordType};

verus! {

/// The bits of the double `0.0`.
pub const ZERO: u64 = 0;

/// The bits of the double `1.0`.
pub const ONE: u64 = 0x3ff0_0000_0000_0000;

/// The bits of the double `2.0`.
pub const TWO: u64 = 0x4000_0000_0000_0000;

/// The bits of the double `3.0`.
pub const THREE: u64 = 0x4008_0000_0000_0000;

/// The point `(0, 1)`.
pub fn p0() -> (c: Coord)
    ensures
        c == (Coord { x: ZERO, y: ONE }),
{
    Coord { x: ZERO, y: ONE }
}

/// The point `(1, 2)`.
pub fn p1() -> (c: Coord)
    ensures
        c == (Coord { x: ONE, y: TWO }),
{
    Coord { x: ONE, y: TWO }
}

/// The point `(2, 3)`.
pub fn p2() -> (c: Coord)
    ensures
        c == (Coord { x: TWO, y: THREE }),
{
    Coord { x: TWO, y: THREE }
}

/// The array of the points `(0, 1)`, `(1, 2)` and `(2, 3)`, all present, with
/// interleaved coordinates.
pub fn point_array() -> (a: PointArray)
    ensures
        a.wf(),
        a.values() == seq![
            Coord { x: ZERO, y: ONE },
            Coord { x: ONE, y: TWO },
            Coord { x: TWO, y: THREE },
        ],
        a.validity_bits() == seq![true, true, true],
        a.spec_coord_type() == CoordType::Interleaved,
{
    let mut builder = PointBuilder::new();
    let a = p0();
    let b = p1();
    let c = p2();
    builder.push_point(Some(&a));
    builder.push_point(Some(&b));
    builder.push_point(Some(&c));
    let array = builder.finish();
    assert(array.values() =~= seq![
        Coord { x: ZERO, y: ONE },
        Coord { x: ONE, y: TWO },
        Coord { x: TWO, y: THREE },
    ]);
    assert(array.validity_bits() =~= seq![true, true, true]);
    array
}

} // verus!
