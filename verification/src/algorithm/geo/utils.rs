//! Arrays of doubles, as measures return them.

use vstd::prelude::*;
use crate::validity::Validity;

verus! {

/// An array of doubles, each carried as its 64-bit pattern, with an optional
/// validity bitmap.
pub struct Float64Array {
    values: Vec<u64>,
    validity: Validity,
}

impl Float64Array {
    /// The validity, if held, has one bit per value.
    pub closed spec fn wf(&self) -> bool {
        self.validity.covers(self.values@.len())
    }

    /// The bits of the value stored for each element, absent elements included.
    pub closed spec fn values(&self) -> Seq<u64> {
        self.values@
    }

    /// Which elements are present.
    pub closed spec fn validity_bits(&self) -> Seq<bool> {
        self.validity.bits(self.values@.len())
    }

    /// An array from its parts.
    pub fn new(values: Vec<u64>, validity: Validity) -> (a: Float64Array)
        requires
            validity.covers(values@.len()),
        ensures
            a.wf(),
            a.values() == values@,
            a.validity_bits() == validity.bits(values@.len()),
    {
        Float64Array { values, validity }
    }

    /// The number of elements.
    pub fn len(&self) -> (n: usize)
        ensures
            n == self.values().len(),
    {
        self.values.len()
    }

    /// The bits of the value at `i`.
    pub fn value(&self, i: usize) -> (x: u64)
        requires
            i < self.values().len(),
        ensures
            x == self.values()[i as int],
    {
        self.values[i]
    }

    /// Whether element `i` is present.
    pub fn is_valid(&self, i: usize) -> (b: bool)
        requires
            self.wf(),
            i < self.values().len(),
        ensures
            b == self.validity_bits()[i as int],
    {
        self.validity.is_valid(i)
    }
}

/// An array of `len` zeroes with the given validity.
pub fn zeroes(len: usize, validity: Validity) -> (a: Float64Array)
    requires
        validity.covers(len as nat),
    ensures
        a.wf(),
        a.values() == Seq::new(len as nat, |i: int| 0u64),
        a.validity_bits() == validity.bits(len as nat),
{
    let mut values: Vec<u64> = Vec::with_capacity(len);
    let mut i: usize = 0;
    while i < len
        invariant
            i <= len,
            values@ == Seq::new(i as nat, |j: int| 0u64),
        decreases len - i,
    {
        values.push(0);
        assert(values@ =~= Seq::new((i + 1) as nat, |j: int| 0u64));
        i += 1;
    }
    Float64Array::new(values, validity)
}

} // verus!
