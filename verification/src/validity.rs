//! Validity bitmaps: one bit per element, absent where every element is present.

use vstd::prelude::*;
use crate::buffer::{
    builder_bits, count_nulls, null_bits, null_buffer_duplicate, null_buffer_is_valid,
    null_buffer_len, null_buffer_null_count, null_buffer_slice, null_builder_append_non_null,
    null_builder_append_null, null_builder_build, null_builder_len, null_builder_new,
};

verus! {

/// Whether some bit of `bits` is `false`: some element is absent.
pub open spec fn has_null(bits: Seq<bool>) -> bool {
    exists|i: int| 0 <= i < bits.len() && !bits[i]
}

/// The elements of an array as its readers see them: `Some` of the value where
/// the element is present, `None` where it is absent.
pub open spec fn masked<T>(values: Seq<T>, valid: Seq<bool>) -> Seq<Option<T>> {
    Seq::new(
        values.len(),
        |i: int|
            if valid[i] {
                Some(values[i])
            } else {
                None
            },
    )
}

/// A sequence of bits has a `false` entry exactly when one is counted.
pub proof fn lemma_count_nulls_zero(bits: Seq<bool>)
    ensures
        count_nulls(bits) == 0 <==> forall|i: int| 0 <= i < bits.len() ==> bits[i],
        count_nulls(bits) > 0 <==> has_null(bits),
    decreases bits.len(),
{
    if bits.len() > 0 {
        let front = bits.drop_last();
        lemma_count_nulls_zero(front);
        if count_nulls(bits) == 0 {
            assert forall|i: int| 0 <= i < bits.len() implies bits[i] by {
                if i < front.len() {
                    assert(front[i] == bits[i]);
                }
            }
        } else if bits.last() {
            let i = choose|i: int| 0 <= i < front.len() && !front[i];
            assert(!bits[i]);
        }
    }
}

/// The validity of the elements of an array. Where no bitmap is held every
/// element is present.
pub struct Validity {
    bitmap: Option<arrow_buffer::NullBuffer>,
}

impl Validity {
    /// Whether a bitmap is held.
    pub closed spec fn has_bitmap(&self) -> bool {
        self.bitmap is Some
    }

    /// The bits of the bitmap, where one is held.
    pub closed spec fn bitmap_bits(&self) -> Seq<bool> {
        null_bits(self.bitmap->0)
    }

    /// The bitmap, if any, has one bit for each of `len` elements.
    pub open spec fn covers(&self, len: nat) -> bool {
        self.has_bitmap() ==> self.bitmap_bits().len() == len
    }

    /// Whether element `i` is present.
    pub open spec fn valid_at(&self, i: int) -> bool {
        self.has_bitmap() ==> self.bitmap_bits()[i]
    }

    /// The validity of `len` elements, one bit each.
    pub open spec fn bits(&self, len: nat) -> Seq<bool> {
        Seq::new(len, |i: int| self.valid_at(i))
    }

    /// The validity under which every element is present: no bitmap.
    pub fn all_valid() -> (v: Validity)
        ensures
            !v.has_bitmap(),
    {
        Validity { bitmap: None }
    }

    /// Whether a bitmap is held.
    pub fn is_some(&self) -> (b: bool)
        ensures
            b == self.has_bitmap(),
    {
        self.bitmap.is_some()
    }

    /// The number of bits of the bitmap, where one is held.
    pub fn bitmap_len(&self) -> (n: Option<usize>)
        ensures
            n is Some == self.has_bitmap(),
            n matches Some(k) ==> k == self.bitmap_bits().len(),
    {
        match &self.bitmap {
            Some(b) => Some(null_buffer_len(b)),
            None => None,
        }
    }

    /// Whether element `i` is present.
    pub fn is_valid(&self, i: usize) -> (b: bool)
        requires
            self.has_bitmap() ==> i < self.bitmap_bits().len(),
        ensures
            b == self.valid_at(i as int),
    {
        match &self.bitmap {
            Some(bits) => null_buffer_is_valid(bits, i),
            None => true,
        }
    }

    /// The number of absent elements.
    pub fn null_count(&self) -> (n: usize)
        ensures
            self.has_bitmap() ==> n == count_nulls(self.bitmap_bits()),
            !self.has_bitmap() ==> n == 0,
    {
        match &self.bitmap {
            Some(bits) => null_buffer_null_count(bits),
            None => 0,
        }
    }

    /// The validity of the `length` elements that start at `offset`, sharing the
    /// memory of this bitmap. No bitmap is kept where all of them are present.
    pub fn slice(&self, offset: usize, length: usize) -> (r: Validity)
        requires
            self.has_bitmap() ==> offset + length <= self.bitmap_bits().len(),
        ensures
            r.covers(length as nat),
            r.bits(length as nat) == Seq::new(
                length as nat,
                |i: int| self.valid_at(offset + i),
            ),
            r.has_bitmap() <==> has_null(r.bits(length as nat)),
    {
        match &self.bitmap {
            Some(bits) => {
                let window = null_buffer_slice(bits, offset, length);
                proof {
                    lemma_count_nulls_zero(null_bits(window));
                }
                if null_buffer_null_count(&window) > 0 {
                    let r = Validity { bitmap: Some(window) };
                    assert(r.bits(length as nat) =~= null_bits(window));
                    assert(r.bits(length as nat) =~= Seq::new(
                        length as nat,
                        |i: int| self.valid_at(offset + i),
                    ));
                    r
                } else {
                    let r = Validity { bitmap: None };
                    assert forall|i: int| 0 <= i < length implies #[trigger] r.bits(
                        length as nat,
                    )[i] == self.valid_at(offset + i) by {
                        assert(null_bits(window)[i]);
                    }
                    assert(!has_null(r.bits(length as nat)));
                    assert(r.bits(length as nat) =~= Seq::new(
                        length as nat,
                        |i: int| self.valid_at(offset + i),
                    ));
                    r
                }
            },
            None => {
                let r = Validity { bitmap: None };
                assert(!has_null(r.bits(length as nat)));
                assert(r.bits(length as nat) =~= Seq::new(
                    length as nat,
                    |i: int| self.valid_at(offset + i),
                ));
                r
            },
        }
    }

    /// A second handle on the same validity.
    pub fn duplicate(&self) -> (r: Validity)
        ensures
            r.has_bitmap() == self.has_bitmap(),
            r.has_bitmap() ==> r.bitmap_bits() == self.bitmap_bits(),
            forall|i: int| r.valid_at(i) == self.valid_at(i),
            forall|n: nat| r.covers(n) == self.covers(n),
            forall|n: nat| #[trigger] r.bits(n) == self.bits(n),
    {
        let r = match &self.bitmap {
            Some(bits) => Validity { bitmap: Some(null_buffer_duplicate(bits)) },
            None => Validity { bitmap: None },
        };
        assert forall|n: nat| #[trigger] r.bits(n) == self.bits(n) by {
            assert(r.bits(n) =~= self.bits(n));
        }
        r
    }
}

/// A growing validity, as builders hold it: one bit per element pushed.
pub struct ValidityBuilder {
    bits: arrow_buffer::NullBufferBuilder,
}

impl View for ValidityBuilder {
    type V = Seq<bool>;

    closed spec fn view(&self) -> Seq<bool> {
        builder_bits(self.bits)
    }
}

impl ValidityBuilder {
    /// An empty validity with room for `capacity` elements.
    pub fn with_capacity(capacity: usize) -> (b: ValidityBuilder)
        ensures
            b@ == Seq::<bool>::empty(),
    {
        ValidityBuilder { bits: null_builder_new(capacity) }
    }

    /// The number of bits appended so far.
    pub fn len(&self) -> (n: usize)
        ensures
            n == self@.len(),
    {
        null_builder_len(&self.bits)
    }

    /// Appends one bit: `true` for a present element, `false` for an absent one.
    pub fn append(&mut self, valid: bool)
        requires
            old(self)@.len() < usize::MAX,
        ensures
            final(self)@ == old(self)@.push(valid),
    {
        if valid {
            null_builder_append_non_null(&mut self.bits)
        } else {
            null_builder_append_null(&mut self.bits)
        }
    }

    /// The bits appended, as the validity of that many elements. A bitmap is
    /// kept only where some element is absent.
    pub fn finish(self) -> (v: Validity)
        ensures
            v.covers(self@.len()),
            v.bits(self@.len()) == self@,
            v.has_bitmap() <==> has_null(self@),
    {
        let ghost bits = self@;
        proof {
            lemma_count_nulls_zero(bits);
        }
        match null_builder_build(self.bits) {
            Some(bitmap) => {
                if null_buffer_null_count(&bitmap) > 0 {
                    let v = Validity { bitmap: Some(bitmap) };
                    assert(v.bits(bits.len()) =~= bits);
                    v
                } else {
                    let v = Validity { bitmap: None };
                    assert(v.bits(bits.len()) =~= bits);
                    v
                }
            },
            None => {
                let v = Validity { bitmap: None };
                assert(v.bits(bits.len()) =~= bits);
                v
            },
        }
    }
}

} // verus!
