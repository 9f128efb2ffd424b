//! The Arrow buffers that finished arrays are made of.
//!
//! Each buffer type of `arrow_buffer` used by this crate is held in a struct whose
//! contents are given a name (a specification function without a body). The methods
//! below call into `arrow_buffer`; their contracts are taken from its source and are
//! believed, not proved. Everything else in the crate is proved from them.

use vstd::prelude::*;

verus! {

/// An immutable, cheaply cloned Arrow buffer (`arrow_buffer::ScalarBuffer<u64>`):
/// 64-bit words, the bit patterns of the coordinates of an array.
#[verifier::external_body]
pub struct WordBuffer {
    inner: arrow_buffer::ScalarBuffer<u64>,
}

/// The words that a [`WordBuffer`] holds, in order.
pub uninterp spec fn word_values(b: WordBuffer) -> Seq<u64>;

impl WordBuffer {
    /// `ScalarBuffer::from(Vec)`: takes the vector over without copying; the buffer
    /// holds the vector's items in the same order.
    #[verifier::external_body]
    pub(crate) fn from_vec(v: Vec<u64>) -> (b: Self)
        ensures
            word_values(b) == v@,
    {
        WordBuffer { inner: arrow_buffer::ScalarBuffer::from(v) }
    }

    /// `ScalarBuffer::len`: the number of items.
    #[verifier::external_body]
    pub(crate) fn len(&self) -> (n: usize)
        ensures
            n == word_values(*self).len(),
    {
        self.inner.len()
    }

    /// Indexing the buffer as a slice: the item at `i`. The slice index panics
    /// when `i` is not below the length, which `requires` rules out.
    #[verifier::external_body]
    pub(crate) fn get(&self, i: usize) -> (x: u64)
        requires
            i < word_values(*self).len(),
        ensures
            x == word_values(*self)[i as int],
    {
        self.inner[i]
    }

    /// `ScalarBuffer::slice`: a window of `len` items starting at `offset`, sharing
    /// the memory. It panics when the window leaves the buffer, which
    /// `requires` rules out.
    #[verifier::external_body]
    pub(crate) fn slice(&self, offset: usize, len: usize) -> (b: Self)
        requires
            offset + len <= word_values(*self).len(),
        ensures
            word_values(b) == word_values(*self).subrange(offset as int, offset + len),
    {
        WordBuffer { inner: self.inner.slice(offset, len) }
    }

    /// `Clone::clone` of the buffer: a second handle on the same items.
    #[verifier::external_body]
    pub(crate) fn duplicate(&self) -> (b: Self)
        ensures
            word_values(b) == word_values(*self),
    {
        WordBuffer { inner: self.inner.clone() }
    }
}

/// An immutable, cheaply cloned Arrow buffer (`arrow_buffer::ScalarBuffer<i8>`):
/// the type tags of a union array, one per element.
#[verifier::external_body]
pub struct TypeIdBuffer {
    inner: arrow_buffer::ScalarBuffer<i8>,
}

/// The type ids that a [`TypeIdBuffer`] holds, in order.
pub uninterp spec fn type_id_values(b: TypeIdBuffer) -> Seq<i8>;

impl TypeIdBuffer {
    /// `ScalarBuffer::from(Vec)`: takes the vector over without copying; the buffer
    /// holds the vector's items in the same order.
    #[verifier::external_body]
    pub(crate) fn from_vec(v: Vec<i8>) -> (b: Self)
        ensures
            type_id_values(b) == v@,
    {
        TypeIdBuffer { inner: arrow_buffer::ScalarBuffer::from(v) }
    }

    /// `ScalarBuffer::len`: the number of items.
    #[verifier::external_body]
    pub(crate) fn len(&self) -> (n: usize)
        ensures
            n == type_id_values(*self).len(),
    {
        self.inner.len()
    }

    /// Indexing the buffer as a slice: the item at `i`. The slice index panics
    /// when `i` is not below the length, which `requires` rules out.
    #[verifier::external_body]
    pub(crate) fn get(&self, i: usize) -> (x: i8)
        requires
            i < type_id_values(*self).len(),
        ensures
            x == type_id_values(*self)[i as int],
    {
        self.inner[i]
    }

    /// `ScalarBuffer::slice`: a window of `len` items starting at `offset`, sharing
    /// the memory. It panics when the window leaves the buffer, which
    /// `requires` rules out.
    #[verifier::external_body]
    pub(crate) fn slice(&self, offset: usize, len: usize) -> (b: Self)
        requires
            offset + len <= type_id_values(*self).len(),
        ensures
            type_id_values(b) == type_id_values(*self).subrange(offset as int, offset + len),
    {
        TypeIdBuffer { inner: self.inner.slice(offset, len) }
    }
}

/// An immutable, cheaply cloned Arrow buffer (`arrow_buffer::ScalarBuffer<u8>`):
/// the bytes of the values of a binary array, one value after the other.
#[verifier::external_body]
pub struct ByteBuffer {
    inner: arrow_buffer::ScalarBuffer<u8>,
}

/// The bytes that a [`ByteBuffer`] holds, in order.
pub uninterp spec fn byte_values(b: ByteBuffer) -> Seq<u8>;

impl ByteBuffer {
    /// `ScalarBuffer::from(Vec)`: takes the vector over without copying; the buffer
    /// holds the vector's items in the same order.
    #[verifier::external_body]
    pub(crate) fn from_vec(v: Vec<u8>) -> (b: Self)
        ensures
            byte_values(b) == v@,
    {
        ByteBuffer { inner: arrow_buffer::ScalarBuffer::from(v) }
    }

    /// `Clone::clone` of the buffer: a second handle on the same items.
    #[verifier::external_body]
    pub(crate) fn duplicate(&self) -> (b: Self)
        ensures
            byte_values(b) == byte_values(*self),
    {
        ByteBuffer { inner: self.inner.clone() }
    }

    /// The buffer seen as a slice (`Deref` of `ScalarBuffer`): the same bytes in
    /// the same order, borrowed.
    #[verifier::external_body]
    pub(crate) fn as_slice(&self) -> (bytes: &[u8])
        ensures
            bytes@ == byte_values(*self),
    {
        &self.inner
    }
}

/// An immutable, cheaply cloned Arrow buffer (`arrow_buffer::ScalarBuffer<i32>`):
/// the child positions of a union array, one per element.
#[verifier::external_body]
pub struct IndexBuffer {
    inner: arrow_buffer::ScalarBuffer<i32>,
}

/// The indices that a [`IndexBuffer`] holds, in order.
pub uninterp spec fn index_values(b: IndexBuffer) -> Seq<i32>;

impl IndexBuffer {
    /// `ScalarBuffer::from(Vec)`: takes the vector over without copying; the buffer
    /// holds the vector's items in the same order.
    #[verifier::external_body]
    pub(crate) fn from_vec(v: Vec<i32>) -> (b: Self)
        ensures
            index_values(b) == v@,
    {
        IndexBuffer { inner: arrow_buffer::ScalarBuffer::from(v) }
    }

    /// Indexing the buffer as a slice: the item at `i`. The slice index panics
    /// when `i` is not below the length, which `requires` rules out.
    #[verifier::external_body]
    pub(crate) fn get(&self, i: usize) -> (x: i32)
        requires
            i < index_values(*self).len(),
        ensures
            x == index_values(*self)[i as int],
    {
        self.inner[i]
    }

    /// `ScalarBuffer::slice`: a window of `len` items starting at `offset`, sharing
    /// the memory. It panics when the window leaves the buffer, which
    /// `requires` rules out.
    #[verifier::external_body]
    pub(crate) fn slice(&self, offset: usize, len: usize) -> (b: Self)
        requires
            offset + len <= index_values(*self).len(),
        ensures
            index_values(b) == index_values(*self).subrange(offset as int, offset + len),
    {
        IndexBuffer { inner: self.inner.slice(offset, len) }
    }
}

/// An Arrow offset buffer of 32-bit offsets (`arrow_buffer::OffsetBuffer<i32>`).
#[verifier::external_body]
pub struct SmallOffsets {
    inner: arrow_buffer::OffsetBuffer<i32>,
}

/// The offsets that a [`SmallOffsets`] holds, in order.
pub uninterp spec fn small_offset_values(b: SmallOffsets) -> Seq<i32>;

impl SmallOffsets {
    /// `OffsetBuffer::new` on `ScalarBuffer::from(Vec)`: the buffer holds the
    /// vector's items. `OffsetBuffer::new` panics on an empty buffer, on a
    /// negative first offset and on a descent between neighbours; `requires` rules
    /// these out.
    #[verifier::external_body]
    pub(crate) fn from_vec(v: Vec<i32>) -> (b: Self)
        requires
            v@.len() > 0,
            v@[0] >= 0,
            forall|i: int| 0 <= i < v@.len() - 1 ==> v@[i] <= #[trigger] v@[i + 1],
        ensures
            small_offset_values(b) == v@,
    {
        SmallOffsets { inner: arrow_buffer::OffsetBuffer::new(arrow_buffer::ScalarBuffer::from(v)) }
    }

    /// The length of the buffer seen as a slice: the number of offsets.
    #[verifier::external_body]
    pub(crate) fn len(&self) -> (n: usize)
        ensures
            n == small_offset_values(*self).len(),
    {
        self.inner.len()
    }

    /// Indexing the buffer as a slice: the offset at `i`. The slice index panics
    /// when `i` is not below the length, which `requires` rules out.
    #[verifier::external_body]
    pub(crate) fn get(&self, i: usize) -> (x: i32)
        requires
            i < small_offset_values(*self).len(),
        ensures
            x == small_offset_values(*self)[i as int],
    {
        self.inner[i]
    }

    /// `OffsetBuffer::slice`: the `len + 1` offsets that delimit the `len` runs
    /// starting at run `offset`, sharing the memory. It panics when these
    /// leave the buffer, which `requires` rules out.
    #[verifier::external_body]
    pub(crate) fn slice(&self, offset: usize, len: usize) -> (b: Self)
        requires
            offset + len + 1 <= small_offset_values(*self).len(),
        ensures
            small_offset_values(b) == small_offset_values(*self).subrange(offset as int, offset + len + 1),
    {
        SmallOffsets { inner: self.inner.slice(offset, len) }
    }

    /// `Clone::clone` of the buffer: a second handle on the same offsets.
    #[verifier::external_body]
    pub(crate) fn duplicate(&self) -> (b: Self)
        ensures
            small_offset_values(b) == small_offset_values(*self),
    {
        SmallOffsets { inner: self.inner.clone() }
    }
}

/// An Arrow offset buffer of 64-bit offsets (`arrow_buffer::OffsetBuffer<i64>`).
#[verifier::external_body]
pub struct LargeOffsets {
    inner: arrow_buffer::OffsetBuffer<i64>,
}

/// The offsets that a [`LargeOffsets`] holds, in order.
pub uninterp spec fn large_offset_values(b: LargeOffsets) -> Seq<i64>;

impl LargeOffsets {
    /// `OffsetBuffer::new` on `ScalarBuffer::from(Vec)`: the buffer holds the
    /// vector's items. `OffsetBuffer::new` panics on an empty buffer, on a
    /// negative first offset and on a descent between neighbours; `requires` rules
    /// these out.
    #[verifier::external_body]
    pub(crate) fn from_vec(v: Vec<i64>) -> (b: Self)
        requires
            v@.len() > 0,
            v@[0] >= 0,
            forall|i: int| 0 <= i < v@.len() - 1 ==> v@[i] <= #[trigger] v@[i + 1],
        ensures
            large_offset_values(b) == v@,
    {
        LargeOffsets { inner: arrow_buffer::OffsetBuffer::new(arrow_buffer::ScalarBuffer::from(v)) }
    }

    /// The length of the buffer seen as a slice: the number of offsets.
    #[verifier::external_body]
    pub(crate) fn len(&self) -> (n: usize)
        ensures
            n == large_offset_values(*self).len(),
    {
        self.inner.len()
    }

    /// Indexing the buffer as a slice: the offset at `i`. The slice index panics
    /// when `i` is not below the length, which `requires` rules out.
    #[verifier::external_body]
    pub(crate) fn get(&self, i: usize) -> (x: i64)
        requires
            i < large_offset_values(*self).len(),
        ensures
            x == large_offset_values(*self)[i as int],
    {
        self.inner[i]
    }

    /// `OffsetBuffer::slice`: the `len + 1` offsets that delimit the `len` runs
    /// starting at run `offset`, sharing the memory. It panics when these
    /// leave the buffer, which `requires` rules out.
    #[verifier::external_body]
    pub(crate) fn slice(&self, offset: usize, len: usize) -> (b: Self)
        requires
            offset + len + 1 <= large_offset_values(*self).len(),
        ensures
            large_offset_values(b) == large_offset_values(*self).subrange(offset as int, offset + len + 1),
    {
        LargeOffsets { inner: self.inner.slice(offset, len) }
    }

    /// `Clone::clone` of the buffer: a second handle on the same offsets.
    #[verifier::external_body]
    pub(crate) fn duplicate(&self) -> (b: Self)
        ensures
            large_offset_values(b) == large_offset_values(*self),
    {
        LargeOffsets { inner: self.inner.clone() }
    }
}

/// `arrow_buffer::NullBuffer`, the validity bitmap of a finished array, taken as
/// an opaque type: what it holds is spoken of through [`null_bits`] only.
#[verifier::external_type_specification]
#[verifier::external_body]
pub struct ExNullBuffer(arrow_buffer::NullBuffer);

/// `arrow_buffer::NullBufferBuilder`, a growing validity bitmap, taken as an
/// opaque type: what it holds is spoken of through [`builder_bits`] only.
#[verifier::external_type_specification]
#[verifier::external_body]
pub struct ExNullBufferBuilder(arrow_buffer::NullBufferBuilder);

/// The validity bits of a `NullBuffer`, one per element: `true` where the
/// element is present.
pub uninterp spec fn null_bits(b: arrow_buffer::NullBuffer) -> Seq<bool>;

/// The validity bits appended to a `NullBufferBuilder` so far.
pub uninterp spec fn builder_bits(b: arrow_buffer::NullBufferBuilder) -> Seq<bool>;

/// The number of `false` entries of `bits`.
pub open spec fn count_nulls(bits: Seq<bool>) -> nat
    decreases bits.len(),
{
    if bits.len() == 0 {
        0
    } else {
        count_nulls(bits.drop_last()) + if bits.last() {
            0nat
        } else {
            1nat
        }
    }
}

/// `NullBuffer::len`: the number of validity bits.
#[verifier::external_body]
pub(crate) fn null_buffer_len(b: &arrow_buffer::NullBuffer) -> (n: usize)
    ensures
        n == null_bits(*b).len(),
{
    b.len()
}

/// `NullBuffer::is_valid`: the bit at `i`. It panics when `i` is not below the
/// length, which `requires` rules out.
#[verifier::external_body]
pub(crate) fn null_buffer_is_valid(b: &arrow_buffer::NullBuffer, i: usize) -> (valid: bool)
    requires
        i < null_bits(*b).len(),
    ensures
        valid == null_bits(*b)[i as int],
{
    b.is_valid(i)
}

/// `NullBuffer::null_count`: the number of unset bits, which the buffer keeps
/// beside its bits.
#[verifier::external_body]
pub(crate) fn null_buffer_null_count(b: &arrow_buffer::NullBuffer) -> (n: usize)
    ensures
        n == count_nulls(null_bits(*b)),
{
    b.null_count()
}

/// `NullBuffer::slice`: the `len` bits starting at `offset`, sharing the memory.
/// It panics when the window leaves the buffer, which `requires` rules out.
#[verifier::external_body]
pub(crate) fn null_buffer_slice(b: &arrow_buffer::NullBuffer, offset: usize, len: usize) -> (r:
    arrow_buffer::NullBuffer)
    requires
        offset + len <= null_bits(*b).len(),
    ensures
        null_bits(r) == null_bits(*b).subrange(offset as int, offset + len),
{
    b.slice(offset, len)
}

/// `Clone::clone` of a `NullBuffer`: a second handle on the same bits.
#[verifier::external_body]
pub(crate) fn null_buffer_duplicate(b: &arrow_buffer::NullBuffer) -> (r: arrow_buffer::NullBuffer)
    ensures
        null_bits(r) == null_bits(*b),
{
    b.clone()
}

/// `NullBufferBuilder::new`: an empty builder. `capacity` is only a hint for a
/// later allocation.
#[verifier::external_body]
pub(crate) fn null_builder_new(capacity: usize) -> (b: arrow_buffer::NullBufferBuilder)
    ensures
        builder_bits(b) == Seq::<bool>::empty(),
{
    arrow_buffer::NullBufferBuilder::new(capacity)
}

/// `NullBufferBuilder::len`: the number of bits appended.
#[verifier::external_body]
pub(crate) fn null_builder_len(b: &arrow_buffer::NullBufferBuilder) -> (n: usize)
    ensures
        n == builder_bits(*b).len(),
{
    b.len()
}

/// `NullBufferBuilder::append_non_null`: appends a `true` bit. The builder counts
/// its bits in a `usize`; `requires` keeps the count from overflowing.
#[verifier::external_body]
pub(crate) fn null_builder_append_non_null(b: &mut arrow_buffer::NullBufferBuilder)
    requires
        builder_bits(*old(b)).len() < usize::MAX,
    ensures
        builder_bits(*final(b)) == builder_bits(*old(b)).push(true),
{
    b.append_non_null()
}

/// `NullBufferBuilder::append_null`: appends a `false` bit. The builder counts
/// its bits in a `usize`; `requires` keeps the count from overflowing.
#[verifier::external_body]
pub(crate) fn null_builder_append_null(b: &mut arrow_buffer::NullBufferBuilder)
    requires
        builder_bits(*old(b)).len() < usize::MAX,
    ensures
        builder_bits(*final(b)) == builder_bits(*old(b)).push(false),
{
    b.append_null()
}

/// `NullBufferBuilder::build`: the bits appended, as a `NullBuffer`; `None` is
/// returned only where every bit is `true`.
#[verifier::external_body]
pub(crate) fn null_builder_build(b: arrow_buffer::NullBufferBuilder) -> (r: Option<
    arrow_buffer::NullBuffer,
>)
    ensures
        r matches Some(bits) ==> null_bits(bits) == builder_bits(b),
        r is None ==> count_nulls(builder_bits(b)) == 0,
{
    b.build()
}

} // verus!
