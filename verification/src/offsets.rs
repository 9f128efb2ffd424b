//! Offset buffers: non-decreasing indices that cut a child collection into runs.

use vstd::prelude::*;
use crate::buffer::{LargeOffsets, SmallOffsets, large_offset_values, small_offset_values};
use crate::error::GeoArrowError;

verus! {

/// The width of the integers that an offset buffer stores.
#[derive(Clone, Copy, Debug, PartialEq, Eq, Structural)]
pub enum OffsetWidth {
    /// 32-bit offsets.
    Small,
    /// 64-bit offsets.
    Large,
}

impl OffsetWidth {
    /// The largest offset that a buffer of this width can hold on this machine:
    /// bounded by the integer type and by the address range.
    pub open spec fn limit(self) -> int {
        match self {
            OffsetWidth::Small => i32::MAX as int,
            OffsetWidth::Large => if (usize::MAX as int) < (i64::MAX as int) {
                usize::MAX as int
            } else {
                i64::MAX as int
            },
        }
    }

    /// [`OffsetWidth::limit`] as a number.
    pub fn max_offset(self) -> (m: usize)
        ensures
            m == self.limit(),
    {
        match self {
            OffsetWidth::Small => 0x7fff_ffff,
            OffsetWidth::Large => {
                let widest: u64 = 0x7fff_ffff_ffff_ffff;
                if (usize::MAX as u64) < widest {
                    usize::MAX
                } else {
                    widest as usize
                }
            },
        }
    }
}

/// Offsets are well formed when there is at least one, the first is not negative,
/// and none is smaller than the one before it.
pub open spec fn offsets_wf(offsets: Seq<int>) -> bool {
    &&& offsets.len() >= 1
    &&& offsets[0] >= 0
    &&& forall|i: int, j: int| 0 <= i <= j < offsets.len() ==> offsets[i] <= offsets[j]
}

/// Offsets cover a child collection of `child_len` items when they are well formed
/// and none points beyond the child.
pub open spec fn covers(offsets: Seq<int>, child_len: nat) -> bool {
    offsets_wf(offsets) && offsets.last() <= child_len
}

/// Offsets cover a child collection of `child_len` items exactly when they start at
/// zero and end at the child's length: every item lies in one run.
pub open spec fn covers_exactly(offsets: Seq<int>, child_len: nat) -> bool {
    offsets_wf(offsets) && offsets[0] == 0 && offsets.last() == child_len
}

/// The number of runs that `offsets` delimit.
pub open spec fn run_count(offsets: Seq<int>) -> nat {
    (offsets.len() - 1) as nat
}

/// Run `i` of `child`: the items from `offsets[i]` up to `offsets[i + 1]`.
pub open spec fn run<T>(child: Seq<T>, offsets: Seq<int>, i: int) -> Seq<T> {
    child.subrange(offsets[i], offsets[i + 1])
}

/// All runs of `child` that `offsets` delimit, in order.
pub open spec fn runs<T>(child: Seq<T>, offsets: Seq<int>) -> Seq<Seq<T>> {
    Seq::new(run_count(offsets), |i: int| run(child, offsets, i))
}

/// The offsets of `length + 1` entries that start at entry `offset`.
pub open spec fn window(offsets: Seq<int>, offset: int, length: int) -> Seq<int> {
    offsets.subrange(offset, offset + length + 1)
}

/// Items appended to the child beyond the last offset change no run.
pub proof fn lemma_runs_child_grows<T>(child: Seq<T>, more: Seq<T>, offsets: Seq<int>)
    requires
        offsets_wf(offsets),
        offsets.last() <= child.len(),
    ensures
        runs(child + more, offsets) =~= runs(child, offsets),
{
    assert forall|i: int| 0 <= i < run_count(offsets) implies run(child + more, offsets, i) == run(
        child,
        offsets,
        i,
    ) by {
        assert(offsets[i + 1] <= offsets.last());
        assert(run(child + more, offsets, i) =~= run(child, offsets, i));
    }
}

/// A new terminal offset appends one run and leaves the others as they were.
pub proof fn lemma_runs_push<T>(child: Seq<T>, offsets: Seq<int>, end: int)
    requires
        offsets.len() >= 1,
    ensures
        runs(child, offsets.push(end)) =~= runs(child, offsets).push(
            child.subrange(offsets.last(), end),
        ),
{
    let pushed = offsets.push(end);
    assert forall|i: int| 0 <= i < run_count(pushed) implies runs(child, pushed)[i] == runs(
        child,
        offsets,
    ).push(child.subrange(offsets.last(), end))[i] by {
        if i < run_count(offsets) {
            assert(pushed[i] == offsets[i]);
            assert(pushed[i + 1] == offsets[i + 1]);
        }
    }
}

/// The runs of a window are the runs of the whole, from `offset` on, `length` of
/// them.
pub proof fn lemma_runs_window<T>(child: Seq<T>, offsets: Seq<int>, offset: int, length: int)
    requires
        0 <= offset,
        0 <= length,
        offset + length + 1 <= offsets.len(),
    ensures
        runs(child, window(offsets, offset, length)) =~= runs(child, offsets).subrange(
            offset,
            offset + length,
        ),
{
}

/// A window of well-formed offsets is well formed.
pub proof fn lemma_window_wf(offsets: Seq<int>, offset: int, length: int)
    requires
        offsets_wf(offsets),
        0 <= offset,
        0 <= length,
        offset + length + 1 <= offsets.len(),
    ensures
        offsets_wf(window(offsets, offset, length)),
        window(offsets, offset, length).last() <= offsets.last(),
{
    let w = window(offsets, offset, length);
    assert(w[0] == offsets[offset]);
    assert(offsets[0] <= offsets[offset]);
}

/// An immutable offset buffer of either width, as finished arrays hold it.
///
/// Its view is the sequence of offsets as mathematical integers.
pub enum OffsetBuffer {
    /// 32-bit offsets.
    Small(SmallOffsets),
    /// 64-bit offsets.
    Large(LargeOffsets),
}

impl View for OffsetBuffer {
    type V = Seq<int>;

    open spec fn view(&self) -> Seq<int> {
        match self {
            OffsetBuffer::Small(b) => small_offset_values(*b).map_values(|x: i32| x as int),
            OffsetBuffer::Large(b) => large_offset_values(*b).map_values(|x: i64| x as int),
        }
    }
}

impl OffsetBuffer {
    /// The buffer's offsets are well formed and none exceeds what the machine
    /// can address.
    pub open spec fn wf(&self) -> bool {
        &&& offsets_wf(self@)
        &&& self@.last() <= usize::MAX
    }

    /// The width of the stored integers.
    pub open spec fn spec_width(&self) -> OffsetWidth {
        match self {
            OffsetBuffer::Small(_) => OffsetWidth::Small,
            OffsetBuffer::Large(_) => OffsetWidth::Large,
        }
    }

    /// The width of the stored integers.
    pub fn width(&self) -> (w: OffsetWidth)
        ensures
            w == self.spec_width(),
    {
        match self {
            OffsetBuffer::Small(_) => OffsetWidth::Small,
            OffsetBuffer::Large(_) => OffsetWidth::Large,
        }
    }

    /// A buffer of 32-bit offsets, or `None` where `offsets` is empty, starts
    /// below zero or descends somewhere.
    pub fn try_new_small(offsets: Vec<i32>) -> (r: Option<OffsetBuffer>)
        ensures
            r is Some <==> offsets_wf(offsets@.map_values(|x: i32| x as int)),
            r matches Some(b) ==> b.wf() && b.spec_width() == OffsetWidth::Small && b@
                == offsets@.map_values(|x: i32| x as int),
    {
        let ghost ints = offsets@.map_values(|x: i32| x as int);
        if offsets.len() == 0 || offsets[0] < 0 {
            return None;
        }
        let mut i: usize = 1;
        while i < offsets.len()
            invariant
                1 <= i <= offsets.len(),
                ints == offsets@.map_values(|x: i32| x as int),
                forall|a: int, b: int| 0 <= a <= b < i ==> ints[a] <= ints[b],
            decreases offsets.len() - i,
        {
            if offsets[i - 1] > offsets[i] {
                assert(ints[i - 1] > ints[i as int]);
                return None;
            }
            assert forall|a: int, b: int| 0 <= a <= b < i + 1 implies ints[a] <= ints[b] by {
                if b == i && a < i {
                    assert(ints[a] <= ints[i - 1]);
                }
            }
            i += 1;
        }
        assert forall|k: int| 0 <= k < offsets@.len() - 1 implies offsets@[k] <= #[trigger] offsets@[k
            + 1] by {
            assert(ints[k] <= ints[k + 1]);
        }
        let b = OffsetBuffer::Small(SmallOffsets::from_vec(offsets));
        assert(b@ =~= ints);
        Some(b)
    }

    /// A buffer of 64-bit offsets, or `None` where `offsets` is empty, starts
    /// below zero, descends somewhere or ends beyond what the machine can address.
    pub fn try_new_large(offsets: Vec<i64>) -> (r: Option<OffsetBuffer>)
        ensures
            r is Some <==> offsets_wf(offsets@.map_values(|x: i64| x as int)) && offsets@.last()
                <= usize::MAX,
            r matches Some(b) ==> b.wf() && b.spec_width() == OffsetWidth::Large && b@
                == offsets@.map_values(|x: i64| x as int),
    {
        let ghost ints = offsets@.map_values(|x: i64| x as int);
        if offsets.len() == 0 || offsets[0] < 0 {
            return None;
        }
        let mut i: usize = 1;
        while i < offsets.len()
            invariant
                1 <= i <= offsets.len(),
                ints == offsets@.map_values(|x: i64| x as int),
                forall|a: int, b: int| 0 <= a <= b < i ==> ints[a] <= ints[b],
            decreases offsets.len() - i,
        {
            if offsets[i - 1] > offsets[i] {
                assert(ints[i - 1] > ints[i as int]);
                return None;
            }
            assert forall|a: int, b: int| 0 <= a <= b < i + 1 implies ints[a] <= ints[b] by {
                if b == i && a < i {
                    assert(ints[a] <= ints[i - 1]);
                }
            }
            i += 1;
        }
        let last = offsets[offsets.len() - 1];
        assert(last == ints.last());
        assert(0 <= ints[0] <= last);
        if (last as u64) > (usize::MAX as u64) {
            return None;
        }
        assert forall|k: int| 0 <= k < offsets@.len() - 1 implies offsets@[k] <= #[trigger] offsets@[k
            + 1] by {
            assert(ints[k] <= ints[k + 1]);
        }
        let b = OffsetBuffer::Large(LargeOffsets::from_vec(offsets));
        assert(b@ =~= ints);
        Some(b)
    }

    /// Whether the buffer is well formed. Buffers made by this crate always are.
    pub fn check(&self) -> (ok: bool)
        ensures
            ok == self.wf(),
    {
        let n = match self {
            OffsetBuffer::Small(b) => b.len(),
            OffsetBuffer::Large(b) => b.len(),
        };
        if n == 0 || self.raw(0) < 0 {
            return false;
        }
        let mut i: usize = 1;
        while i < n
            invariant
                1 <= i <= n,
                n == self@.len(),
                self@[0] >= 0,
                forall|a: int, b: int| 0 <= a <= b < i ==> self@[a] <= self@[b],
            decreases n - i,
        {
            if self.raw(i - 1) > self.raw(i) {
                return false;
            }
            assert forall|a: int, b: int| 0 <= a <= b < i + 1 implies self@[a] <= self@[b] by {
                if b == i && a < i {
                    assert(self@[a] <= self@[i - 1]);
                }
            }
            i += 1;
        }
        (self.raw(n - 1) as u64) <= (usize::MAX as u64)
    }

    /// The offset at position `i` as it is stored.
    fn raw(&self, i: usize) -> (x: i64)
        requires
            i < self@.len(),
        ensures
            x == self@[i as int],
    {
        match self {
            OffsetBuffer::Small(b) => b.get(i) as i64,
            OffsetBuffer::Large(b) => b.get(i),
        }
    }

    /// The number of runs: one less than the number of offsets.
    pub fn len(&self) -> (n: usize)
        requires
            self.wf(),
        ensures
            n == run_count(self@),
    {
        match self {
            OffsetBuffer::Small(b) => b.len() - 1,
            OffsetBuffer::Large(b) => b.len() - 1,
        }
    }

    /// The offset at position `i`.
    pub fn get(&self, i: usize) -> (x: usize)
        requires
            self.wf(),
            i < self@.len(),
        ensures
            x == self@[i as int],
    {
        assert(0 <= self@[0] <= self@[i as int] <= self@.last());
        match self {
            OffsetBuffer::Small(b) => b.get(i) as usize,
            OffsetBuffer::Large(b) => b.get(i) as usize,
        }
    }

    /// Where run `i` starts and ends in the child collection.
    pub fn start_end(&self, i: usize) -> (r: (usize, usize))
        requires
            self.wf(),
            i < run_count(self@),
        ensures
            r.0 == self@[i as int],
            r.1 == self@[i + 1],
            r.0 <= r.1,
    {
        let n = self.len();
        (self.get(i), self.get(i + 1))
    }

    /// The first offset: where the first run starts.
    pub fn first(&self) -> (x: usize)
        requires
            self.wf(),
        ensures
            x == self@[0],
    {
        self.get(0)
    }

    /// The final offset: how much of the child collection the runs cover.
    pub fn last(&self) -> (x: usize)
        requires
            self.wf(),
        ensures
            x == self@.last(),
    {
        let n = match self {
            OffsetBuffer::Small(b) => b.len(),
            OffsetBuffer::Large(b) => b.len(),
        };
        self.get(n - 1)
    }

    /// The offsets of the `length` runs that start at run `offset`, sharing the
    /// memory of this buffer.
    pub fn slice(&self, offset: usize, length: usize) -> (r: OffsetBuffer)
        requires
            self.wf(),
            offset + length <= run_count(self@),
        ensures
            r.wf(),
            r@ == window(self@, offset as int, length as int),
            r.spec_width() == self.spec_width(),
    {
        proof {
            lemma_window_wf(self@, offset as int, length as int);
        }
        let r = match self {
            OffsetBuffer::Small(b) => OffsetBuffer::Small(b.slice(offset, length)),
            OffsetBuffer::Large(b) => OffsetBuffer::Large(b.slice(offset, length)),
        };
        assert(r@ =~= window(self@, offset as int, length as int));
        r
    }

    /// The same offsets stored with integers of `width`, or `None` where the
    /// last offset exceeds what that width can hold.
    pub fn to_width(&self, width: OffsetWidth) -> (r: Option<OffsetBuffer>)
        requires
            self.wf(),
        ensures
            self@.last() <= width.limit() ==> r is Some,
            self@.last() > width.limit() ==> r is None,
            r matches Some(b) ==> b.wf() && b@ == self@ && b.spec_width() == width,
    {
        if self.last() > width.max_offset() {
            return None;
        }
        let n = match self {
            OffsetBuffer::Small(b) => b.len(),
            OffsetBuffer::Large(b) => b.len(),
        };
        match width {
            OffsetWidth::Small => {
                let mut out: Vec<i32> = Vec::with_capacity(n);
                let mut i: usize = 0;
                while i < n
                    invariant
                        self.wf(),
                        n == self@.len(),
                        i <= n,
                        self@.last() <= i32::MAX,
                        out@.len() == i,
                        forall|j: int| 0 <= j < i ==> out@[j] == self@[j],
                    decreases n - i,
                {
                    assert(self@[i as int] <= self@.last());
                    out.push(self.get(i) as i32);
                    i += 1;
                }
                assert(out@.map_values(|x: i32| x as int) =~= self@);
                OffsetBuffer::try_new_small(out)
            },
            OffsetWidth::Large => {
                let mut out: Vec<i64> = Vec::with_capacity(n);
                let mut i: usize = 0;
                while i < n
                    invariant
                        self.wf(),
                        n == self@.len(),
                        i <= n,
                        self@.last() <= i64::MAX,
                        out@.len() == i,
                        forall|j: int| 0 <= j < i ==> out@[j] == self@[j],
                    decreases n - i,
                {
                    assert(self@[i as int] <= self@.last());
                    out.push(self.get(i) as i64);
                    i += 1;
                }
                assert(out@.map_values(|x: i64| x as int) =~= self@);
                assert(out@.last() == self@.last());
                OffsetBuffer::try_new_large(out)
            },
        }
    }

    /// A second handle on the same offsets.
    pub fn duplicate(&self) -> (r: OffsetBuffer)
        ensures
            r@ == self@,
            r.spec_width() == self.spec_width(),
    {
        match self {
            OffsetBuffer::Small(b) => OffsetBuffer::Small(b.duplicate()),
            OffsetBuffer::Large(b) => OffsetBuffer::Large(b.duplicate()),
        }
    }
}

/// A growing offset buffer, as builders hold it. It starts as the single offset
/// `0`; each push appends the end of one more run.
pub enum OffsetsBuilder {
    /// 32-bit offsets.
    Small(Vec<i32>),
    /// 64-bit offsets.
    Large(Vec<i64>),
}

impl View for OffsetsBuilder {
    type V = Seq<int>;

    open spec fn view(&self) -> Seq<int> {
        match self {
            OffsetsBuilder::Small(v) => v@.map_values(|x: i32| x as int),
            OffsetsBuilder::Large(v) => v@.map_values(|x: i64| x as int),
        }
    }
}

impl OffsetsBuilder {
    /// The width of the stored integers.
    pub open spec fn spec_width(&self) -> OffsetWidth {
        match self {
            OffsetsBuilder::Small(_) => OffsetWidth::Small,
            OffsetsBuilder::Large(_) => OffsetWidth::Large,
        }
    }

    /// The offsets are well formed, start at zero and stay within the width's
    /// limit.
    pub open spec fn wf(&self) -> bool {
        &&& offsets_wf(self@)
        &&& self@[0] == 0
        &&& self@.last() <= self.spec_width().limit()
    }

    /// A builder that holds the single offset `0`, with room for `capacity` runs.
    pub fn with_capacity(width: OffsetWidth, capacity: usize) -> (b: OffsetsBuilder)
        ensures
            b.wf(),
            b@ == seq![0int],
            b.spec_width() == width,
    {
        let room = if capacity < usize::MAX {
            capacity + 1
        } else {
            capacity
        };
        let b = match width {
            OffsetWidth::Small => {
                let mut v: Vec<i32> = Vec::with_capacity(room);
                v.push(0);
                OffsetsBuilder::Small(v)
            },
            OffsetWidth::Large => {
                let mut v: Vec<i64> = Vec::with_capacity(room);
                v.push(0);
                OffsetsBuilder::Large(v)
            },
        };
        assert(b@ =~= seq![0int]);
        b
    }

    /// A builder that holds the single offset `0`.
    pub fn new(width: OffsetWidth) -> (b: OffsetsBuilder)
        ensures
            b.wf(),
            b@ == seq![0int],
            b.spec_width() == width,
    {
        OffsetsBuilder::with_capacity(width, 0)
    }

    /// The width of the stored integers.
    pub fn width(&self) -> (w: OffsetWidth)
        ensures
            w == self.spec_width(),
    {
        match self {
            OffsetsBuilder::Small(_) => OffsetWidth::Small,
            OffsetsBuilder::Large(_) => OffsetWidth::Large,
        }
    }

    /// The offset at position `i` as it is stored.
    fn raw(&self, i: usize) -> (x: i64)
        requires
            i < self@.len(),
        ensures
            x == self@[i as int],
    {
        match self {
            OffsetsBuilder::Small(v) => v[i] as i64,
            OffsetsBuilder::Large(v) => v[i],
        }
    }

    /// Whether the builder is in order. Builders made by this crate always are;
    /// one put together from vectors may not be.
    pub fn check(&self) -> (ok: bool)
        ensures
            ok == self.wf(),
    {
        let n = match self {
            OffsetsBuilder::Small(v) => v.len(),
            OffsetsBuilder::Large(v) => v.len(),
        };
        if n == 0 || self.raw(0) != 0 {
            return false;
        }
        let mut i: usize = 1;
        while i < n
            invariant
                1 <= i <= n,
                n == self@.len(),
                self@[0] == 0,
                forall|a: int, b: int| 0 <= a <= b < i ==> self@[a] <= self@[b],
            decreases n - i,
        {
            if self.raw(i - 1) > self.raw(i) {
                return false;
            }
            assert forall|a: int, b: int| 0 <= a <= b < i + 1 implies self@[a] <= self@[b] by {
                if b == i && a < i {
                    assert(self@[a] <= self@[i - 1]);
                }
            }
            i += 1;
        }
        (self.raw(n - 1) as u64) <= (self.width().max_offset() as u64)
    }

    /// Makes room for `additional` more runs.
    pub fn reserve(&mut self, additional: usize)
        ensures
            final(self)@ == old(self)@,
            final(self).spec_width() == old(self).spec_width(),
    {
        match self {
            OffsetsBuilder::Small(v) => v.reserve(additional),
            OffsetsBuilder::Large(v) => v.reserve(additional),
        }
    }

    /// The number of runs pushed so far.
    pub fn len(&self) -> (n: usize)
        requires
            self.wf(),
        ensures
            n == run_count(self@),
            n < usize::MAX,
    {
        match self {
            OffsetsBuilder::Small(v) => v.len() - 1,
            OffsetsBuilder::Large(v) => v.len() - 1,
        }
    }

    /// The final offset: the total length of the runs pushed so far.
    pub fn last(&self) -> (x: usize)
        requires
            self.wf(),
        ensures
            x == self@.last(),
    {
        match self {
            OffsetsBuilder::Small(v) => v[v.len() - 1] as usize,
            OffsetsBuilder::Large(v) => v[v.len() - 1] as usize,
        }
    }

    /// Where run `i` starts and ends in the child collection.
    pub fn start_end(&self, i: usize) -> (r: (usize, usize))
        requires
            self.wf(),
            i < run_count(self@),
        ensures
            r.0 == self@[i as int],
            r.1 == self@[i + 1],
            r.0 <= r.1,
    {
        assert(0 <= self@[i as int] <= self@[i + 1] <= self@.last());
        let n = self.len();
        match self {
            OffsetsBuilder::Small(v) => (v[i] as usize, v[i + 1] as usize),
            OffsetsBuilder::Large(v) => (v[i] as usize, v[i + 1] as usize),
        }
    }

    /// Whether a run of `run_length` items can still be pushed.
    pub fn fits(&self, run_length: usize) -> (ok: bool)
        requires
            self.wf(),
        ensures
            ok <==> self@.last() + run_length <= self.spec_width().limit(),
    {
        let last = self.last();
        let limit = self.width().max_offset();
        run_length <= limit - last
    }

    /// Appends a run of `run_length` items: the new terminal offset is the old one
    /// plus `run_length`. Where that exceeds the width's limit the push fails with
    /// [`GeoArrowError::IndexOverflow`] and the builder is unchanged.
    pub fn try_push_usize(&mut self, run_length: usize) -> (r: Result<(), GeoArrowError>)
        requires
            old(self).wf(),
        ensures
            final(self).spec_width() == old(self).spec_width(),
            old(self)@.last() + run_length <= old(self).spec_width().limit() ==> r is Ok
                && final(self).wf() && final(self)@ == old(self)@.push(
                old(self)@.last() + run_length,
            ),
            old(self)@.last() + run_length > old(self).spec_width().limit() ==> r == Err::<
                (),
                GeoArrowError,
            >(GeoArrowError::IndexOverflow) && *final(self) == *old(self),
    {
        if !self.fits(run_length) {
            return Err(GeoArrowError::IndexOverflow);
        }
        let end = self.last() + run_length;
        let ghost before = self@;
        match self {
            OffsetsBuilder::Small(v) => v.push(end as i32),
            OffsetsBuilder::Large(v) => v.push(end as i64),
        }
        assert(self@ =~= before.push(end as int));
        Ok(())
    }

    /// The offsets pushed, as an immutable buffer.
    pub fn finish(self) -> (b: OffsetBuffer)
        requires
            self.wf(),
        ensures
            b.wf(),
            b@ == self@,
            b@[0] == 0,
            b.spec_width() == self.spec_width(),
    {
        let ghost ints = self@;
        match self {
            OffsetsBuilder::Small(v) => {
                assert forall|k: int| 0 <= k < v@.len() - 1 implies v@[k] <= #[trigger] v@[k
                    + 1] by {
                    assert(ints[k] <= ints[k + 1]);
                }
                assert(v@[0] == ints[0]);
                let b = OffsetBuffer::Small(SmallOffsets::from_vec(v));
                assert(b@ =~= ints);
                b
            },
            OffsetsBuilder::Large(v) => {
                assert forall|k: int| 0 <= k < v@.len() - 1 implies v@[k] <= #[trigger] v@[k
                    + 1] by {
                    assert(ints[k] <= ints[k + 1]);
                }
                assert(v@[0] == ints[0]);
                let b = OffsetBuffer::Large(LargeOffsets::from_vec(v));
                assert(b@ =~= ints);
                b
            },
        }
    }
}

} // verus!
