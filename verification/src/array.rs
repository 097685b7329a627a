//! Columns of variable-length binary values, as the rows are exported to.

use crate::buffer::Buffer;
use vstd::prelude::*;
use vstd::slice::{slice_subrange, slice_to_vec};

verus! {

/// The longest value that a view holds in itself.
pub const MAX_INLINE_LEN: usize = 12;

/// What a [`BinaryArray`] holds.
pub struct BinaryArrayView {
    pub offsets: Seq<i64>,
    pub values: Seq<u8>,
}

/// The offsets of a binary column over `values_len` bytes: at least one, the
/// first not negative, none smaller than one before it, the last inside the
/// values.
pub open spec fn signed_offsets_delimit(offsets: Seq<i64>, values_len: nat) -> bool {
    &&& offsets.len() >= 1
    &&& offsets[0] >= 0
    &&& forall|i: int, j: int| 0 <= i <= j < offsets.len() ==> offsets[i] <= offsets[j]
    &&& offsets.last() <= values_len
}

/// A column of binary values with signed 64-bit offsets, none of them null.
pub struct BinaryArray<'a> {
    offsets: Buffer<'a, i64>,
    values: Buffer<'a, u8>,
}

impl<'a> View for BinaryArray<'a> {
    type V = BinaryArrayView;

    closed spec fn view(&self) -> BinaryArrayView {
        BinaryArrayView { offsets: self.offsets@, values: self.values@ }
    }
}

impl<'a> BinaryArray<'a> {
    /// The offsets delimit values inside the value buffer.
    pub open spec fn wf(&self) -> bool {
        signed_offsets_delimit(self@.offsets, self@.values.len())
    }

    /// The number of values in the column.
    pub open spec fn spec_len(&self) -> nat {
        (self@.offsets.len() - 1) as nat
    }

    /// The bytes of value `i`.
    pub open spec fn spec_value(&self, i: int) -> Seq<u8> {
        self@.values.subrange(self@.offsets[i] as int, self@.offsets[i + 1] as int)
    }

    /// A column over the two buffers, which it takes as they are.
    pub fn new(offsets: Buffer<'a, i64>, values: Buffer<'a, u8>) -> (array: Self)
        requires
            signed_offsets_delimit(offsets@, values@.len()),
        ensures
            array.wf(),
            array@.offsets == offsets@,
            array@.values == values@,
    {
        BinaryArray { offsets, values }
    }

    /// The number of values in the column.
    pub fn len(&self) -> (n: usize)
        requires
            self.wf(),
        ensures
            n == self.spec_len(),
    {
        self.offsets.len() - 1
    }

    /// The buffer of the value bytes, shared with the column.
    pub fn values_buffer(&self) -> (values: Buffer<'a, u8>)
        ensures
            values@ == self@.values,
    {
        self.values.share()
    }

    /// The offsets: where each value starts, and where the last one ends.
    pub fn offsets(&self) -> (offsets: &[i64])
        ensures
            offsets@ == self@.offsets,
    {
        self.offsets.as_slice()
    }

    /// The bytes of all values, one after the other.
    pub fn values(&self) -> (values: &[u8])
        ensures
            values@ == self@.values,
    {
        self.values.as_slice()
    }

    /// The bytes of value `i`.
    pub fn value(&self, i: usize) -> (bytes: &[u8])
        requires
            self.wf(),
            i < self.spec_len(),
        ensures
            bytes@ == self.spec_value(i as int),
    {
        let n: usize = self.offsets.len();
        let values_len: usize = self.values.len();
        let ghost last = n - 1;
        assert(0 <= self@.offsets[0] <= self@.offsets[i as int] <= self@.offsets[i + 1]
            <= self@.offsets[last]);
        let offsets = self.offsets.as_slice();
        let start: usize = offsets[i] as usize;
        let end: usize = offsets[i + 1] as usize;
        slice_subrange(self.values.as_slice(), start, end)
    }
}

/// One value of a [`BinaryViewArray`].
pub enum BinaryView {
    /// A short value, held in the view itself.
    Inline { bytes: Vec<u8> },
    /// A longer value: where it lies in the column's buffer.
    Indirect { offset: usize, length: usize },
}

impl BinaryView {
    /// The view is of the kind that its length asks for, and what it points
    /// to lies inside a buffer of `buffer_len` bytes.
    pub open spec fn wf(&self, buffer_len: nat) -> bool {
        match *self {
            BinaryView::Inline { bytes } => bytes@.len() <= MAX_INLINE_LEN,
            BinaryView::Indirect { offset, length } => {
                &&& length > MAX_INLINE_LEN
                &&& offset + length <= buffer_len
            },
        }
    }

    /// The bytes that the view stands for, given the column's buffer.
    pub open spec fn bytes_in(&self, buffer: Seq<u8>) -> Seq<u8> {
        match *self {
            BinaryView::Inline { bytes } => bytes@,
            BinaryView::Indirect { offset, length } => buffer.subrange(
                offset as int,
                offset + length,
            ),
        }
    }
}

/// A column of binary values in which each value has a view: short values are
/// held in their views, longer ones lie in a shared buffer.
pub struct BinaryViewArray<'a> {
    pub views: Vec<BinaryView>,
    pub buffer: Buffer<'a, u8>,
}

impl<'a> BinaryViewArray<'a> {
    /// Every view is well formed over the buffer.
    pub open spec fn wf(&self) -> bool {
        forall|i: int|
            0 <= i < self.views@.len() ==> (#[trigger] self.views@[i]).wf(self.buffer@.len())
    }

    /// The bytes of value `i`.
    pub open spec fn spec_value(&self, i: int) -> Seq<u8> {
        self.views@[i].bytes_in(self.buffer@)
    }

    /// The number of values in the column.
    pub fn len(&self) -> (n: usize)
        ensures
            n == self.views@.len(),
    {
        self.views.len()
    }

    /// The bytes of value `i`.
    pub fn value(&self, i: usize) -> (bytes: &[u8])
        requires
            self.wf(),
            i < self.views@.len(),
        ensures
            bytes@ == self.spec_value(i as int),
    {
        assert(self.views@[i as int].wf(self.buffer@.len()));
        let buffer_len: usize = self.buffer.len();
        match &self.views[i] {
            BinaryView::Inline { bytes } => bytes.as_slice(),
            BinaryView::Indirect { offset, length } => slice_subrange(
                self.buffer.as_slice(),
                *offset,
                *offset + *length,
            ),
        }
    }
}

/// Gives each value of `array` a view. The value bytes stay in the buffer
/// that `array` has, which the result shares; only the values short enough to
/// be held in a view are copied into theirs.
pub fn binary_to_binview<'a>(array: &BinaryArray<'a>) -> (views: BinaryViewArray<'a>)
    requires
        array.wf(),
    ensures
        views.wf(),
        views.buffer@ == array@.values,
        views.views@.len() == array.spec_len(),
        forall|i: int|
            0 <= i < array.spec_len() ==> views.spec_value(i) == array.spec_value(i),
        forall|i: int|
            0 <= i < array.spec_len() ==> (views.views@[i] is Inline <==> array.spec_value(
                i,
            ).len() <= MAX_INLINE_LEN),
{
    let n: usize = array.len();
    let buffer = array.values_buffer();
    let mut out: Vec<BinaryView> = Vec::new();
    let mut i: usize = 0;
    while i < n
        invariant
            array.wf(),
            n == array.spec_len(),
            buffer@ == array@.values,
            i <= n,
            out@.len() == i,
            forall|k: int| 0 <= k < i ==> (#[trigger] out@[k]).wf(buffer@.len()),
            forall|k: int|
                0 <= k < i ==> (#[trigger] out@[k]).bytes_in(buffer@) == array.spec_value(k),
            forall|k: int|
                0 <= k < i ==> ((#[trigger] out@[k]) is Inline <==> array.spec_value(k).len()
                    <= MAX_INLINE_LEN),
        decreases n - i,
    {
        let bytes = array.value(i);
        let length: usize = bytes.len();
        let ghost last = n as int;
        assert(0 <= array@.offsets[0] <= array@.offsets[i as int] <= array@.offsets[i + 1]
            <= array@.offsets[last]);
        let buffer_len: usize = buffer.len();
        let offset: usize = array.offsets()[i] as usize;
        let view = if length <= MAX_INLINE_LEN {
            BinaryView::Inline { bytes: slice_to_vec(bytes) }
        } else {
            BinaryView::Indirect { offset, length }
        };
        out.push(view);
        i += 1;
    }
    BinaryViewArray { views: out, buffer }
}

} // verus!
