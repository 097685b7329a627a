//! The row buffer: many variable-length encoded rows packed into one byte
//! buffer, delimited by a sequence of offsets.

use crate::array::{
    binary_to_binview, signed_offsets_delimit, BinaryArray, BinaryArrayView, BinaryViewArray,
    MAX_INLINE_LEN,
};
use crate::buffer::Buffer;
use crate::cast::{cast_offsets_slice, cast_offsets_vec, signed_offsets};
use vstd::prelude::*;
use vstd::slice::{slice_subrange, slice_to_vec};

verus! {

/// How a single column is encoded into the rows.
#[derive(Clone, Copy, Debug)]
pub struct EncodingField {
    /// Whether to sort in descending order.
    pub descending: bool,
    /// Whether nulls sort after every other value.
    pub nulls_last: bool,
    /// Ignore all order-related flags and do not encode order-preserving.
    /// The bytes are then a plain copy of the value.
    pub no_order: bool,
}

impl Default for EncodingField {
    fn default() -> (field: Self)
        ensures
            !field.descending,
            !field.nulls_last,
            !field.no_order,
    {
        EncodingField { descending: false, nulls_last: false, no_order: false }
    }
}

impl EncodingField {
    /// A field whose encoding preserves the order given by the two flags.
    pub fn new_sorted(descending: bool, nulls_last: bool) -> (field: Self)
        ensures
            field.descending == descending,
            field.nulls_last == nulls_last,
            !field.no_order,
    {
        EncodingField { descending, nulls_last, no_order: false }
    }

    /// A field whose encoding carries no order: only equality of rows is kept.
    pub fn new_unsorted() -> (field: Self)
        ensures
            field.no_order,
            !field.descending,
            !field.nulls_last,
    {
        EncodingField { descending: false, nulls_last: false, no_order: true }
    }
}

/// The largest offset that a signed 64-bit integer can hold.
pub const MAX_SIGNED_OFFSET: u64 = 0x7fff_ffff_ffff_ffff;

/// No offset is smaller than one before it.
pub open spec fn offsets_sorted(offsets: Seq<u64>) -> bool {
    forall|i: int, j: int| 0 <= i <= j < offsets.len() ==> offsets[i] <= offsets[j]
}

/// `offsets` delimits rows inside a buffer of `values_len` bytes: there is at
/// least one offset, they never decrease, and the last one lies in the buffer.
pub open spec fn offsets_delimit(offsets: Seq<u64>, values_len: nat) -> bool {
    &&& offsets.len() >= 1
    &&& offsets_sorted(offsets)
    &&& offsets.last() <= values_len
}

/// Every offset can be read as a signed 64-bit integer without change: the
/// last, and with it each one before it, is below 2^63.
pub open spec fn offsets_fit_signed(offsets: Seq<u64>) -> bool {
    offsets.len() >= 1 && offsets.last() <= MAX_SIGNED_OFFSET
}

/// The bytes of row `i`: what lies between offset `i` and offset `i + 1`.
pub open spec fn row_bytes(values: Seq<u8>, offsets: Seq<u64>, i: int) -> Seq<u8> {
    values.subrange(offsets[i] as int, offsets[i + 1] as int)
}

/// All rows that `offsets` delimits in `values`, in index order.
pub open spec fn rows_of(values: Seq<u8>, offsets: Seq<u64>) -> Seq<Seq<u8>> {
    Seq::new((offsets.len() - 1) as nat, |i: int| row_bytes(values, offsets, i))
}

/// What an export of the rows holds: the value bytes as they are, and each
/// offset read as a signed integer.
pub open spec fn exported(values: Seq<u8>, offsets: Seq<u64>) -> BinaryArrayView {
    BinaryArrayView { offsets: signed_offsets(offsets), values }
}

/// Offsets that never decrease and whose last fits a signed integer all keep
/// their value when read as signed integers, and then delimit the same rows.
pub proof fn lemma_signed_offsets_keep_value(offsets: Seq<u64>, values_len: nat)
    requires
        offsets_delimit(offsets, values_len),
        offsets_fit_signed(offsets),
    ensures
        signed_offsets(offsets).len() == offsets.len(),
        forall|i: int| 0 <= i < offsets.len() ==> signed_offsets(offsets)[i] == offsets[i],
        signed_offsets_delimit(signed_offsets(offsets), values_len),
{
    let last = offsets.len() - 1;
    assert forall|i: int| 0 <= i < offsets.len() implies signed_offsets(offsets)[i]
        == offsets[i] by {
        assert(offsets[i] <= offsets[last]);
    }
    assert forall|i: int, j: int| 0 <= i <= j < offsets.len() implies signed_offsets(offsets)[i]
        <= signed_offsets(offsets)[j] by {
        assert(offsets[i] <= offsets[j]);
    }
}

/// The values of an exported column are the rows, one for one.
pub proof fn lemma_exported_values_are_rows(rows: RowsEncoded, array: BinaryArray)
    requires
        rows.wf(),
        offsets_fit_signed(rows@.offsets),
        array@ == exported(rows@.values, rows@.offsets),
    ensures
        array.wf(),
        array.spec_len() == rows.num_rows(),
        forall|i: int| 0 <= i < rows.num_rows() ==> array.spec_value(i) == rows.rows()[i],
{
    lemma_signed_offsets_keep_value(rows@.offsets, rows@.values.len());
}

/// Two exports of the same buffers hold the same value bytes and the same
/// offsets, and each offset has the value that it had before the export.
pub proof fn lemma_exports_agree(rows: RowsEncoded, borrowed: BinaryArray, moved: BinaryArray)
    requires
        rows.wf(),
        offsets_fit_signed(rows@.offsets),
        borrowed@ == exported(rows@.values, rows@.offsets),
        moved@ == exported(rows@.values, rows@.offsets),
    ensures
        borrowed@.values == moved@.values,
        borrowed@.offsets == moved@.offsets,
        moved@.values == rows@.values,
        moved@.offsets.len() == rows@.offsets.len(),
        forall|i: int| 0 <= i < rows@.offsets.len() ==> moved@.offsets[i] == rows@.offsets[i],
{
    lemma_signed_offsets_keep_value(rows@.offsets, rows@.values.len());
}

/// Two cursors that start on the same buffer hand out the same rows: those
/// of the buffer, in index order.
pub proof fn lemma_iter_restartable(
    rows: RowsEncoded,
    first: RowsEncodedIter,
    second: RowsEncodedIter,
)
    requires
        first.values() == rows@.values,
        first.offsets() == rows@.offsets,
        second.values() == rows@.values,
        second.offsets() == rows@.offsets,
    ensures
        first.remaining() == second.remaining(),
        first.remaining() == rows.rows(),
        first.remaining().len() == rows.num_rows(),
        forall|i: int|
            0 <= i < rows.num_rows() ==> first.remaining()[i] == rows@.values.subrange(
                rows@.offsets[i] as int,
                rows@.offsets[i + 1] as int,
            ),
{
}

/// Tells whether the offsets can be handed on as signed 64-bit integers.
/// An export of the rows is only allowed where this holds.
pub fn checks(offsets: &[u64]) -> (ok: bool)
    ensures
        ok == offsets_fit_signed(offsets@),
{
    let n: usize = offsets.len();
    n > 0 && offsets[n - 1] <= MAX_SIGNED_OFFSET
}

/// Turns the two buffers into a binary column. The offsets are read as
/// signed integers, which the caller has made sure they fit.
pub fn rows_to_array(buf: Vec<u8>, offsets: Vec<u64>) -> (array: BinaryArray<'static>)
    requires
        offsets_delimit(offsets@, buf@.len()),
        offsets_fit_signed(offsets@),
    ensures
        array.wf(),
        array@ == exported(buf@, offsets@),
{
    proof {
        lemma_signed_offsets_keep_value(offsets@, buf@.len());
    }
    let offsets = cast_offsets_vec(offsets);
    BinaryArray::new(Buffer::from_vec(offsets), Buffer::from_vec(buf))
}

/// Rows of encoded bytes, packed one after the other.
pub struct RowsEncoded {
    pub(crate) values: Vec<u8>,
    // One offset more than there are rows. They are kept unsigned while the
    // rows are written and read as signed integers when the rows are exported.
    pub(crate) offsets: Vec<u64>,
}

impl Clone for RowsEncoded {
    fn clone(&self) -> (rows: Self)
        ensures
            rows@ == self@,
    {
        RowsEncoded {
            values: slice_to_vec(self.values.as_slice()),
            offsets: slice_to_vec(self.offsets.as_slice()),
        }
    }
}

impl Default for RowsEncoded {
    fn default() -> (rows: Self)
        ensures
            rows@.values == Seq::<u8>::empty(),
            rows@.offsets == Seq::<u64>::empty(),
    {
        RowsEncoded { values: Vec::new(), offsets: Vec::new() }
    }
}

/// What a [`RowsEncoded`] holds.
pub struct RowsEncodedView {
    /// The bytes of all rows, one row after the other.
    pub values: Seq<u8>,
    /// Where each row starts, and as the last offset where the last row ends.
    pub offsets: Seq<u64>,
}

impl View for RowsEncoded {
    type V = RowsEncodedView;

    closed spec fn view(&self) -> RowsEncodedView {
        RowsEncodedView { values: self.values@, offsets: self.offsets@ }
    }
}

impl RowsEncoded {
    /// The offsets delimit rows inside the values.
    pub open spec fn wf(&self) -> bool {
        offsets_delimit(self@.offsets, self@.values.len())
    }

    /// The number of rows.
    pub open spec fn num_rows(&self) -> nat {
        (self@.offsets.len() - 1) as nat
    }

    /// The rows, in index order.
    pub open spec fn rows(&self) -> Seq<Seq<u8>> {
        rows_of(self@.values, self@.offsets)
    }

    /// Takes the two buffers as they are. Nothing is checked here: the
    /// operations that read the rows ask for what they need.
    pub fn new(values: Vec<u8>, offsets: Vec<u64>) -> (rows: Self)
        ensures
            rows@.values == values@,
            rows@.offsets == offsets@,
    {
        RowsEncoded { values, offsets }
    }

    /// The bytes of all rows, one row after the other.
    pub fn values(&self) -> (values: &[u8])
        ensures
            values@ == self@.values,
    {
        self.values.as_slice()
    }

    /// The offsets: where each row starts, and where the last one ends.
    pub fn offsets(&self) -> (offsets: &[u64])
        ensures
            offsets@ == self@.offsets,
    {
        self.offsets.as_slice()
    }

    /// Tells whether the offsets delimit rows inside the values, which the
    /// operations that read the rows rely on.
    pub fn is_valid(&self) -> (ok: bool)
        ensures
            ok == self.wf(),
    {
        let n: usize = self.offsets.len();
        if n == 0 {
            return false;
        }
        let mut i: usize = 1;
        while i < n
            invariant
                n == self@.offsets.len(),
                1 <= i <= n,
                forall|a: int, b: int| 0 <= a <= b < i ==> self@.offsets[a] <= self@.offsets[b],
            decreases n - i,
        {
            if self.offsets[i - 1] > self.offsets[i] {
                return false;
            }
            i += 1;
        }
        let values_len: usize = self.values.len();
        self.offsets[n - 1] <= values_len as u64
    }

    /// A cursor at the first row. Each call starts afresh, and the buffer is
    /// left as it is.
    pub fn iter(&self) -> (it: RowsEncodedIter<'_>)
        requires
            self.wf(),
        ensures
            it.wf(),
            it.values() == self@.values,
            it.offsets() == self@.offsets,
            it.remaining() == self.rows(),
    {
        let n: usize = self.offsets.len();
        let values_len: usize = self.values.len();
        let end = slice_subrange(self.offsets.as_slice(), 1, n);
        assert(self@.offsets[0] <= self@.offsets[n - 1]);
        let offset: usize = self.offsets[0] as usize;
        let it = RowsEncodedIter { offset, end, values: self.values.as_slice() };
        assert(it.offsets() =~= self@.offsets);
        it
    }

    /// A binary column over the buffers, which stay with the rows: no byte
    /// and no offset is copied, and the column cannot outlive the rows.
    pub fn borrow_array(&self) -> (array: BinaryArray<'_>)
        requires
            self.wf(),
            offsets_fit_signed(self@.offsets),
        ensures
            array.wf(),
            array@ == exported(self@.values, self@.offsets),
    {
        proof {
            lemma_signed_offsets_keep_value(self@.offsets, self@.values.len());
        }
        let values = Buffer::from_slice(self.values.as_slice());
        let offsets = Buffer::from_slice(cast_offsets_slice(self.offsets.as_slice()));
        BinaryArray::new(offsets, values)
    }

    /// A binary column that takes the buffers over. No byte is copied.
    pub fn into_array(self) -> (array: BinaryArray<'static>)
        requires
            self.wf(),
            offsets_fit_signed(self@.offsets),
        ensures
            array.wf(),
            array@ == exported(self@.values, self@.offsets),
    {
        rows_to_array(self.values, self.offsets)
    }

    /// A binary column in which each row has a view. The views are new; the
    /// bytes of the rows stay one buffer.
    pub fn into_binview(self) -> (views: BinaryViewArray<'static>)
        requires
            self.wf(),
            offsets_fit_signed(self@.offsets),
        ensures
            views.wf(),
            views.buffer@ == self@.values,
            views.views@.len() == self.num_rows(),
            forall|i: int| 0 <= i < self.num_rows() ==> views.spec_value(i) == self.rows()[i],
            forall|i: int|
                0 <= i < self.num_rows() ==> (views.views@[i] is Inline <==> self.rows()[i].len()
                    <= MAX_INLINE_LEN),
    {
        let array = self.into_array();
        proof {
            lemma_exported_values_are_rows(self, array);
        }
        binary_to_binview(&array)
    }

    /// The bytes of row `i`.
    pub fn get(&self, i: usize) -> (row: &[u8])
        requires
            self.wf(),
            i < self.num_rows(),
        ensures
            row@ == self.rows()[i as int],
    {
        let n: usize = self.offsets.len();
        let values_len: usize = self.values.len();
        let ghost last = n - 1;
        assert(self@.offsets[i as int] <= self@.offsets[i + 1] <= self@.offsets[last]);
        let start: usize = self.offsets[i] as usize;
        let end: usize = self.offsets[i + 1] as usize;
        slice_subrange(self.values.as_slice(), start, end)
    }
}

/// A cursor over the rows of a [`RowsEncoded`], which it borrows.
pub struct RowsEncodedIter<'a> {
    offset: usize,
    end: &'a [u64],
    values: &'a [u8],
}

impl<'a> RowsEncodedIter<'a> {
    /// The bytes that the rows are cut from.
    pub closed spec fn values(&self) -> Seq<u8> {
        self.values@
    }

    /// The offsets not yet passed: where the next row starts, then where it
    /// and each row after it ends.
    pub closed spec fn offsets(&self) -> Seq<u64> {
        seq![self.offset as u64] + self.end@
    }

    /// The offsets not yet passed delimit rows inside the values.
    pub open spec fn wf(&self) -> bool {
        offsets_delimit(self.offsets(), self.values().len())
    }

    /// The rows not yet handed out, in the order in which they will come.
    pub open spec fn remaining(&self) -> Seq<Seq<u8>> {
        rows_of(self.values(), self.offsets())
    }

    /// Hands out the next row and moves past it, or says that none is left.
    pub fn next(&mut self) -> (row: Option<&'a [u8]>)
        requires
            old(self).wf(),
        ensures
            final(self).wf(),
            final(self).values() == old(self).values(),
            match row {
                Some(bytes) => {
                    &&& old(self).remaining().len() > 0
                    &&& bytes@ == old(self).remaining()[0]
                    &&& final(self).offsets() == old(self).offsets().skip(1)
                    &&& final(self).remaining() == old(self).remaining().skip(1)
                },
                None => old(self).remaining().len() == 0 && *final(self) == *old(self),
            },
    {
        let n: usize = self.end.len();
        if n == 0 {
            return None;
        }
        let values_len: usize = self.values.len();
        let ghost before = self.offsets();
        assert(before[0] <= before[1] <= before[n as int]);
        let new_offset: usize = self.end[0] as usize;
        let payload = slice_subrange(self.values, self.offset, new_offset);
        self.offset = new_offset;
        self.end = slice_subrange(self.end, 1, n);
        proof {
            assert(self.offsets() =~= before.skip(1));
            assert(offsets_sorted(self.offsets())) by {
                assert forall|i: int, j: int| 0 <= i <= j < self.offsets().len() implies
                    self.offsets()[i] <= self.offsets()[j] by {
                    assert(before[i + 1] <= before[j + 1]);
                }
            }
            assert(rows_of(self.values(), self.offsets()) =~= rows_of(
                self.values(),
                before,
            ).skip(1));
        }
        Some(payload)
    }

    /// Hands out all rows that are left, in order.
    pub fn collect(self) -> (rows: Vec<&'a [u8]>)
        requires
            self.wf(),
        ensures
            rows@.len() == self.remaining().len(),
            forall|i: int| 0 <= i < rows@.len() ==> (#[trigger] rows@[i])@ == self.remaining()[i],
    {
        let ghost all = self.remaining();
        let mut it = self;
        let mut rows: Vec<&'a [u8]> = Vec::new();
        loop
            invariant
                all == self.remaining(),
                it.wf(),
                rows@.len() + it.remaining().len() == all.len(),
                it.remaining() == all.skip(rows@.len() as int),
                forall|i: int| 0 <= i < rows@.len() ==> (#[trigger] rows@[i])@ == all[i],
            decreases it.remaining().len(),
        {
            match it.next() {
                Some(bytes) => {
                    rows.push(bytes);
                },
                None => {
                    return rows;
                },
            }
        }
    }

    /// The number of rows still to come, as its lower and its upper bound.
    pub fn size_hint(&self) -> (hint: (usize, Option<usize>))
        ensures
            hint.0 == self.remaining().len(),
            hint.1 == Some(hint.0),
    {
        let n: usize = self.end.len();
        (n, Some(n))
    }
}

} // verus!
