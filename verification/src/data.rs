//! The bridge between a typed primitive column and the general array
//! description in which columns are exchanged.

use crate::buffer::Buffer;
use vstd::prelude::*;

verus! {

/// The tag that names the element type of a primitive column.
#[derive(Clone, Copy, Debug, PartialEq, Eq, Structural)]
pub enum PrimitiveType {
    Int8,
    Int16,
    Int32,
    Int64,
    UInt8,
    UInt16,
    UInt32,
    UInt64,
    Float32,
    Float64,
}

/// A validity bitmap as a sequence of flags, where there is one.
pub open spec fn bitmap_view(bitmap: Option<Buffer<bool>>) -> Option<Seq<bool>> {
    match bitmap {
        Some(bits) => Some(bits@),
        None => None,
    }
}

/// What a [`PrimitiveArray`] holds.
pub struct PrimitiveArrayView<T> {
    pub dtype: PrimitiveType,
    pub values: Seq<T>,
    pub validity: Option<Seq<bool>>,
}

/// A typed column of fixed-width values, with one validity flag for each
/// value where any value may be null.
pub struct PrimitiveArray<'a, T> {
    pub dtype: PrimitiveType,
    pub values: Buffer<'a, T>,
    pub validity: Option<Buffer<'a, bool>>,
}

impl<'a, T> View for PrimitiveArray<'a, T> {
    type V = PrimitiveArrayView<T>;

    open spec fn view(&self) -> PrimitiveArrayView<T> {
        PrimitiveArrayView {
            dtype: self.dtype,
            values: self.values@,
            validity: bitmap_view(self.validity),
        }
    }
}

impl<'a, T> PrimitiveArray<'a, T> {
    /// There are as many validity flags as values.
    pub open spec fn wf(&self) -> bool {
        match self.validity {
            Some(bits) => bits@.len() == self.values@.len(),
            None => true,
        }
    }

    /// Tells whether there are as many validity flags as values.
    pub fn is_valid(&self) -> (ok: bool)
        ensures
            ok == self.wf(),
    {
        match &self.validity {
            Some(bits) => bits.len() == self.values.len(),
            None => true,
        }
    }
}

/// The description of an array as it is exchanged: its tag, the number of
/// its elements, where they start in the value buffer, the buffers, and the
/// validity flags of the elements where any may be null.
pub struct ArrayData<'a, T> {
    pub data_type: PrimitiveType,
    pub len: usize,
    /// Counted in elements. It applies to the value buffer, not to `nulls`.
    pub offset: usize,
    pub buffers: Vec<Buffer<'a, T>>,
    pub nulls: Option<Buffer<'a, bool>>,
}

impl<'a, T> ArrayData<'a, T> {
    /// The description is one of a primitive column: it has exactly one
    /// buffer, which holds the window that `offset` and `len` name, and as
    /// many validity flags as elements.
    pub open spec fn wf(&self) -> bool {
        &&& self.buffers@.len() == 1
        &&& self.offset + self.len <= self.buffers@[0]@.len()
        &&& match self.nulls {
            Some(bits) => bits@.len() == self.len,
            None => true,
        }
    }

    /// Tells whether the description is one of a primitive column.
    pub fn is_valid(&self) -> (ok: bool)
        ensures
            ok == self.wf(),
    {
        if self.buffers.len() != 1 {
            return false;
        }
        let buffer_len: usize = self.buffers[0].len();
        if self.offset > buffer_len || self.len > buffer_len - self.offset {
            return false;
        }
        match &self.nulls {
            Some(bits) => bits.len() == self.len,
            None => true,
        }
    }

    /// The elements that the description stands for: the window of the value
    /// buffer.
    pub open spec fn window(&self) -> Seq<T> {
        self.buffers@[0]@.subrange(self.offset as int, self.offset + self.len)
    }
}

/// `data` describes `column`: the same tag, all of the column's values in
/// one buffer from its start, and the column's validity flags. The buffer is
/// the column's own: the same window into the same storage.
pub open spec fn describes<T>(data: ArrayData<T>, column: PrimitiveArray<T>) -> bool {
    &&& data.data_type == column.dtype
    &&& data.len == column.values@.len()
    &&& data.offset == 0
    &&& data.buffers@.len() == 1
    &&& data.buffers@[0]@ == column.values@
    &&& data.buffers@[0].spec_storage() == column.values.spec_storage()
    &&& data.buffers@[0].spec_offset() == column.values.spec_offset()
    &&& bitmap_view(data.nulls) == bitmap_view(column.validity)
}

/// `column` is what `data` stands for: the same tag, the window of the value
/// buffer, and the validity flags as they are. The column's values are a
/// narrower window into the storage of the value buffer.
pub open spec fn read_from<T>(column: PrimitiveArray<T>, data: ArrayData<T>) -> bool {
    &&& column.dtype == data.data_type
    &&& column.values@ == data.window()
    &&& column.values.spec_storage() == data.buffers@[0].spec_storage()
    &&& column.values.spec_offset() == data.buffers@[0].spec_offset() + data.offset
    &&& bitmap_view(column.validity) == bitmap_view(data.nulls)
}

/// A column that is described and read back is the column it was: the same
/// tag, the same values and the same validity flags, whatever window into
/// its storage the column's values are; and the values are still that window
/// into that storage.
pub proof fn lemma_round_trip<T>(
    column: PrimitiveArray<T>,
    data: ArrayData<T>,
    back: PrimitiveArray<T>,
)
    requires
        column.wf(),
        describes(data, column),
        read_from(back, data),
    ensures
        data.wf(),
        back.wf(),
        back@ == column@,
        back.values.spec_storage() == column.values.spec_storage(),
        back.values.spec_offset() == column.values.spec_offset(),
{
    assert(data.window() =~= column.values@);
}

/// A description that is read and described again stands for the same
/// elements, now from the start of its buffer.
pub proof fn lemma_window_kept<T>(
    data: ArrayData<T>,
    column: PrimitiveArray<T>,
    again: ArrayData<T>,
)
    requires
        data.wf(),
        read_from(column, data),
        describes(again, column),
    ensures
        again.wf(),
        again.offset == 0,
        again.len == data.len,
        again.window() == data.window(),
        again.data_type == data.data_type,
        bitmap_view(again.nulls) == bitmap_view(data.nulls),
{
    assert(again.window() =~= column.values@);
}

fn share_bitmap<'a>(bitmap: &Option<Buffer<'a, bool>>) -> (shared: Option<Buffer<'a, bool>>)
    ensures
        bitmap_view(shared) == bitmap_view(*bitmap),
{
    match bitmap {
        Some(bits) => Some(bits.share()),
        None => None,
    }
}

impl<'a, T> PrimitiveArray<'a, T> {
    /// Describes the column in the form of exchange. The description shares
    /// the column's buffers: no value and no flag is copied.
    pub fn to_data(&self) -> (data: ArrayData<'a, T>)
        requires
            self.wf(),
        ensures
            data.wf(),
            describes(data, *self),
    {
        let mut buffers: Vec<Buffer<'a, T>> = Vec::new();
        buffers.push(self.values.share());
        ArrayData {
            data_type: self.dtype,
            len: self.values.len(),
            offset: 0,
            buffers,
            nulls: share_bitmap(&self.validity),
        }
    }

    /// Reads a column from its description: the elements that
    /// `offset` and `len` name in the value buffer, which the column shares.
    pub fn from_data(data: &ArrayData<'a, T>) -> (column: Self)
        requires
            data.wf(),
        ensures
            column.wf(),
            read_from(column, *data),
    {
        let mut values = data.buffers[0].share();
        values.slice(data.offset, data.len);
        PrimitiveArray { dtype: data.data_type, values, validity: share_bitmap(&data.nulls) }
    }
}

} // verus!
