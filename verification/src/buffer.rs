//! Buffers that are shared or borrowed, never copied, and the windows into
//! them.

use std::sync::Arc;
use vstd::prelude::*;
use vstd::slice::slice_subrange;

verus! {

/// Where the elements of a buffer lie: in storage that its holders share, or
/// in a slice that lives elsewhere and is only borrowed.
enum Storage<'a, T> {
    Shared(Arc<Vec<T>>),
    Borrowed(&'a [T]),
}

impl<'a, T> Storage<'a, T> {
    spec fn elements(&self) -> Seq<T> {
        match *self {
            Storage::Shared(data) => data@,
            Storage::Borrowed(data) => data@,
        }
    }

    fn len(&self) -> (n: usize)
        ensures
            n == self.elements().len(),
    {
        match self {
            Storage::Shared(data) => data.len(),
            Storage::Borrowed(data) => data.len(),
        }
    }
}

/// Calls `Arc::clone`, which makes another pointer to the same allocation:
/// what the two point to is one value.
#[verifier::external_body]
fn share<T>(data: &Arc<Vec<T>>) -> (shared: Arc<Vec<T>>)
    ensures
        shared == *data,
{
    Arc::clone(data)
}

/// A window into storage: `length` elements from `offset` on. To hand a
/// buffer on, or to narrow its window, copies no element.
pub struct Buffer<'a, T> {
    storage: Storage<'a, T>,
    offset: usize,
    length: usize,
}

impl<'a, T> View for Buffer<'a, T> {
    type V = Seq<T>;

    closed spec fn view(&self) -> Seq<T> {
        self.storage.elements().subrange(self.offset as int, self.offset + self.length)
    }
}

impl<'a, T> Clone for Buffer<'a, T> {
    /// Another buffer with the same window into the same storage. No element
    /// is copied.
    fn clone(&self) -> (other: Self)
        ensures
            other@ == self@,
            other.spec_storage() == self.spec_storage(),
            other.spec_offset() == self.spec_offset(),
    {
        self.share()
    }
}

impl<'a, T> Buffer<'a, T> {
    #[verifier::type_invariant]
    spec fn window_in_storage(&self) -> bool {
        self.offset + self.length <= self.storage.elements().len()
    }

    /// The elements that lie before the window in the storage.
    pub closed spec fn spec_offset(&self) -> nat {
        self.offset as nat
    }

    /// The elements of the storage, those outside the window too.
    pub closed spec fn spec_storage(&self) -> Seq<T> {
        self.storage.elements()
    }

    /// A buffer that takes `values` over as its storage, with all of it in
    /// the window.
    pub fn from_vec(values: Vec<T>) -> (buffer: Self)
        ensures
            buffer@ == values@,
            buffer.spec_storage() == values@,
            buffer.spec_offset() == 0,
    {
        let length: usize = values.len();
        let buffer = Buffer { storage: Storage::Shared(Arc::new(values)), offset: 0, length };
        assert(buffer@ =~= values@);
        buffer
    }

    /// A buffer over `values`, which stay where they are and must outlive it.
    pub fn from_slice(values: &'a [T]) -> (buffer: Self)
        ensures
            buffer@ == values@,
            buffer.spec_storage() == values@,
            buffer.spec_offset() == 0,
    {
        let length: usize = values.len();
        let buffer = Buffer { storage: Storage::Borrowed(values), offset: 0, length };
        assert(buffer@ =~= values@);
        buffer
    }

    /// The number of elements in the window.
    pub fn len(&self) -> (n: usize)
        ensures
            n == self@.len(),
    {
        proof {
            use_type_invariant(self);
        }
        self.length
    }

    /// The elements in the window.
    pub fn as_slice(&self) -> (elements: &[T])
        ensures
            elements@ == self@,
    {
        proof {
            use_type_invariant(self);
        }
        let storage_len: usize = self.storage.len();
        match &self.storage {
            Storage::Shared(data) => slice_subrange(
                data.as_slice(),
                self.offset,
                self.offset + self.length,
            ),
            Storage::Borrowed(data) => slice_subrange(
                *data,
                self.offset,
                self.offset + self.length,
            ),
        }
    }

    /// Another buffer with the same window into the same storage.
    pub fn share(&self) -> (other: Self)
        ensures
            other@ == self@,
            other.spec_storage() == self.spec_storage(),
            other.spec_offset() == self.spec_offset(),
    {
        proof {
            use_type_invariant(self);
        }
        let storage = match &self.storage {
            Storage::Shared(data) => Storage::Shared(share(data)),
            Storage::Borrowed(data) => Storage::Borrowed(*data),
        };
        Buffer { storage, offset: self.offset, length: self.length }
    }

    /// Narrows the window to `length` elements, from the element `offset` of
    /// the window that was.
    pub fn slice(&mut self, offset: usize, length: usize)
        requires
            offset + length <= old(self)@.len(),
        ensures
            final(self)@ == old(self)@.subrange(offset as int, offset + length),
            final(self).spec_storage() == old(self).spec_storage(),
            final(self).spec_offset() == old(self).spec_offset() + offset,
    {
        proof {
            use_type_invariant(&*self);
        }
        let ghost before = self@;
        let storage_len: usize = self.storage.len();
        self.length = length;
        self.offset = self.offset + offset;
        assert(self@ =~= before.subrange(offset as int, offset + length));
    }
}

} // verus!
