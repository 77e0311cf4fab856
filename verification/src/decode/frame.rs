//! A decoded frame: an item and the number of bytes it was decoded from.

use vstd::prelude::*;

verus! {

/// A decoded item together with the number of bytes consumed from the buffer to decode it.
#[derive(Debug)]
pub struct Frame<T> {
    /// Number of bytes consumed from the buffer.
    ///
    /// # Note
    /// - Number of bytes needed to create the [`Frame::item`] may be less than the number of bytes consumed from the `buffer` but never more.
    /// - Must be greater than `0`, or the framer makes no progress.
    pub(super) size: usize,
    /// The decoded item.
    pub(super) item: T,
}

impl<T> Frame<T> {
    /// The number of bytes consumed from the buffer.
    pub closed spec fn consumed(&self) -> usize {
        self.size
    }

    /// The decoded item.
    pub closed spec fn decoded(&self) -> T {
        self.item
    }

    /// Creates a new [`Frame`] of `item` decoded from `size` bytes.
    pub fn new(size: usize, item: T) -> (r: Self)
        ensures
            r.consumed() == size,
            r.decoded() == item,
    {
        Self { size, item }
    }

    /// Returns the number of bytes consumed from the buffer.
    pub fn size(&self) -> (r: usize)
        ensures
            r == self.consumed(),
    {
        self.size
    }

    /// Returns a reference to the decoded item.
    pub fn item(&self) -> (r: &T)
        ensures
            *r == self.decoded(),
    {
        &self.item
    }

    /// Returns the decoded item, consuming the frame.
    pub fn into_item(self) -> (r: T)
        ensures
            r == self.decoded(),
    {
        self.item
    }
}

} // verus!
