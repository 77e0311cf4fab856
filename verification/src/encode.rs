//! Encoder trait definition.

use vstd::prelude::*;

pub mod framed_write;

verus! {

/// An encoder that encodes an item into a buffer.
///
/// On success it returns how many bytes at the start of `dst` hold the encoded item, which is
/// never more than `dst` holds.
pub trait Encoder<Item> {
    /// The type of error that this encoder returns.
    type Error;

    /// Encoding `item` into the buffer `dst` in the state `self` may answer `r`, leaving the
    /// encoder in the state `next` and the buffer holding `after`. An encoder that does not
    /// describe its encoding may answer anything.
    open spec fn encodes(
        &self,
        item: Item,
        dst: Seq<u8>,
        r: Result<usize, Self::Error>,
        next: &Self,
        after: Seq<u8>,
    ) -> bool {
        true
    }

    /// Encodes `item` into the start of `dst`, returning the number of bytes written.
    fn encode(&mut self, item: Item, dst: &mut [u8]) -> (r: Result<usize, Self::Error>)
        ensures
            final(dst)@.len() == old(dst)@.len(),
            r matches Ok(n) ==> n <= old(dst)@.len(),
            old(self).encodes(item, old(dst)@, r, final(self), final(dst)@),
    ;
}

} // verus!
