//! Decoder trait definition for the size-aware framer.

use vstd::prelude::*;

use super::maybe_decoded::MaybeDecoded;

verus! {

/// A decoder that decodes a frame from a buffer.
///
/// - After returning a [`FrameSize::Unknown`](super::maybe_decoded::FrameSize::Unknown) from [`Decoder::decode`],
///   it is guaranteed that the next call to [`Decoder::decode`]
///   will have a buffer with bigger size than the previous buffer.
/// - After returning a [`FrameSize::Known`](super::maybe_decoded::FrameSize::Known) from [`Decoder::decode`],
///   it is guaranteed that the next call to [`Decoder::decode`] or [`Decoder::decode_eof`]
///   will have a buffer of at least the size of the [`FrameSize::Known`](super::maybe_decoded::FrameSize::Known) returned.
///
/// A decoded frame claims more than zero bytes (or the framer would loop forever) and never
/// more than `src` holds.
pub trait Decoder {
    /// The type of item that this decoder decodes.
    type Item;
    /// The type of error that this decoder returns.
    type Error;

    /// Decoding `src` in the state `self` may answer `r`, leaving the decoder in the state
    /// `next` and the buffer holding `after`. A decoder that does not describe its decoding
    /// may answer anything.
    open spec fn decodes(
        &self,
        src: Seq<u8>,
        r: Result<MaybeDecoded<Self::Item>, Self::Error>,
        next: &Self,
        after: Seq<u8>,
    ) -> bool {
        true
    }

    /// Decoding `src` at the end of the stream in the state `self` may answer `r`, leaving the
    /// decoder in the state `next` and the buffer holding `after`. A decoder that decodes
    /// differently at the end of the stream defines it; by default it is [`Decoder::decodes`].
    open spec fn decodes_eof(
        &self,
        src: Seq<u8>,
        r: Result<MaybeDecoded<Self::Item>, Self::Error>,
        next: &Self,
        after: Seq<u8>,
    ) -> bool {
        self.decodes(src, r, next, after)
    }

    /// Decodes a frame from the provided buffer.
    fn decode(&mut self, src: &mut [u8]) -> (r: Result<MaybeDecoded<Self::Item>, Self::Error>)
        ensures
            final(src)@.len() == old(src)@.len(),
            r matches Ok(MaybeDecoded::Frame(f)) ==> 0 < f.consumed() <= old(src)@.len(),
            old(self).decodes(old(src)@, r, final(self), final(src)@),
    ;

    /// Decodes a frame from the provided buffer at the end of the stream.
    ///
    /// A decoder that decodes at the end of the stream as anywhere else implements it by
    /// calling [`Decoder::decode`].
    fn decode_eof(&mut self, src: &mut [u8]) -> (r: Result<MaybeDecoded<Self::Item>, Self::Error>)
        ensures
            final(src)@.len() == old(src)@.len(),
            r matches Ok(MaybeDecoded::Frame(f)) ==> 0 < f.consumed() <= old(src)@.len(),
            old(self).decodes_eof(old(src)@, r, final(self), final(src)@),
    ;
}

} // verus!
