//! Decoder trait definitions.

use vstd::prelude::*;

pub mod decoder;
pub mod frame;
pub mod framed_read;
pub mod maybe_decoded;

verus! {

/// A decoder that decodes a frame from a buffer.
///
/// A frame is returned together with the number of bytes of `src` it consumed, which is more
/// than zero (or the framer would hand out the same frame forever) and never more than `src`
/// holds. What a decoder does is described by [`Decoder::decodes`] (and
/// [`Decoder::decodes_eof`] at the end of the stream), which every implementation defines.
pub trait Decoder<'buf> {
    /// The type of item that this decoder decodes.
    type Item;
    /// The type of error that this decoder returns.
    type Error;

    /// Decoding `src` in the state `self` may answer `r`, leaving the decoder in the state
    /// `next` and the buffer holding `after`. A decoder that does not describe its decoding
    /// may answer anything.
    open spec fn decodes(
        &self,
        src: Seq<u8>,
        r: Result<Option<(Self::Item, usize)>, Self::Error>,
        next: &Self,
        after: Seq<u8>,
    ) -> bool {
        true
    }

    /// Decoding `src` at the end of the stream in the state `self` may answer `r`, leaving the
    /// decoder in the state `next` and the buffer holding `after`. A decoder that decodes
    /// differently at the end of the stream defines it; by default it is [`Decoder::decodes`].
    open spec fn decodes_eof(
        &self,
        src: Seq<u8>,
        r: Result<Option<(Self::Item, usize)>, Self::Error>,
        next: &Self,
        after: Seq<u8>,
    ) -> bool {
        self.decodes(src, r, next, after)
    }

    /// Decodes a frame from the provided buffer.
    fn decode(&mut self, src: &'buf mut [u8]) -> (r: Result<Option<(Self::Item, usize)>, Self::Error>)
        ensures
            final(src)@.len() == old(src)@.len(),
            r matches Ok(Some((_, n))) ==> 0 < n <= old(src)@.len(),
            old(self).decodes(old(src)@, r, final(self), final(src)@),
    ;

    /// Decodes a frame from the provided buffer at the end of the stream.
    ///
    /// A decoder that decodes at the end of the stream as anywhere else implements it by
    /// calling [`Decoder::decode`].
    fn decode_eof(&mut self, src: &'buf mut [u8]) -> (r: Result<
        Option<(Self::Item, usize)>,
        Self::Error,
    >)
        ensures
            final(src)@.len() == old(src)@.len(),
            r matches Ok(Some((_, n))) ==> 0 < n <= old(src)@.len(),
            old(self).decodes_eof(old(src)@, r, final(self), final(src)@),
    ;
}

/// A decoder that decodes an owned frame from a buffer.
///
/// A frame is returned together with the number of bytes of `src` it consumed, which is more
/// than zero (or the framer would hand out the same frame forever) and never more than `src`
/// holds. What a decoder does is described by
/// [`DecoderOwned::decodes_owned`] (and [`DecoderOwned::decodes_eof_owned`] at the end of the
/// stream), which every implementation defines.
pub trait DecoderOwned {
    /// The type of item that this decoder decodes.
    type Item;
    /// The type of error that this decoder returns.
    type Error;

    /// Decoding `src` in the state `self` may answer `r`, leaving the decoder in the state
    /// `next` and the buffer holding `after`. A decoder that does not describe its decoding
    /// may answer anything.
    open spec fn decodes_owned(
        &self,
        src: Seq<u8>,
        r: Result<Option<(Self::Item, usize)>, Self::Error>,
        next: &Self,
        after: Seq<u8>,
    ) -> bool {
        true
    }

    /// Decoding `src` at the end of the stream in the state `self` may answer `r`, leaving the
    /// decoder in the state `next` and the buffer holding `after`. A decoder that decodes
    /// differently at the end of the stream defines it; by default it is
    /// [`DecoderOwned::decodes_owned`].
    open spec fn decodes_eof_owned(
        &self,
        src: Seq<u8>,
        r: Result<Option<(Self::Item, usize)>, Self::Error>,
        next: &Self,
        after: Seq<u8>,
    ) -> bool {
        self.decodes_owned(src, r, next, after)
    }

    /// Decodes a frame from the provided buffer.
    fn decode_owned(&mut self, src: &mut [u8]) -> (r: Result<
        Option<(Self::Item, usize)>,
        Self::Error,
    >)
        ensures
            final(src)@.len() == old(src)@.len(),
            r matches Ok(Some((_, n))) ==> 0 < n <= old(src)@.len(),
            old(self).decodes_owned(old(src)@, r, final(self), final(src)@),
    ;

    /// Decodes a frame from the provided buffer at the end of the stream.
    ///
    /// A decoder that decodes at the end of the stream as anywhere else implements it by
    /// calling [`DecoderOwned::decode_owned`].
    fn decode_eof_owned(&mut self, src: &mut [u8]) -> (r: Result<
        Option<(Self::Item, usize)>,
        Self::Error,
    >)
        ensures
            final(src)@.len() == old(src)@.len(),
            r matches Ok(Some((_, n))) ==> 0 < n <= old(src)@.len(),
            old(self).decodes_eof_owned(old(src)@, r, final(self), final(src)@),
    ;
}

impl<'buf, D> Decoder<'buf> for &mut D where D: Decoder<'buf> {
    type Item = D::Item;

    type Error = D::Error;

    open spec fn decodes(
        &self,
        src: Seq<u8>,
        r: Result<Option<(Self::Item, usize)>, Self::Error>,
        next: &Self,
        after: Seq<u8>,
    ) -> bool {
        (**self).decodes(src, r, &**next, after)
    }

    open spec fn decodes_eof(
        &self,
        src: Seq<u8>,
        r: Result<Option<(Self::Item, usize)>, Self::Error>,
        next: &Self,
        after: Seq<u8>,
    ) -> bool {
        (**self).decodes_eof(src, r, &**next, after)
    }

    fn decode(&mut self, src: &'buf mut [u8]) -> (r: Result<Option<(Self::Item, usize)>, Self::Error>) {
        (**self).decode(src)
    }

    fn decode_eof(&mut self, src: &'buf mut [u8]) -> (r: Result<
        Option<(Self::Item, usize)>,
        Self::Error,
    >) {
        (**self).decode_eof(src)
    }
}

impl<D> DecoderOwned for &mut D where D: DecoderOwned {
    type Item = D::Item;

    type Error = D::Error;

    open spec fn decodes_owned(
        &self,
        src: Seq<u8>,
        r: Result<Option<(Self::Item, usize)>, Self::Error>,
        next: &Self,
        after: Seq<u8>,
    ) -> bool {
        (**self).decodes_owned(src, r, &**next, after)
    }

    open spec fn decodes_eof_owned(
        &self,
        src: Seq<u8>,
        r: Result<Option<(Self::Item, usize)>, Self::Error>,
        next: &Self,
        after: Seq<u8>,
    ) -> bool {
        (**self).decodes_eof_owned(src, r, &**next, after)
    }

    fn decode_owned(&mut self, src: &mut [u8]) -> (r: Result<
        Option<(Self::Item, usize)>,
        Self::Error,
    >) {
        (**self).decode_owned(src)
    }

    fn decode_eof_owned(&mut self, src: &mut [u8]) -> (r: Result<
        Option<(Self::Item, usize)>,
        Self::Error,
    >) {
        (**self).decode_eof_owned(src)
    }
}

} // verus!
