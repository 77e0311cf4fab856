//! Framed writing over a borrowed buffer.
//!
//! [`FramedWrite::encode_frame`] encodes an item into the borrowed buffer; the caller then
//! writes the first `n` bytes of [`WriteFrame::buffer`] to the underlying writer.

use vstd::prelude::*;

use super::Encoder;

verus! {

/// An error that can occur while writing a frame.
#[derive(Debug)]
pub enum Error<I, E> {
    /// An IO error occurred while writing to the underlying sink.
    IO(I),
    /// An error occurred while encoding a frame.
    Encode(E),
}

/// Internal state for writing a frame.
#[derive(Debug)]
pub struct WriteFrame<'a> {
    /// The underlying buffer to encode into.
    buffer: &'a mut [u8],
}

impl<'a> View for WriteFrame<'a> {
    /// The contents of the buffer.
    type V = Seq<u8>;

    closed spec fn view(&self) -> Seq<u8> {
        self.buffer@
    }
}

impl<'a> WriteFrame<'a> {
    /// Creates a new [`WriteFrame`] with the given `buffer`.
    pub(crate) fn new(buffer: &'a mut [u8]) -> (r: Self)
        ensures
            r@ == old(buffer)@,
    {
        Self { buffer }
    }

    /// Returns a reference to the underlying buffer.
    pub fn buffer(&self) -> (r: &[u8])
        ensures
            r@ == self@,
    {
        self.buffer
    }
}

/// A sink that writes frames to an underlying writable sink.
#[derive(Debug)]
pub struct FramedWrite<'a, E, W> {
    state: WriteFrame<'a>,
    encoder: E,
    inner: W,
}

impl<'a, E, W> FramedWrite<'a, E, W> {
    /// The contents of the framer's buffer.
    pub closed spec fn buffer_view(&self) -> Seq<u8> {
        self.state@
    }

    /// The encoder of the framer.
    pub closed spec fn encoder_view(&self) -> E {
        self.encoder
    }

    /// The underlying writer of the framer.
    pub closed spec fn inner_view(&self) -> W {
        self.inner
    }

    /// Creates a new [`FramedWrite`] with the given `encoder`, and `buffer`, and the underlying `inner` writer.
    pub fn new(inner: W, encoder: E, buffer: &'a mut [u8]) -> (r: Self)
        ensures
            r.buffer_view() == old(buffer)@,
            r.encoder_view() == encoder,
            r.inner_view() == inner,
    {
        Self { state: WriteFrame::new(buffer), encoder, inner }
    }

    /// Returns a reference to the internal state.
    pub fn state(&self) -> (r: &WriteFrame<'a>)
        ensures
            r@ == self.buffer_view(),
    {
        &self.state
    }

    /// Returns a reference to the encoder.
    pub fn encoder(&self) -> (r: &E)
        ensures
            *r == self.encoder_view(),
    {
        &self.encoder
    }

    /// Returns a reference to the underlying `inner` writer.
    pub fn inner(&self) -> (r: &W)
        ensures
            *r == self.inner_view(),
    {
        &self.inner
    }

    /// Returns a mutable reference to the underlying `inner` writer.
    pub fn inner_mut(&mut self) -> (r: &mut W)
        ensures
            *r == old(self).inner_view(),
            final(self).inner_view() == *final(r),
            final(self).buffer_view() == old(self).buffer_view(),
            final(self).encoder_view() == old(self).encoder_view(),
    {
        &mut self.inner
    }

    /// Returns the underlying writer together with the framer's buffer, whose first bytes
    /// hold the frame [`FramedWrite::encode_frame`] encoded last.
    pub fn inner_and_buffer(&mut self) -> (r: (&mut W, &[u8]))
        ensures
            *r.0 == old(self).inner_view(),
            r.1@ == old(self).buffer_view(),
            final(self).inner_view() == *final(r.0),
            final(self).buffer_view() == old(self).buffer_view(),
            final(self).encoder_view() == old(self).encoder_view(),
    {
        (&mut self.inner, &*self.state.buffer)
    }

    /// Returns the encoder consuming the [`FramedWrite`].
    pub fn into_encoder(self) -> (r: E)
        ensures
            r == self.encoder_view(),
    {
        self.encoder
    }

    /// Returns the underlying `inner` writer consuming the [`FramedWrite`].
    pub fn into_inner(self) -> (r: W)
        ensures
            r == self.inner_view(),
    {
        self.inner
    }

    /// Encodes `item` into the framer's buffer.
    ///
    /// On `Ok(n)`, the frame is `state().buffer()[..n]`: writing it to the underlying writer
    /// completes writing the frame. An encoder error is returned as [`Error::Encode`].
    pub fn encode_frame<I, IoError>(&mut self, item: I) -> (r: Result<usize, Error<IoError, E::Error>>) where
        E: Encoder<I>,
        ensures
            r matches Ok(n) ==> n <= old(self).buffer_view().len(),
            final(self).buffer_view().len() == old(self).buffer_view().len(),
            final(self).inner_view() == old(self).inner_view(),
            match r {
                Ok(n) => old(self).encoder_view().encodes(
                    item,
                    old(self).buffer_view(),
                    Ok(n),
                    &final(self).encoder_view(),
                    final(self).buffer_view(),
                ),
                Err(Error::Encode(e)) => old(self).encoder_view().encodes(
                    item,
                    old(self).buffer_view(),
                    Err(e),
                    &final(self).encoder_view(),
                    final(self).buffer_view(),
                ),
                Err(Error::IO(_)) => false,
            },
    {
        match self.encoder.encode(item, self.state.buffer) {
            Ok(size) => Ok(size),
            Err(err) => Err(Error::Encode(err)),
        }
    }
}

} // verus!
