//! Framed writing. Turns items into encoded frames for a writer.
//!
//! [`FramedWrite::encode_frame`] encodes an item into the framer's own buffer; the caller
//! then writes `state().buffer()[..n]` to the writer.

use vstd::prelude::*;

use crate::encode::Encoder;

verus! {

/// An error that can occur while writing a frame.
#[derive(Debug)]
pub enum FramedWriteError<I, E> {
    /// An IO error occurred while writing to the underlying sink.
    IO(I),
    /// An error occurred while encoding a frame.
    Encode(E),
}

/// Internal state for writing a frame.
#[derive(Debug)]
pub struct WriteFrame<const N: usize> {
    /// The underlying buffer to write to.
    buffer: [u8; N],
}

impl<const N: usize> View for WriteFrame<N> {
    /// The contents of the buffer.
    type V = Seq<u8>;

    closed spec fn view(&self) -> Seq<u8> {
        self.buffer@
    }
}

impl<const N: usize> WriteFrame<N> {
    /// Creates a new [`WriteFrame`].
    pub fn new() -> (r: Self)
        ensures
            r@ == Seq::new(N as nat, |i: int| 0u8),
    {
        let r = Self { buffer: [0u8; N] };
        assert(r@ =~= Seq::new(N as nat, |i: int| 0u8));
        r
    }

    /// Creates a new [`WriteFrame`] with the given `buffer`.
    pub fn new_with_buffer(buffer: [u8; N]) -> (r: Self)
        ensures
            r@ == buffer@,
    {
        Self { buffer }
    }

    /// Returns a reference to the underlying buffer.
    pub fn buffer(&self) -> (r: &[u8; N])
        ensures
            r@ == self@,
    {
        &self.buffer
    }

    /// Returns a mutable reference to the underlying buffer.
    pub fn buffer_mut(&mut self) -> (r: &mut [u8; N])
        ensures
            r@ == old(self)@,
            final(self)@ == final(r)@,
    {
        &mut self.buffer
    }
}

impl<const N: usize> Default for WriteFrame<N> {
    fn default() -> (r: Self)
        ensures
            r@ == Seq::new(N as nat, |i: int| 0u8),
    {
        Self::new()
    }
}

/// A sink that writes encoded frames into an underlying writer using an [`Encoder`].
#[derive(Debug)]
pub struct FramedWrite<const N: usize, E, W> {
    state: WriteFrame<N>,
    encoder: E,
    writer: W,
}

impl<const N: usize, E, W> FramedWrite<N, E, W> {
    /// The contents of the framer's buffer.
    pub closed spec fn buffer_view(&self) -> Seq<u8> {
        self.state@
    }

    /// The encoder of the framer.
    pub closed spec fn encoder_view(&self) -> E {
        self.encoder
    }

    /// The framer's parts: its internal state, encoder and writer.
    pub closed spec fn parts(&self) -> (WriteFrame<N>, E, W) {
        (self.state, self.encoder, self.writer)
    }

    /// A framer is its parts: two framers with the same parts are the same framer, so one put
    /// back together with [`FramedWrite::from_parts`] from what
    /// [`FramedWrite::into_parts`] returned behaves exactly as the original one.
    pub proof fn lemma_parts_determine(a: Self, b: Self)
        requires
            a.parts() == b.parts(),
        ensures
            a == b,
    {
    }

    /// The writer of the framer.
    pub closed spec fn writer_view(&self) -> W {
        self.writer
    }

    /// Creates a new [`FramedWrite`] with the given `encoder` and `writer`.
    pub fn new(encoder: E, writer: W) -> (r: Self)
        ensures
            r.buffer_view() == Seq::new(N as nat, |i: int| 0u8),
            r.encoder_view() == encoder,
            r.writer_view() == writer,
    {
        Self { state: WriteFrame::new(), encoder, writer }
    }

    /// Creates a new [`FramedWrite`] with the given `encoder`, `writer`, and `buffer`.
    pub fn new_with_buffer(encoder: E, writer: W, buffer: [u8; N]) -> (r: Self)
        ensures
            r.buffer_view() == buffer@,
            r.encoder_view() == encoder,
            r.writer_view() == writer,
    {
        Self { state: WriteFrame::new_with_buffer(buffer), encoder, writer }
    }

    /// Returns reference to the encoder.
    pub fn encoder(&self) -> (r: &E)
        ensures
            *r == self.encoder_view(),
    {
        &self.encoder
    }

    /// Returns mutable reference to the encoder.
    pub fn encoder_mut(&mut self) -> (r: &mut E)
        ensures
            *r == old(self).encoder_view(),
            final(self).encoder_view() == *final(r),
            final(self).buffer_view() == old(self).buffer_view(),
            final(self).writer_view() == old(self).writer_view(),
    {
        &mut self.encoder
    }

    /// Returns reference to the writer.
    pub fn writer(&self) -> (r: &W)
        ensures
            *r == self.writer_view(),
    {
        &self.writer
    }

    /// Returns mutable reference to the writer.
    pub fn writer_mut(&mut self) -> (r: &mut W)
        ensures
            *r == old(self).writer_view(),
            final(self).writer_view() == *final(r),
            final(self).buffer_view() == old(self).buffer_view(),
            final(self).encoder_view() == old(self).encoder_view(),
    {
        &mut self.writer
    }

    /// Returns reference to the internal state.
    pub fn state(&self) -> (r: &WriteFrame<N>)
        ensures
            r@ == self.buffer_view(),
    {
        &self.state
    }

    /// Returns mutable reference to the internal state.
    pub fn state_mut(&mut self) -> (r: &mut WriteFrame<N>)
        ensures
            r@ == old(self).buffer_view(),
            final(self).buffer_view() == final(r)@,
            final(self).encoder_view() == old(self).encoder_view(),
            final(self).writer_view() == old(self).writer_view(),
    {
        &mut self.state
    }

    /// Returns the writer together with the framer's buffer, whose first bytes hold the frame
    /// [`FramedWrite::encode_frame`] encoded last.
    pub fn writer_and_buffer(&mut self) -> (r: (&mut W, &[u8; N]))
        ensures
            *r.0 == old(self).writer_view(),
            r.1@ == old(self).buffer_view(),
            final(self).writer_view() == *final(r.0),
            final(self).buffer_view() == old(self).buffer_view(),
            final(self).encoder_view() == old(self).encoder_view(),
    {
        (&mut self.writer, &self.state.buffer)
    }

    /// Consumes the [`FramedWrite`] and returns the `encoder`, `writer`, and `internal state`.
    pub fn into_parts(self) -> (r: (WriteFrame<N>, E, W))
        ensures
            r.0@ == self.buffer_view(),
            r.1 == self.encoder_view(),
            r.2 == self.writer_view(),
            r == self.parts(),
    {
        (self.state, self.encoder, self.writer)
    }

    /// Creates a new [`FramedWrite`] from the given `encoder`, `writer`, and `internal state`.
    pub fn from_parts(state: WriteFrame<N>, encoder: E, writer: W) -> (r: Self)
        ensures
            r.buffer_view() == state@,
            r.encoder_view() == encoder,
            r.writer_view() == writer,
            r.parts() == (state, encoder, writer),
    {
        Self { state, encoder, writer }
    }

    /// Encodes `item` into the framer's buffer.
    ///
    /// On `Ok(n)`, the frame is `state().buffer()[..n]`: writing it to the writer completes
    /// writing the frame. An encoder error is returned as [`FramedWriteError::Encode`].
    pub fn encode_frame<I, IoError>(&mut self, item: I) -> (r: Result<
        usize,
        FramedWriteError<IoError, E::Error>,
    >) where E: Encoder<I>
        ensures
            r matches Ok(n) ==> n <= N,
            final(self).writer_view() == old(self).writer_view(),
            match r {
                Ok(n) => old(self).encoder_view().encodes(
                    item,
                    old(self).buffer_view(),
                    Ok(n),
                    &final(self).encoder_view(),
                    final(self).buffer_view(),
                ),
                Err(FramedWriteError::Encode(e)) => old(self).encoder_view().encodes(
                    item,
                    old(self).buffer_view(),
                    Err(e),
                    &final(self).encoder_view(),
                    final(self).buffer_view(),
                ),
                Err(FramedWriteError::IO(_)) => false,
            },
    {
        let dst: &mut [u8] = &mut self.state.buffer;
        match self.encoder.encode(item, dst) {
            Ok(size) => Ok(size),
            Err(err) => Err(FramedWriteError::Encode(err)),
        }
    }
}

} // verus!
