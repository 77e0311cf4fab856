//! The outcome of one decoding attempt.

use vstd::prelude::*;

use super::frame::Frame;

verus! {

/// Either a decoded frame or what is known about the size of the next frame.
#[derive(Debug)]
pub enum MaybeDecoded<T> {
    /// A frame was decoded.
    Frame(Frame<T>),
    /// No frame was decoded; the buffer holds an incomplete frame.
    Incomplete(FrameSize),
}

/// Known or unknown frame size
///
/// - After returning a [`FrameSize::Unknown`] from [`Decoder::decode`](super::decoder::Decoder::decode),
///   it is guaranteed that the next call to [`Decoder::decode`](super::decoder::Decoder::decode)
///   will have a buffer with bigger size than the previous buffer.
///   [`Decoder::decode_eof`](super::decoder::Decoder::decode_eof) may be called with the same previous buffer size.
/// - After returning a [`FrameSize::Known`] from [`Decoder::decode`](super::decoder::Decoder::decode),
///   it is guaranteed that the next call to [`Decoder::decode`](super::decoder::Decoder::decode) or [`Decoder::decode_eof`](super::decoder::Decoder::decode_eof)
///   will have a buffer of at least the size of the [`FrameSize::Known`] returned.
#[derive(Debug, PartialEq, Eq, Clone, Copy)]
pub enum FrameSize {
    /// The size of the next frame is not known yet.
    Unknown,
    /// The next frame has this many bytes.
    Known(usize),
}

} // verus!
