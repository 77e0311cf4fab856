//! # Cody the codec
//!
//! A simple and zero-copy codec for encoding and decoding framed data in `no_std`-style
//! environments, with every framing decision verified.

pub mod buf;
pub mod codec;
pub mod decode;
pub mod demo;
pub mod embedded_io_async;
pub mod encode;
pub mod frame_size_aware;
pub mod framed_read;
pub mod framed_write;
pub mod futures_io;
pub mod tokio;

pub use codec::{LinesCodec, LinesEncodeError};
pub use decode::{Decoder, DecoderOwned};
pub use encode::Encoder;
pub use framed_read::{FramedRead, FramedReadError};
pub use framed_write::{FramedWrite, FramedWriteError};
