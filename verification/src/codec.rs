//! A ready to use set of codecs.

pub mod any;
pub mod bincode_codec;
pub mod bytes;
pub mod length;
pub mod lines;
pub mod needle;

pub use self::lines::{
    LinesCodec, LinesCodecOwned, LinesEncodeError, LinesOwnedDecodeError, StrLinesCodec,
    StrLinesDecodeError, StringLinesCodec, StringLinesDecodeError,
};
pub use self::bytes::{BytesCodec, BytesCodecOwned, BytesEncodeError};
pub use self::length::{LengthCodec, LengthCodecOwned, LengthEncodeError, SIZE_OF_LENGTH};
pub use self::any::{AnyDelimiterCodec, AnyDelimiterCodecOwned, AnyDelimiterEncodeError};
pub use self::needle::{NeedleCodec, NeedleDecoderError};
pub use self::bincode_codec::{BincodeCodec, BincodeDecodeError, BincodeEncodeError};
