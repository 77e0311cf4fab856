//! The errors of the bincode codec for `tokio_util`'s framing, which reads from and writes to
//! growable buffers.

use vstd::prelude::*;

use ::bincode::error::{DecodeError, EncodeError};

verus! {

#[verifier::external_type_specification]
#[verifier::external_body]
pub struct ExIoError(std::io::Error);

/// An error that can occur when decoding a sequence of bytes with a payload length prefix into
/// a bincode data structure.
#[derive(Debug)]
pub enum BincodeDecodeError {
    /// An IO error occurred.
    IO(std::io::Error),
    /// A Bincode error occurred.
    Decode(DecodeError),
}

/// An error that can occur when encoding a bincode data structure into a sequence of bytes
/// with a payload length prefix.
#[derive(Debug)]
pub enum BincodeEncodeError {
    /// An IO error occurred.
    IO(std::io::Error),
    /// A Bincode error occurred.
    Encode(EncodeError),
    /// The payload size is greater than u32::MAX.
    PayloadTooLarge,
}

impl From<std::io::Error> for BincodeDecodeError {
    fn from(err: std::io::Error) -> (r: Self)
        ensures
            r == BincodeDecodeError::IO(err),
    {
        BincodeDecodeError::IO(err)
    }
}

impl vstd::std_specs::convert::FromSpecImpl<std::io::Error> for BincodeDecodeError {
    open spec fn obeys_from_spec() -> bool {
        true
    }

    open spec fn from_spec(err: std::io::Error) -> Self {
        BincodeDecodeError::IO(err)
    }
}

impl From<std::io::Error> for BincodeEncodeError {
    fn from(err: std::io::Error) -> (r: Self)
        ensures
            r == BincodeEncodeError::IO(err),
    {
        BincodeEncodeError::IO(err)
    }
}

impl vstd::std_specs::convert::FromSpecImpl<std::io::Error> for BincodeEncodeError {
    open spec fn obeys_from_spec() -> bool {
        true
    }

    open spec fn from_spec(err: std::io::Error) -> Self {
        BincodeEncodeError::IO(err)
    }
}

} // verus!
