//! Bincode codec for encoding and decoding bincode data structures with a payload length
//! prefix.
//!
//! The framing is the [`LengthCodec`]'s. Bincode itself encodes the item into the buffer after
//! the prefix and decodes it from a frame's payload; the codec's decisions before and after
//! those calls are made here:
//! - decoding: [`BincodeCodec::frame`] finds the frame, bincode decodes its payload, and
//!   [`BincodeCodec::decoded`] gives the decoder's answer;
//! - encoding: [`BincodeCodec::payload_start`] tells where the payload goes (or that the
//!   buffer is too small), bincode encodes the item there, and
//!   [`BincodeCodec::finish_encode`] writes the prefix and gives the encoder's answer.

use core::marker::PhantomData;

use vstd::prelude::*;

use ::bincode::error::{DecodeError, EncodeError};

pub mod tokio_codec;

use super::length::{
    be_bytes, be_u32, decoded_length_frame, lemma_length_round_trip, LengthCodec, SIZE_OF_LENGTH,
};

verus! {

#[verifier::external_type_specification]
#[verifier::external_body]
pub struct ExBincodeDecodeError(DecodeError);

#[verifier::external_type_specification]
#[verifier::external_body]
pub struct ExBincodeEncodeError(EncodeError);

/// A codec that decodes a sequence of bytes with a payload length prefix into a bincode data
/// structure and encodes a bincode data structure into a sequence of bytes with a payload
/// length prefix.
#[derive(Debug)]
pub struct BincodeCodec<D> {
    length_codec: LengthCodec,
    _de: PhantomData<D>,
}

/// An error that can occur when decoding a sequence of bytes with a payload length prefix into
/// a bincode data structure.
#[derive(Debug)]
pub enum BincodeDecodeError {
    /// A Bincode error occurred.
    Decode(DecodeError),
}

/// An error that can occur when encoding a bincode data structure into a sequence of bytes
/// with a payload length prefix.
#[derive(Debug)]
pub enum BincodeEncodeError {
    /// The input buffer is too small to fit the encoded item.
    BufferTooSmall,
    /// A Bincode error occurred.
    Encode(EncodeError),
    /// The payload size is greater than u32::MAX.
    PayloadTooLarge,
}

impl<D> View for BincodeCodec<D> {
    /// The codec that frames the bincode payloads.
    type V = LengthCodec;

    closed spec fn view(&self) -> LengthCodec {
        self.length_codec
    }
}

/// A [`BincodeCodec`] holds no state: any two for the same item type are the same codec.
pub proof fn lemma_bincode_codec_holds_no_state<D>(a: BincodeCodec<D>, b: BincodeCodec<D>)
    ensures
        a == b,
{
}

impl<D> BincodeCodec<D> {
    /// Creates a new [`BincodeCodec`].
    pub fn new() -> (r: Self)
        ensures
            r@ == LengthCodec,
    {
        Self { length_codec: LengthCodec::new(), _de: PhantomData }
    }

    /// Finds the length-prefixed frame at the start of `src`: its payload holds the bincode
    /// bytes of the next item.
    pub fn frame<'buf>(&self, src: &'buf [u8]) -> (r: Option<(&'buf [u8], usize)>)
        ensures
            match decoded_length_frame(src@) {
                Some((payload, n)) => r matches Some((item, m)) && item@ == payload && m == n,
                None => r is None,
            },
    {
        self.length_codec.decode_frame(src)
    }

    /// How many bytes `src` still lacks to hold the whole frame that its length prefix
    /// announces: `None` while the prefix itself is incomplete, `Some(0)` once the frame is
    /// there.
    pub fn missing(&self, src: &[u8]) -> (r: Option<u64>)
        ensures
            src@.len() < 4 ==> r is None,
            src@.len() >= 4 ==> (r matches Some(m) && m == (if be_u32(src@[0], src@[1], src@[2], src@[3])
                + 4 > src@.len() {
                be_u32(src@[0], src@[1], src@[2], src@[3]) + 4 - src@.len()
            } else {
                0
            })),
            r == Some(0u64) <==> decoded_length_frame(src@) is Some,
    {
        if src.len() < SIZE_OF_LENGTH {
            return None;
        }
        let frame: u64 = (src[0] as u64) * 16777216 + (src[1] as u64) * 65536 + (src[2] as u64)
            * 256 + (src[3] as u64) + 4;
        let have: u64 = src.len() as u64;
        if frame > have {
            Some(frame - have)
        } else {
            Some(0)
        }
    }

    /// The decoder's answer for a frame of `frame_size` bytes, given what bincode made of its
    /// payload: the item with the frame's size, or bincode's error.
    pub fn decoded(frame_size: usize, decoded: Result<(D, usize), DecodeError>) -> (r: Result<
        (D, usize),
        BincodeDecodeError,
    >)
        ensures
            match decoded {
                Ok((item, _)) => r matches Ok((i, n)) && i == item && n == frame_size,
                Err(err) => r == Err::<(D, usize), BincodeDecodeError>(
                    BincodeDecodeError::Decode(err),
                ),
            },
    {
        match decoded {
            Ok((item, _)) => Ok((item, frame_size)),
            Err(err) => Err(BincodeDecodeError::Decode(err)),
        }
    }

    /// Where the encoded item goes in `dst`: right after the length prefix, or an error if
    /// `dst` cannot even hold the prefix.
    pub fn payload_start(&self, dst: &[u8]) -> (r: Result<usize, BincodeEncodeError>)
        ensures
            dst@.len() < 4 ==> r matches Err(BincodeEncodeError::BufferTooSmall),
            dst@.len() >= 4 ==> (r matches Ok(n) && n == 4),
    {
        if dst.len() < SIZE_OF_LENGTH {
            return Err(BincodeEncodeError::BufferTooSmall);
        }
        Ok(SIZE_OF_LENGTH)
    }

    /// Completes encoding once bincode wrote `payload_len` bytes (or failed) after the length
    /// prefix of `dst`: writes the prefix and returns the frame's length.
    pub fn finish_encode(
        &self,
        payload_len: Result<usize, EncodeError>,
        dst: &mut [u8],
    ) -> (r: Result<usize, BincodeEncodeError>)
        requires
            old(dst)@.len() >= 4,
            payload_len matches Ok(n) ==> n + 4 <= old(dst)@.len(),
        ensures
            match payload_len {
                Err(err) => r == Err::<usize, BincodeEncodeError>(BincodeEncodeError::Encode(err))
                    && final(dst)@ == old(dst)@,
                Ok(n) => if n > u32::MAX {
                    r matches Err(BincodeEncodeError::PayloadTooLarge) && final(dst)@ == old(
                        dst,
                    )@
                } else {
                    r matches Ok(m) && m == n + 4 && final(dst)@ == be_bytes(n as int) + old(
                        dst,
                    )@.subrange(4, old(dst)@.len() as int)
                },
            },
    {
        let n = match payload_len {
            Err(err) => return Err(BincodeEncodeError::Encode(err)),
            Ok(n) => n,
        };
        if n as u64 > 0xffff_ffffu64 {
            return Err(BincodeEncodeError::PayloadTooLarge);
        }
        let len: u64 = n as u64;
        dst[0] = ((len / 16777216) % 256) as u8;
        dst[1] = ((len / 65536) % 256) as u8;
        dst[2] = ((len / 256) % 256) as u8;
        dst[3] = (len % 256) as u8;
        assert(dst@ =~= be_bytes(n as int) + old(dst)@.subrange(4, old(dst)@.len() as int));
        Ok(n + SIZE_OF_LENGTH)
    }
}

impl<D> Clone for BincodeCodec<D> {
    fn clone(&self) -> (r: Self)
        ensures
            r@ == self@,
    {
        Self::new()
    }
}

impl<D> Default for BincodeCodec<D> {
    fn default() -> (r: Self)
        ensures
            r@ == LengthCodec,
    {
        Self::new()
    }
}

/// What [`BincodeCodec::finish_encode`] leaves in the buffer is a frame that
/// [`BincodeCodec::frame`] finds again: its payload is the `n` bytes bincode wrote after the
/// prefix, and it spans the length that encoding returned.
pub proof fn lemma_bincode_frame_round_trip(dst: Seq<u8>, n: int)
    requires
        0 <= n <= u32::MAX,
        n + 4 <= dst.len(),
    ensures
        decoded_length_frame(be_bytes(n) + dst.subrange(4, dst.len() as int)) == Some(
            (dst.subrange(4, n + 4), n + 4),
        ),
{
    let payload = dst.subrange(4, n + 4);
    let rest = dst.subrange(n + 4, dst.len() as int);
    lemma_length_round_trip(payload, rest);
    assert(be_bytes(n) + dst.subrange(4, dst.len() as int) =~= (be_bytes(payload.len() as int)
        + payload) + rest);
}

} // verus!
