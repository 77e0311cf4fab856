//! A codec for the size-aware framer whose frames announce their own size.
//!
//! A frame is a four-byte big-endian frame size, counting those four bytes, followed by a
//! payload of at most 256 bytes.

use vstd::prelude::*;

use crate::buf::{lemma_spliced_at_start, spliced};
use crate::codec::length::{be_bytes, be_u32, lemma_be_bytes_round_trip};
use crate::decode::{
    decoder::Decoder,
    frame::Frame,
    maybe_decoded::{FrameSize, MaybeDecoded},
};
use crate::decode::framed_read::{
    after_decoding, decoder_answered, read_next_step, Error, ReadFrameView,
};
use crate::encode::Encoder;

pub mod stream;

verus! {

/// The largest payload a frame holds.
pub const MAX_PAYLOAD: usize = 256;

/// The frame size announced by the first four bytes of `src`.
pub open spec fn announced_frame_size(src: Seq<u8>) -> int
    recommends
        src.len() >= 4,
{
    be_u32(src[0], src[1], src[2], src[3])
}

/// The bytes [`FrameSizeAwareCodec`] encodes for `payload`: the frame size, then the payload.
pub open spec fn encoded_sized_frame(payload: Seq<u8>) -> Seq<u8> {
    be_bytes(payload.len() + 4int) + payload
}

/// An I/O error of kind `InvalidData` with the message `msg`, from `std::io::Error::new`.
#[verifier::external_body]
fn invalid_data(msg: &'static str) -> std::io::Error {
    std::io::Error::new(std::io::ErrorKind::InvalidData, msg)
}

/// A codec whose frames announce their own size, so that the size-aware framer can wait until
/// a whole frame arrived before decoding it.
#[derive(Debug)]
pub struct FrameSizeAwareCodec;

impl Decoder for FrameSizeAwareCodec {
    type Item = Vec<u8>;

    type Error = std::io::Error;

    open spec fn decodes(
        &self,
        src: Seq<u8>,
        r: Result<MaybeDecoded<Vec<u8>>, std::io::Error>,
        next: &Self,
        after: Seq<u8>,
    ) -> bool {
        &&& after == src
        &&& src.len() < 4 ==> (r matches Ok(MaybeDecoded::Incomplete(FrameSize::Unknown)))
        &&& src.len() >= 4 ==> ({
            let size = announced_frame_size(src);
            if src.len() < size {
                r matches Ok(MaybeDecoded::Incomplete(FrameSize::Known(n))) && n == size
            } else if size < 4 || size - 4 > MAX_PAYLOAD {
                r is Err
            } else {
                r matches Ok(MaybeDecoded::Frame(f)) && f.consumed() == size && f.decoded()@
                    == src.subrange(4, size)
            }
        })
    }

    fn decode(&mut self, src: &mut [u8]) -> Result<MaybeDecoded<Self::Item>, Self::Error> {
        let bytes: &[u8] = src;
        if bytes.len() < 4 {
            return Ok(MaybeDecoded::Incomplete(FrameSize::Unknown));
        }
        let frame_size: u32 = (bytes[0] as u32) * 16777216 + (bytes[1] as u32) * 65536 + (
        bytes[2] as u32) * 256 + (bytes[3] as u32);
        let frame_size = frame_size as usize;
        if bytes.len() < frame_size {
            return Ok(MaybeDecoded::Incomplete(FrameSize::Known(frame_size)));
        }
        if frame_size < 4 {
            return Err(invalid_data("Frame size smaller than its own length prefix"));
        }
        if frame_size - 4 > MAX_PAYLOAD {
            return Err(invalid_data("Frame too large. Max 256 bytes"));
        }
        let item = vstd::slice::slice_to_vec(&bytes[4..frame_size]);
        Ok(MaybeDecoded::Frame(Frame::new(frame_size, item)))
    }

    fn decode_eof(&mut self, src: &mut [u8]) -> Result<MaybeDecoded<Self::Item>, Self::Error> {
        self.decode(src)
    }
}

impl Encoder<Vec<u8>> for FrameSizeAwareCodec {
    type Error = std::io::Error;

    open spec fn encodes(
        &self,
        item: Vec<u8>,
        dst: Seq<u8>,
        r: Result<usize, std::io::Error>,
        next: &Self,
        after: Seq<u8>,
    ) -> bool {
        if item@.len() > MAX_PAYLOAD || dst.len() < item@.len() + 4 {
            r is Err && after == dst
        } else {
            r matches Ok(n) && n == item@.len() + 4 && after == spliced(
                dst,
                0,
                encoded_sized_frame(item@),
            )
        }
    }

    fn encode(&mut self, item: Vec<u8>, dst: &mut [u8]) -> Result<usize, Self::Error> {
        let item_size = item.len();
        if item_size > MAX_PAYLOAD {
            return Err(invalid_data("Frame too large. Max 256 bytes"));
        }
        let frame_size = item_size + 4;
        if dst.len() < frame_size {
            return Err(invalid_data("Destination buffer too small"));
        }
        let ghost orig = dst@;
        let n: u32 = frame_size as u32;
        dst[0] = ((n / 16777216) % 256) as u8;
        dst[1] = ((n / 65536) % 256) as u8;
        dst[2] = ((n / 256) % 256) as u8;
        dst[3] = (n % 256) as u8;
        crate::buf::copy_into(dst, 4, item.as_slice());
        assert(dst@ =~= spliced(orig, 0, encoded_sized_frame(item@)));
        Ok(frame_size)
    }
}

/// A payload of at most 256 bytes, encoded and followed by any bytes, decodes back to the same
/// payload and consumes exactly the encoded bytes.
pub proof fn lemma_sized_frame_round_trip(payload: Seq<u8>, rest: Seq<u8>)
    requires
        payload.len() <= MAX_PAYLOAD,
    ensures
        announced_frame_size(encoded_sized_frame(payload) + rest) == payload.len() + 4,
        (encoded_sized_frame(payload) + rest).subrange(4, payload.len() + 4int) == payload,
{
    let src = encoded_sized_frame(payload) + rest;
    let size: int = payload.len() + 4int;
    lemma_be_bytes_round_trip(size);
    assert(src[0] == be_bytes(size)[0]);
    assert(src[1] == be_bytes(size)[1]);
    assert(src[2] == be_bytes(size)[2]);
    assert(src[3] == be_bytes(size)[3]);
    assert(src.subrange(4, size) =~= payload);
}


/// A size-aware framer whose unconsumed bytes start with a frame of this codec, holding a
/// payload of at most 256 bytes, hands that payload out in its next step with a
/// [`FrameSizeAwareCodec`].
pub proof fn lemma_size_aware_framer_reads_sized_frame<I>(
    s: ReadFrameView,
    d: FrameSizeAwareCodec,
    read: Option<Result<usize, I>>,
    r: Result<Option<Vec<u8>>, Error<I, std::io::Error>>,
    d2: FrameSizeAwareCodec,
    t: ReadFrameView,
    payload: Seq<u8>,
    rest: Seq<u8>,
)
    requires
        s.is_framable,
        s.framable_bytes() == encoded_sized_frame(payload) + rest,
        payload.len() <= MAX_PAYLOAD,
        read_next_step(s, d, read, r, d2, t),
    ensures
        r matches Ok(Some(item)) && item@ == payload,
{
    lemma_sized_frame_round_trip(payload, rest);
    let (res, after) = choose|
        res: Result<MaybeDecoded<Vec<u8>>, std::io::Error>,
        after: Seq<u8>,
    |
        #[trigger] decoder_answered(d, s.eof, s.framable_bytes(), res, d2, after)
            && after.len() == s.framable() && (res matches Ok(MaybeDecoded::Frame(f))
            ==> 0 < f.consumed() <= s.framable()) && after_decoding(s, res, after, r, t);
    assert(decoder_answered(d, s.eof, s.framable_bytes(), res, d2, after));
}

/// Encoding with a [`FrameSizeAwareCodec`] succeeds exactly when the payload holds at most 256
/// bytes and `dst` has room for it and the four-byte frame size. It then reports those
/// `len + 4` bytes, which hold that frame size in big-endian order followed by the payload, and
/// leaves the rest of `dst` as it was; a refused encoding leaves `dst` untouched.
pub proof fn lemma_sized_frame_encode_exact(
    c: FrameSizeAwareCodec,
    item: Vec<u8>,
    dst: Seq<u8>,
    r: Result<usize, std::io::Error>,
    next: FrameSizeAwareCodec,
    after: Seq<u8>,
)
    requires
        c.encodes(item, dst, r, &next, after),
    ensures
        (r is Ok) <==> item@.len() <= 256 && item@.len() + 4 <= dst.len(),
        r matches Ok(n) ==> n == item@.len() + 4 && after.len() == dst.len() && be_u32(
            after[0],
            after[1],
            after[2],
            after[3],
        ) == n && after.subrange(4, n as int) == item@ && after.subrange(n as int, dst.len() as int)
            == dst.subrange(n as int, dst.len() as int),
        r is Err ==> after == dst,
{
    if r is Ok {
        let frame = encoded_sized_frame(item@);
        let n: int = item@.len() + 4int;
        lemma_spliced_at_start(dst, frame);
        lemma_be_bytes_round_trip(n);
        assert(after.subrange(0, n) == frame);
        assert(after[0] == frame[0] && after[1] == frame[1] && after[2] == frame[2] && after[3]
            == frame[3]);
        assert(after.subrange(4, n) =~= frame.subrange(4, n));
        assert(frame.subrange(4, n) =~= item@);
    }
}

/// A [`FrameSizeAwareCodec`] decodes exactly what the frame size at the start of the bytes
/// announces: with fewer than four bytes it cannot tell the size; with fewer bytes than
/// announced it asks for the announced size; otherwise it hands out the payload after the four
/// size bytes, consuming the announced size, unless that size is smaller than four bytes or
/// announces more than 256 bytes of payload, which it refuses. It never changes the bytes.
pub proof fn lemma_sized_frame_decode_exact(
    c: FrameSizeAwareCodec,
    src: Seq<u8>,
    r: Result<MaybeDecoded<Vec<u8>>, std::io::Error>,
    next: FrameSizeAwareCodec,
    after: Seq<u8>,
)
    requires
        c.decodes(src, r, &next, after),
    ensures
        after == src,
        (r matches Ok(MaybeDecoded::Incomplete(FrameSize::Unknown))) <==> src.len() < 4,
        r matches Ok(MaybeDecoded::Incomplete(FrameSize::Known(k))) ==> src.len() >= 4 && k
            == be_u32(src[0], src[1], src[2], src[3]) && src.len() < k,
        r matches Ok(MaybeDecoded::Frame(f)) ==> src.len() >= 4 && f.consumed() == be_u32(
            src[0],
            src[1],
            src[2],
            src[3],
        ) && 4 <= f.consumed() <= src.len() && f.consumed() <= 260 && f.decoded()@
            == src.subrange(4, f.consumed() as int),
        r is Err <==> src.len() >= 4 && be_u32(src[0], src[1], src[2], src[3]) <= src.len() && (
        be_u32(src[0], src[1], src[2], src[3]) < 4 || be_u32(src[0], src[1], src[2], src[3])
            > 260),
{
}

} // verus!
