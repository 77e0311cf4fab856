//! Length codec for encoding and decoding bytes with a length prefix.

use vstd::prelude::*;

use crate::buf::{copy_into, lemma_spliced_at_start, spliced};
use crate::decode::{Decoder, DecoderOwned};
use crate::encode::Encoder;
use crate::framed_read::{decoder_step_owned, read_frame_step, FramedReadError, ReadFrameView};

pub mod stream;

verus! {

/// The size of the length prefix in bytes.
pub const SIZE_OF_LENGTH: usize = 4;

/// The number that four bytes encode in big-endian order.
pub open spec fn be_u32(b0: u8, b1: u8, b2: u8, b3: u8) -> int {
    b0 * 16777216 + b1 * 65536 + b2 * 256 + b3
}

/// The four big-endian bytes of `n`.
pub open spec fn be_bytes(n: int) -> Seq<u8> {
    seq![
        ((n / 16777216) % 256) as u8,
        ((n / 65536) % 256) as u8,
        ((n / 256) % 256) as u8,
        (n % 256) as u8,
    ]
}

/// What [`LengthCodec::decode`] makes of `src`: the payload announced by the big-endian
/// length prefix and the number of bytes of prefix and payload, once all of them arrived.
pub open spec fn decoded_length_frame(src: Seq<u8>) -> Option<(Seq<u8>, int)> {
    if src.len() < 4 {
        None
    } else {
        let len = be_u32(src[0], src[1], src[2], src[3]);
        if src.len() < len + 4 {
            None
        } else {
            Some((src.subrange(4, len + 4), len + 4))
        }
    }
}

/// The bytes [`LengthCodec::encode`] writes for `payload`: its length in four big-endian
/// bytes, then the payload.
pub open spec fn encoded_length_frame(payload: Seq<u8>) -> Seq<u8> {
    be_bytes(payload.len() as int) + payload
}

/// The four big-endian bytes of a number that fits in a `u32` encode that number.
pub proof fn lemma_be_bytes_round_trip(n: int)
    requires
        0 <= n <= u32::MAX,
    ensures
        be_u32(be_bytes(n)[0], be_bytes(n)[1], be_bytes(n)[2], be_bytes(n)[3]) == n,
{
    let m: u32 = n as u32;
    assert(((m / 16777216) % 256) * 16777216 + ((m / 65536) % 256) * 65536 + ((m / 256) % 256)
        * 256 + m % 256 == m) by (bit_vector);
}

/// A payload whose length fits in a `u32`, encoded and followed by any bytes, decodes back to
/// the same payload and consumes exactly the encoded bytes.
pub proof fn lemma_length_round_trip(payload: Seq<u8>, rest: Seq<u8>)
    requires
        payload.len() <= u32::MAX,
    ensures
        decoded_length_frame(encoded_length_frame(payload) + rest) == Some(
            (payload, payload.len() + 4int),
        ),
{
    let src = encoded_length_frame(payload) + rest;
    lemma_be_bytes_round_trip(payload.len() as int);
    assert(src[0] == be_bytes(payload.len() as int)[0]);
    assert(src[1] == be_bytes(payload.len() as int)[1]);
    assert(src[2] == be_bytes(payload.len() as int)[2]);
    assert(src[3] == be_bytes(payload.len() as int)[3]);
    assert(src.subrange(4, payload.len() + 4int) =~= payload);
}

/// A codec that decodes a sequence of bytes with a length prefix into a sequence of bytes and encodes a sequence of bytes into a sequence of bytes with a length prefix.
#[derive(Debug, Clone, Copy)]
pub struct LengthCodec;

impl Default for LengthCodec {
    fn default() -> (r: Self)
        ensures
            r == LengthCodec,
    {
        Self::new()
    }
}

/// A [`LengthCodec`] holds no state: any two are the same codec, so decoding and encoding
/// never change it and every codec decodes and encodes alike.
pub proof fn lemma_length_codec_holds_no_state(a: LengthCodec, b: LengthCodec)
    ensures
        a == b,
{
}

impl LengthCodec {
    /// Creates a new [`LengthCodec`].
    pub fn new() -> (r: Self)
        ensures
            r == LengthCodec,
    {
        Self {  }
    }

    /// Finds the length-prefixed frame at the start of `src`.
    pub fn decode_frame<'buf>(&self, src: &'buf [u8]) -> (r: Option<(&'buf [u8], usize)>)
        ensures
            match decoded_length_frame(src@) {
                Some((payload, n)) => r matches Some((item, m)) && item@ == payload && m == n,
                None => r is None,
            },
            r matches Some((_, m)) ==> m <= src@.len(),
    {
        if src.len() < SIZE_OF_LENGTH {
            return None;
        }
        let len: u64 = (src[0] as u64) * 16777216 + (src[1] as u64) * 65536 + (src[2] as u64) * 256
            + (src[3] as u64);
        let size: u64 = len + 4;
        if (src.len() as u64) < size {
            return None;
        }
        let size = size as usize;
        Some((&src[4..size], size))
    }
}

impl<'buf> Decoder<'buf> for LengthCodec {
    type Item = &'buf [u8];

    type Error = core::convert::Infallible;

    open spec fn decodes(
        &self,
        src: Seq<u8>,
        r: Result<Option<(&'buf [u8], usize)>, core::convert::Infallible>,
        next: &Self,
        after: Seq<u8>,
    ) -> bool {
        &&& after == src
        &&& match decoded_length_frame(src) {
            Some((payload, n)) => r matches Ok(Some((item, m))) && item@ == payload && m == n,
            None => r matches Ok(None),
        }
    }

    fn decode(&mut self, src: &'buf mut [u8]) -> Result<Option<(Self::Item, usize)>, Self::Error> {
        let bytes: &'buf [u8] = src;
        Ok(self.decode_frame(bytes))
    }

    fn decode_eof(&mut self, src: &'buf mut [u8]) -> Result<Option<(Self::Item, usize)>, Self::Error> {
        self.decode(src)
    }
}

/// An error that can occur when encoding a sequence of bytes into a sequence of bytes with a length prefix.
#[derive(Debug)]
pub enum LengthEncodeError {
    /// The input buffer is too small to fit the encoded line.
    BufferTooSmall,
    /// The payload size is greater than u32::MAX.
    PayloadTooLarge,
}

/// Writes the length prefix and `item` at the start of `dst`.
fn encode_length_frame(item: &[u8], dst: &mut [u8]) -> (r: Result<usize, LengthEncodeError>)
    ensures
        match r {
            Ok(n) => n == item@.len() + 4 && n <= old(dst)@.len() && item@.len() <= u32::MAX
                && final(dst)@ == spliced(old(dst)@, 0, encoded_length_frame(item@)),
            Err(LengthEncodeError::PayloadTooLarge) => item@.len() > u32::MAX && final(dst)@
                == old(dst)@,
            Err(LengthEncodeError::BufferTooSmall) => item@.len() <= u32::MAX && old(dst)@.len()
                < item@.len() + 4 && final(dst)@ == old(dst)@,
        },
{
    if item.len() as u64 > 0xffff_ffffu64 {
        return Err(LengthEncodeError::PayloadTooLarge);
    }
    if dst.len() < SIZE_OF_LENGTH || dst.len() - SIZE_OF_LENGTH < item.len() {
        return Err(LengthEncodeError::BufferTooSmall);
    }
    let ghost orig = dst@;
    let n: u64 = item.len() as u64;
    let prefix = [
        ((n / 16777216) % 256) as u8,
        ((n / 65536) % 256) as u8,
        ((n / 256) % 256) as u8,
        (n % 256) as u8,
    ];
    assert(prefix@ =~= be_bytes(item@.len() as int));
    copy_into(dst, 0, &prefix);
    copy_into(dst, SIZE_OF_LENGTH, item);
    assert(dst@ =~= spliced(orig, 0, encoded_length_frame(item@)));
    Ok(item.len() + SIZE_OF_LENGTH)
}

impl<'a> Encoder<&'a [u8]> for LengthCodec {
    type Error = LengthEncodeError;

    open spec fn encodes(
        &self,
        item: &'a [u8],
        dst: Seq<u8>,
        r: Result<usize, LengthEncodeError>,
        next: &Self,
        after: Seq<u8>,
    ) -> bool {
        match r {
            Ok(n) => item@.len() <= u32::MAX && n == item@.len() + 4 && n <= dst.len() && after
                == spliced(dst, 0, encoded_length_frame(item@)),
            Err(LengthEncodeError::PayloadTooLarge) => item@.len() > u32::MAX && after == dst,
            Err(LengthEncodeError::BufferTooSmall) => item@.len() <= u32::MAX && dst.len()
                < item@.len() + 4 && after == dst,
        }
    }

    fn encode(&mut self, item: &'a [u8], dst: &mut [u8]) -> Result<usize, Self::Error> {
        encode_length_frame(item, dst)
    }
}

/// An owned [`LengthCodec`]: decoded payloads of at most `N` bytes are copied out.
#[derive(Debug, Clone, Copy)]
pub struct LengthCodecOwned<const N: usize> {
    inner: LengthCodec,
}

impl<const N: usize> View for LengthCodecOwned<N> {
    /// The codec whose payloads are copied out.
    type V = LengthCodec;

    closed spec fn view(&self) -> LengthCodec {
        self.inner
    }
}

impl<const N: usize> Default for LengthCodecOwned<N> {
    fn default() -> (r: Self)
        ensures
            r@ == LengthCodec,
    {
        Self::new()
    }
}

/// A [`LengthCodecOwned`] holds no state: any two of the same size are the same codec.
pub proof fn lemma_length_codec_owned_holds_no_state<const N: usize>(
    a: LengthCodecOwned<N>,
    b: LengthCodecOwned<N>,
)
    ensures
        a == b,
{
}

impl<const N: usize> LengthCodecOwned<N> {
    /// Creates a new [`LengthCodecOwned`].
    pub fn new() -> (r: Self)
        ensures
            r@ == LengthCodec,
    {
        Self { inner: LengthCodec::new() }
    }
}

impl<const N: usize> From<LengthCodec> for LengthCodecOwned<N> {
    fn from(inner: LengthCodec) -> (r: Self)
        ensures
            r@ == inner,
    {
        Self { inner }
    }
}

impl<const N: usize> vstd::std_specs::convert::FromSpecImpl<LengthCodec> for LengthCodecOwned<N> {
    open spec fn obeys_from_spec() -> bool {
        true
    }

    closed spec fn from_spec(inner: LengthCodec) -> Self {
        Self { inner }
    }
}

impl<const N: usize> DecoderOwned for LengthCodecOwned<N> {
    type Item = Vec<u8>;

    type Error = ();

    open spec fn decodes_owned(
        &self,
        src: Seq<u8>,
        r: Result<Option<(Vec<u8>, usize)>, ()>,
        next: &Self,
        after: Seq<u8>,
    ) -> bool {
        &&& after == src
        &&& match decoded_length_frame(src) {
            Some((payload, n)) => if payload.len() <= N {
                r matches Ok(Some((item, m))) && item@ == payload && m == n
            } else {
                r is Err
            },
            None => r matches Ok(None),
        }
    }

    fn decode_owned(&mut self, src: &mut [u8]) -> Result<Option<(Self::Item, usize)>, Self::Error> {
        let bytes: &[u8] = src;
        match self.inner.decode_frame(bytes) {
            Some((payload, size)) => {
                if payload.len() > N {
                    return Err(());
                }
                Ok(Some((vstd::slice::slice_to_vec(payload), size)))
            },
            None => Ok(None),
        }
    }

    fn decode_eof_owned(&mut self, src: &mut [u8]) -> Result<Option<(Self::Item, usize)>, Self::Error> {
        self.decode_owned(src)
    }
}

impl<const N: usize> Encoder<Vec<u8>> for LengthCodecOwned<N> {
    type Error = LengthEncodeError;

    open spec fn encodes(
        &self,
        item: Vec<u8>,
        dst: Seq<u8>,
        r: Result<usize, LengthEncodeError>,
        next: &Self,
        after: Seq<u8>,
    ) -> bool {
        match r {
            Ok(n) => item@.len() <= u32::MAX && n == item@.len() + 4 && n <= dst.len() && after
                == spliced(dst, 0, encoded_length_frame(item@)),
            Err(LengthEncodeError::PayloadTooLarge) => item@.len() > u32::MAX && after == dst,
            Err(LengthEncodeError::BufferTooSmall) => item@.len() <= u32::MAX && dst.len()
                < item@.len() + 4 && after == dst,
        }
    }

    fn encode(&mut self, item: Vec<u8>, dst: &mut [u8]) -> Result<usize, Self::Error> {
        encode_length_frame(item.as_slice(), dst)
    }
}

/// A framer whose unconsumed bytes start with a length-prefixed frame whose payload holds at
/// most `N` bytes hands that payload out in its next decoding step with a [`LengthCodecOwned`],
/// consuming exactly the frame.
pub proof fn lemma_framer_reads_length_frame<const N: usize, I>(
    s: ReadFrameView,
    d: LengthCodecOwned<N>,
    r: Result<Option<Vec<u8>>, FramedReadError<I, ()>>,
    d2: LengthCodecOwned<N>,
    t: ReadFrameView,
    payload: Seq<u8>,
    rest: Seq<u8>,
)
    requires
        s.is_framable,
        !s.shift,
        s.framable_bytes() == encoded_length_frame(payload) + rest,
        payload.len() <= N,
        payload.len() <= u32::MAX,
        s.consistent(),
        s.buffer.len() <= usize::MAX,
        read_frame_step(s, None::<Result<usize, I>>, r, t),
        decoder_step_owned(s, d, r, d2, t),
    ensures
        r matches Ok(Some(item)) && item@ == payload,
        t.total_consumed == s.total_consumed + payload.len() + 4,
{
    lemma_length_round_trip(payload, rest);
}

/// A payload of at most `N` bytes that a [`LengthCodecOwned`] encoded into a buffer is read
/// back by a framer whose unconsumed bytes start with the `n` bytes the encoder reported, in its
/// next decoding step with a [`LengthCodecOwned`], which consumes exactly those bytes.
pub proof fn lemma_length_frame_round_trip<const N: usize, I>(
    encoder: LengthCodecOwned<N>,
    item: Vec<u8>,
    dst: Seq<u8>,
    n: usize,
    encoder_after: LengthCodecOwned<N>,
    written: Seq<u8>,
    s: ReadFrameView,
    d: LengthCodecOwned<N>,
    r: Result<Option<Vec<u8>>, FramedReadError<I, ()>>,
    d2: LengthCodecOwned<N>,
    t: ReadFrameView,
    rest: Seq<u8>,
)
    requires
        encoder.encodes(item, dst, Ok(n), &encoder_after, written),
        item@.len() <= N,
        s.is_framable,
        !s.shift,
        s.framable_bytes() == written.subrange(0, n as int) + rest,
        s.consistent(),
        s.buffer.len() <= usize::MAX,
        read_frame_step(s, None::<Result<usize, I>>, r, t),
        decoder_step_owned(s, d, r, d2, t),
    ensures
        r matches Ok(Some(i)) && i@ == item@,
        t.total_consumed == s.total_consumed + n,
{
    assert(written.subrange(0, n as int) =~= encoded_length_frame(item@));
    lemma_framer_reads_length_frame(s, d, r, d2, t, item@, rest);
}

/// What encoding a payload as a length-prefixed frame into `dst` leaves there, when it fits:
/// the payload's length in the four big-endian bytes at the start, the payload right after
/// them, and the rest of `dst` as it was.
proof fn lemma_length_frame_written(payload: Seq<u8>, dst: Seq<u8>)
    requires
        payload.len() <= u32::MAX,
        payload.len() + 4 <= dst.len(),
    ensures
        ({
            let after = spliced(dst, 0, encoded_length_frame(payload));
            let n: int = payload.len() + 4int;
            &&& after.len() == dst.len()
            &&& be_u32(after[0], after[1], after[2], after[3]) == payload.len()
            &&& after.subrange(4, n) == payload
            &&& after.subrange(n, dst.len() as int) == dst.subrange(n, dst.len() as int)
        }),
{
    let frame = encoded_length_frame(payload);
    lemma_spliced_at_start(dst, frame);
    lemma_be_bytes_round_trip(payload.len() as int);
    let after = spliced(dst, 0, frame);
    assert(after.subrange(0, frame.len() as int) == frame);
    assert(after[0] == frame[0] && after[1] == frame[1] && after[2] == frame[2] && after[3]
        == frame[3]);
    let n: int = payload.len() + 4int;
    assert(after.subrange(4, n) =~= frame.subrange(4, n));
    assert(frame.subrange(4, n) =~= payload);
}

/// Encoding with a [`LengthCodec`] succeeds exactly when the payload's length fits in a `u32`
/// and `dst` has room for the four-byte prefix and the payload. It then reports those
/// `len + 4` bytes, which hold the payload's length in big-endian order followed by the
/// payload, and leaves the rest of `dst` as it was. A payload too long for a `u32` is refused
/// as too large; otherwise `dst` is too small. A refused encoding leaves `dst` untouched.
pub proof fn lemma_length_encode_exact<'a>(
    c: LengthCodec,
    item: &'a [u8],
    dst: Seq<u8>,
    r: Result<usize, LengthEncodeError>,
    next: LengthCodec,
    after: Seq<u8>,
)
    requires
        c.encodes(item, dst, r, &next, after),
    ensures
        (r is Ok) <==> item@.len() <= u32::MAX && item@.len() + 4 <= dst.len(),
        (r matches Err(LengthEncodeError::PayloadTooLarge)) <==> item@.len() > u32::MAX,
        r matches Ok(n) ==> n == item@.len() + 4 && after.len() == dst.len() && be_u32(
            after[0],
            after[1],
            after[2],
            after[3],
        ) == item@.len() && after.subrange(4, n as int) == item@ && after.subrange(
            n as int,
            dst.len() as int,
        ) == dst.subrange(n as int, dst.len() as int),
        r is Err ==> after == dst,
{
    if r is Ok {
        lemma_length_frame_written(item@, dst);
    }
}

/// Encoding with a [`LengthCodecOwned`] succeeds exactly when the payload's length fits in a
/// `u32` and `dst` has room for the four-byte prefix and the payload. It then reports those
/// `len + 4` bytes, which hold the payload's length in big-endian order followed by the
/// payload, and leaves the rest of `dst` as it was. A payload too long for a `u32` is refused
/// as too large; otherwise `dst` is too small. A refused encoding leaves `dst` untouched.
pub proof fn lemma_length_owned_encode_exact<const N: usize>(
    c: LengthCodecOwned<N>,
    item: Vec<u8>,
    dst: Seq<u8>,
    r: Result<usize, LengthEncodeError>,
    next: LengthCodecOwned<N>,
    after: Seq<u8>,
)
    requires
        c.encodes(item, dst, r, &next, after),
    ensures
        (r is Ok) <==> item@.len() <= u32::MAX && item@.len() + 4 <= dst.len(),
        (r matches Err(LengthEncodeError::PayloadTooLarge)) <==> item@.len() > u32::MAX,
        r matches Ok(n) ==> n == item@.len() + 4 && after.len() == dst.len() && be_u32(
            after[0],
            after[1],
            after[2],
            after[3],
        ) == item@.len() && after.subrange(4, n as int) == item@ && after.subrange(
            n as int,
            dst.len() as int,
        ) == dst.subrange(n as int, dst.len() as int),
        r is Err ==> after == dst,
{
    if r is Ok {
        lemma_length_frame_written(item@, dst);
    }
}

/// A [`LengthCodecOwned`] refuses a frame only when the length its prefix announces is more
/// than `N`; a frame whose payload holds at most `N` bytes is handed out, and bytes that do not
/// yet hold a whole frame give no frame and no error.
pub proof fn lemma_length_owned_refuses_only_large<const N: usize>(
    c: LengthCodecOwned<N>,
    src: Seq<u8>,
    r: Result<Option<(Vec<u8>, usize)>, ()>,
    next: LengthCodecOwned<N>,
    after: Seq<u8>,
)
    requires
        c.decodes_owned(src, r, &next, after),
    ensures
        r is Err <==> src.len() >= 4 && be_u32(src[0], src[1], src[2], src[3]) > N && src.len()
            >= be_u32(src[0], src[1], src[2], src[3]) + 4,
        r matches Ok(None) <==> src.len() < 4 || src.len() < be_u32(src[0], src[1], src[2], src[3])
            + 4,
{
}

} // verus!
