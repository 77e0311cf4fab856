//! Bytes codecs for encoding and decoding bytes.

use vstd::prelude::*;

use crate::buf::{copy_into, lemma_spliced_at_start, spliced};
use crate::decode::{Decoder, DecoderOwned};
use crate::encode::Encoder;
use crate::framed_read::{decoder_step, read_frame_step, FramedReadError, ReadFrameView};

verus! {

/// A codec that decodes a sequence of bytes into a sequence of bytes and encodes a sequence of bytes into a sequence of bytes.
///
/// Decoding hands out every byte of the buffer as one frame; an empty buffer holds no frame,
/// so a framer over a finished stream ends instead of handing out empty frames.
#[derive(Debug, Clone, Copy)]
pub struct BytesCodec {}

impl Default for BytesCodec {
    fn default() -> (r: Self)
        ensures
            r == (BytesCodec {  }),
    {
        Self::new()
    }
}

/// A [`BytesCodec`] holds no state: any two are the same codec, so decoding and encoding
/// never change it and every codec decodes and encodes alike.
pub proof fn lemma_bytes_codec_holds_no_state(a: BytesCodec, b: BytesCodec)
    ensures
        a == b,
{
}

impl BytesCodec {
    /// Creates a new [`BytesCodec`].
    pub fn new() -> (r: Self)
        ensures
            r == (BytesCodec {  }),
    {
        Self {  }
    }
}

impl<'buf> Decoder<'buf> for BytesCodec {
    type Item = &'buf [u8];

    type Error = core::convert::Infallible;

    open spec fn decodes(
        &self,
        src: Seq<u8>,
        r: Result<Option<(&'buf [u8], usize)>, core::convert::Infallible>,
        next: &Self,
        after: Seq<u8>,
    ) -> bool {
        &&& after == src
        &&& src.len() == 0 ==> (r matches Ok(None))
        &&& src.len() > 0 ==> (r matches Ok(Some((item, n))) && item@ == src && n == src.len())
    }

    fn decode(&mut self, src: &'buf mut [u8]) -> Result<Option<(Self::Item, usize)>, Self::Error> {
        let bytes: &'buf [u8] = src;
        let n = bytes.len();
        if n == 0 {
            return Ok(None);
        }
        Ok(Some((bytes, n)))
    }

    fn decode_eof(&mut self, src: &'buf mut [u8]) -> Result<Option<(Self::Item, usize)>, Self::Error> {
        self.decode(src)
    }
}

/// An error that can occur when encoding a sequence of bytes.
#[derive(Debug)]
pub enum BytesEncodeError {
    /// The input buffer is too small to fit the sequence of bytes.
    BufferTooSmall,
}

/// Copies `item` to the start of `dst`.
fn encode_bytes(item: &[u8], dst: &mut [u8]) -> (r: Result<usize, BytesEncodeError>)
    ensures
        match r {
            Ok(n) => n == item@.len() && n <= old(dst)@.len() && final(dst)@ == spliced(
                old(dst)@,
                0,
                item@,
            ),
            Err(_) => old(dst)@.len() < item@.len() && final(dst)@ == old(dst)@,
        },
{
    let size = item.len();
    if dst.len() < size {
        return Err(BytesEncodeError::BufferTooSmall);
    }
    copy_into(dst, 0, item);
    Ok(size)
}

impl<'a> Encoder<&'a [u8]> for BytesCodec {
    type Error = BytesEncodeError;

    open spec fn encodes(
        &self,
        item: &'a [u8],
        dst: Seq<u8>,
        r: Result<usize, BytesEncodeError>,
        next: &Self,
        after: Seq<u8>,
    ) -> bool {
        match r {
            Ok(n) => n == item@.len() && n <= dst.len() && after == spliced(dst, 0, item@),
            Err(_) => dst.len() < item@.len() && after == dst,
        }
    }

    fn encode(&mut self, item: &'a [u8], dst: &mut [u8]) -> Result<usize, Self::Error> {
        encode_bytes(item, dst)
    }
}

/// An owned [`BytesCodec`]: decoded buffers of at most `N` bytes are copied out.
#[derive(Debug, Clone, Copy)]
pub struct BytesCodecOwned<const N: usize> {
    inner: BytesCodec,
}

impl<const N: usize> View for BytesCodecOwned<N> {
    /// The codec whose frames are copied out.
    type V = BytesCodec;

    closed spec fn view(&self) -> BytesCodec {
        self.inner
    }
}

impl<const N: usize> Default for BytesCodecOwned<N> {
    fn default() -> (r: Self)
        ensures
            r@ == (BytesCodec {  }),
    {
        Self::new()
    }
}

/// A [`BytesCodecOwned`] holds no state: any two of the same size are the same codec.
pub proof fn lemma_bytes_codec_owned_holds_no_state<const N: usize>(
    a: BytesCodecOwned<N>,
    b: BytesCodecOwned<N>,
)
    ensures
        a == b,
{
}

impl<const N: usize> BytesCodecOwned<N> {
    /// Creates a new [`BytesCodecOwned`].
    pub fn new() -> (r: Self)
        ensures
            r@ == (BytesCodec {  }),
    {
        Self { inner: BytesCodec::new() }
    }
}

impl<const N: usize> From<BytesCodec> for BytesCodecOwned<N> {
    fn from(inner: BytesCodec) -> (r: Self)
        ensures
            r@ == inner,
    {
        Self { inner }
    }
}

impl<const N: usize> vstd::std_specs::convert::FromSpecImpl<BytesCodec> for BytesCodecOwned<N> {
    open spec fn obeys_from_spec() -> bool {
        true
    }

    closed spec fn from_spec(inner: BytesCodec) -> Self {
        Self { inner }
    }
}

impl<const N: usize> DecoderOwned for BytesCodecOwned<N> {
    type Item = Vec<u8>;

    type Error = ();

    open spec fn decodes_owned(
        &self,
        src: Seq<u8>,
        r: Result<Option<(Vec<u8>, usize)>, ()>,
        next: &Self,
        after: Seq<u8>,
    ) -> bool {
        &&& after == src
        &&& src.len() == 0 ==> (r matches Ok(None))
        &&& 0 < src.len() <= N ==> (r matches Ok(Some((item, n))) && item@ == src && n
            == src.len())
        &&& src.len() > N ==> r is Err
    }

    fn decode_owned(&mut self, src: &mut [u8]) -> Result<Option<(Self::Item, usize)>, Self::Error> {
        let bytes: &[u8] = src;
        if bytes.len() == 0 {
            return Ok(None);
        }
        if bytes.len() > N {
            return Err(());
        }
        let item = vstd::slice::slice_to_vec(bytes);
        Ok(Some((item, bytes.len())))
    }

    fn decode_eof_owned(&mut self, src: &mut [u8]) -> Result<Option<(Self::Item, usize)>, Self::Error> {
        self.decode_owned(src)
    }
}

impl<const N: usize> Encoder<Vec<u8>> for BytesCodecOwned<N> {
    type Error = BytesEncodeError;

    open spec fn encodes(
        &self,
        item: Vec<u8>,
        dst: Seq<u8>,
        r: Result<usize, BytesEncodeError>,
        next: &Self,
        after: Seq<u8>,
    ) -> bool {
        match r {
            Ok(n) => n == item@.len() && n <= dst.len() && after == spliced(dst, 0, item@),
            Err(_) => dst.len() < item@.len() && after == dst,
        }
    }

    fn encode(&mut self, item: Vec<u8>, dst: &mut [u8]) -> Result<usize, Self::Error> {
        encode_bytes(item.as_slice(), dst)
    }
}

/// Bytes, at least one, that a [`BytesCodec`] encoded into a buffer are read back, borrowed
/// from the framer's buffer, by a framer whose unconsumed bytes are exactly the `n` bytes the
/// encoder reported, in its next decoding step with a [`BytesCodec`], which consumes all of
/// them.
pub proof fn lemma_borrowed_bytes_frame_round_trip<'a, 'buf, I>(
    encoder: BytesCodec,
    item: &'a [u8],
    dst: Seq<u8>,
    n: usize,
    encoder_after: BytesCodec,
    written: Seq<u8>,
    s: ReadFrameView,
    d: BytesCodec,
    r: Result<Option<&'buf [u8]>, FramedReadError<I, core::convert::Infallible>>,
    d2: BytesCodec,
    t: ReadFrameView,
)
    requires
        encoder.encodes(item, dst, Ok(n), &encoder_after, written),
        item@.len() > 0,
        s.is_framable,
        !s.shift,
        s.framable_bytes() == written.subrange(0, n as int),
        s.consistent(),
        s.buffer.len() <= usize::MAX,
        read_frame_step(s, None::<Result<usize, I>>, r, t),
        decoder_step::<'buf, BytesCodec, I>(s, d, r, d2, t),
    ensures
        r matches Ok(Some(i)) && i@ == item@,
        t.total_consumed == s.total_consumed + n,
{
    assert(written.subrange(0, n as int) =~= item@);
}

/// Encoding with a [`BytesCodec`] succeeds exactly when `dst` has room for the item. It then
/// reports the item's length, the item stands at the start of `dst` and the rest of `dst` is as
/// it was; a refused encoding leaves `dst` untouched.
pub proof fn lemma_bytes_encode_exact<'a>(
    c: BytesCodec,
    item: &'a [u8],
    dst: Seq<u8>,
    r: Result<usize, BytesEncodeError>,
    next: BytesCodec,
    after: Seq<u8>,
)
    requires
        c.encodes(item, dst, r, &next, after),
    ensures
        (r is Ok) <==> item@.len() <= dst.len(),
        r matches Ok(n) ==> n == item@.len() && after.len() == dst.len() && after.subrange(0, n as int)
            == item@ && after.subrange(n as int, dst.len() as int) == dst.subrange(
            n as int,
            dst.len() as int,
        ),
        r is Err ==> after == dst,
{
    if r is Ok {
        lemma_spliced_at_start(dst, item@);
    }
}

/// Encoding with a [`BytesCodecOwned`] succeeds exactly when `dst` has room for the item. It
/// then reports the item's length, the item stands at the start of `dst` and the rest of `dst`
/// is as it was; a refused encoding leaves `dst` untouched.
pub proof fn lemma_bytes_owned_encode_exact<const N: usize>(
    c: BytesCodecOwned<N>,
    item: Vec<u8>,
    dst: Seq<u8>,
    r: Result<usize, BytesEncodeError>,
    next: BytesCodecOwned<N>,
    after: Seq<u8>,
)
    requires
        c.encodes(item, dst, r, &next, after),
    ensures
        (r is Ok) <==> item@.len() <= dst.len(),
        r matches Ok(n) ==> n == item@.len() && after.len() == dst.len() && after.subrange(0, n as int)
            == item@ && after.subrange(n as int, dst.len() as int) == dst.subrange(
            n as int,
            dst.len() as int,
        ),
        r is Err ==> after == dst,
{
    if r is Ok {
        lemma_spliced_at_start(dst, item@);
    }
}

/// A [`BytesCodec`] hands out every byte it is given as one frame, and a frame exactly when it
/// is given any byte; it never changes the bytes.
pub proof fn lemma_bytes_decode_takes_all<'buf>(
    c: BytesCodec,
    src: Seq<u8>,
    r: Result<Option<(&'buf [u8], usize)>, core::convert::Infallible>,
    next: BytesCodec,
    after: Seq<u8>,
)
    requires
        c.decodes(src, r, &next, after),
    ensures
        after == src,
        (r matches Ok(Some(_))) <==> src.len() > 0,
        r matches Ok(Some((item, n))) ==> item@ == src && n == src.len(),
{
}

/// A [`BytesCodecOwned`] refuses the bytes exactly when there are more than `N` of them; it
/// otherwise hands them all out as one frame when there are any, and never changes them.
pub proof fn lemma_bytes_owned_decode_exact<const N: usize>(
    c: BytesCodecOwned<N>,
    src: Seq<u8>,
    r: Result<Option<(Vec<u8>, usize)>, ()>,
    next: BytesCodecOwned<N>,
    after: Seq<u8>,
)
    requires
        c.decodes_owned(src, r, &next, after),
    ensures
        after == src,
        r is Err <==> src.len() > N,
        (r matches Ok(Some(_))) <==> 0 < src.len() <= N,
        r matches Ok(Some((item, n))) ==> item@ == src && n == src.len(),
{
}

} // verus!
