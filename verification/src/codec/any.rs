//! Any delimiter codecs for encoding and decoding bytes.

use vstd::prelude::*;

use crate::buf::{bytes_occur_at, copy_into, lemma_spliced_at_start, occurs_ending_at, spliced};
use crate::decode::{Decoder, DecoderOwned};
use crate::encode::Encoder;
use crate::framed_read::{
    decoder_step, decoder_step_owned, read_frame_step, FramedReadError, ReadFrameView,
};

pub mod stream;

verus! {

/// Position of the last byte of the first occurrence of `delimiter` in `src` whose last byte
/// is at or after position `from`.
pub open spec fn first_delimiter_end_from(src: Seq<u8>, delimiter: Seq<u8>, from: int) -> Option<
    int,
>
    decreases src.len() - from,
{
    if from < 0 || from >= src.len() {
        None
    } else if occurs_ending_at(src, delimiter, from + 1) {
        Some(from)
    } else {
        first_delimiter_end_from(src, delimiter, from + 1)
    }
}

/// What [`AnyDelimiterCodec::decode`] makes of `src` after `seen` of its bytes were already
/// scanned: the bytes before the first `delimiter` whose last byte is at or after `seen`, and
/// the number of bytes up to and including that delimiter. An empty delimiter ends a frame
/// after every byte.
pub open spec fn decoded_delimited(src: Seq<u8>, delimiter: Seq<u8>, seen: int) -> Option<
    (Seq<u8>, int),
> {
    if src.len() < delimiter.len() {
        None
    } else if delimiter.len() == 0 {
        if 0 <= seen < src.len() {
            Some((src.subrange(0, seen + 1), seen + 1))
        } else {
            None
        }
    } else {
        match first_delimiter_end_from(src, delimiter, seen) {
            Some(i) => Some((src.subrange(0, i + 1 - delimiter.len()), i + 1)),
            None => None,
        }
    }
}

/// How many bytes of `src` count as scanned after [`AnyDelimiterCodec::decode`] found no frame.
pub open spec fn seen_after_no_frame(src: Seq<u8>, delimiter: Seq<u8>, seen: int) -> int {
    if src.len() < delimiter.len() || delimiter.len() == 0 || seen >= src.len() {
        seen
    } else {
        src.len() as int
    }
}

/// The bytes [`AnyDelimiterCodec::encode`] writes for `item`: the item followed by the
/// delimiter.
pub open spec fn encoded_delimited(item: Seq<u8>, delimiter: Seq<u8>) -> Seq<u8> {
    item + delimiter
}

/// A codec that decodes bytes ending with a `delimiter` into bytes and encodes bytes into bytes ending with a `delimiter`.
#[derive(Debug, Clone, Copy)]
pub struct AnyDelimiterCodec<'a> {
    /// The delimiter to search for.
    delimiter: &'a [u8],
    /// The number of bytes of the slice that have been seen so far.
    seen: usize,
}

impl<'a> View for AnyDelimiterCodec<'a> {
    /// The delimiter and the number of bytes of the buffer already scanned.
    type V = (Seq<u8>, int);

    closed spec fn view(&self) -> (Seq<u8>, int) {
        (self.delimiter@, self.seen as int)
    }
}

/// Scanning goes on from one position to the next past a position where no delimiter ends.
proof fn lemma_first_delimiter_step(src: Seq<u8>, delimiter: Seq<u8>, from: int)
    requires
        0 <= from < src.len(),
        !occurs_ending_at(src, delimiter, from + 1),
    ensures
        first_delimiter_end_from(src, delimiter, from) == first_delimiter_end_from(
            src,
            delimiter,
            from + 1,
        ),
{
}

/// A found delimiter ends inside the buffer, at or after where the scan started.
pub proof fn lemma_first_delimiter_bounds(src: Seq<u8>, delimiter: Seq<u8>, from: int)
    ensures
        first_delimiter_end_from(src, delimiter, from) matches Some(i) ==> from <= i < src.len()
            && occurs_ending_at(src, delimiter, i + 1),
    decreases src.len() - from,
{
    if 0 <= from < src.len() && !occurs_ending_at(src, delimiter, from + 1) {
        lemma_first_delimiter_bounds(src, delimiter, from + 1);
    }
}

/// The scan from `from` finds the delimiter ending at `at` when it finds none ending before.
proof fn lemma_first_delimiter_at(src: Seq<u8>, delimiter: Seq<u8>, from: int, at: int)
    requires
        0 <= from <= at < src.len(),
        occurs_ending_at(src, delimiter, at + 1),
        forall|p: int| from < p <= at ==> !#[trigger] occurs_ending_at(src, delimiter, p),
    ensures
        first_delimiter_end_from(src, delimiter, from) == Some(at),
    decreases at - from,
{
    if from < at {
        lemma_first_delimiter_at(src, delimiter, from + 1, at);
    }
}

/// No delimiter ends at or after `from` in `src` when the scan from `from` finds none.
proof fn lemma_no_delimiter_from(src: Seq<u8>, delimiter: Seq<u8>, from: int)
    requires
        0 <= from,
        first_delimiter_end_from(src, delimiter, from) is None,
    ensures
        forall|p: int| from < p <= src.len() ==> !#[trigger] occurs_ending_at(src, delimiter, p),
    decreases src.len() - from,
{
    if from < src.len() {
        lemma_no_delimiter_from(src, delimiter, from + 1);
    }
}

/// Scanning from `from` or from `to` finds the same delimiter when none ends in between.
proof fn lemma_skip_delimiter_free(src: Seq<u8>, delimiter: Seq<u8>, from: int, to: int)
    requires
        0 <= from <= to <= src.len(),
        forall|p: int| from < p <= to ==> !#[trigger] occurs_ending_at(src, delimiter, p),
    ensures
        first_delimiter_end_from(src, delimiter, from) == first_delimiter_end_from(
            src,
            delimiter,
            to,
        ),
    decreases to - from,
{
    if from < to {
        lemma_skip_delimiter_free(src, delimiter, from + 1, to);
    }
}

/// Whether a delimiter occurs in `src` ending at `end` depends only on the first `end` bytes.
proof fn lemma_occurs_in_prefix(prefix: Seq<u8>, more: Seq<u8>, delimiter: Seq<u8>, end: int)
    requires
        end <= prefix.len(),
    ensures
        occurs_ending_at(prefix + more, delimiter, end) == occurs_ending_at(
            prefix,
            delimiter,
            end,
        ),
{
    if delimiter.len() <= end {
        assert((prefix + more).subrange(end - delimiter.len(), end) =~= prefix.subrange(
            end - delimiter.len(),
            end,
        ));
    }
}

/// No occurrence of `delimiter` in `src` ends at a position strictly between `after` and
/// `before`.
pub open spec fn no_delimiter_between(src: Seq<u8>, delimiter: Seq<u8>, after: int, before: int) -> bool {
    forall|p: int| after < p < before ==> !#[trigger] occurs_ending_at(src, delimiter, p)
}

/// An item, encoded with its delimiter and followed by any bytes, decodes back to the same
/// item and consumes exactly the encoded bytes, provided the delimiter does not already occur
/// in the encoded bytes after the part that was scanned. With an empty delimiter every byte
/// ends a frame, so only a one-byte item past the scanned part comes back whole.
pub proof fn lemma_any_delimiter_round_trip(
    item: Seq<u8>,
    delimiter: Seq<u8>,
    rest: Seq<u8>,
    seen: int,
)
    requires
        0 <= seen,
        delimiter.len() > 0 ==> seen < item.len() + delimiter.len() && no_delimiter_between(
            encoded_delimited(item, delimiter),
            delimiter,
            seen,
            item.len() + delimiter.len() as int,
        ),
        delimiter.len() == 0 ==> seen + 1 == item.len(),
    ensures
        decoded_delimited(encoded_delimited(item, delimiter) + rest, delimiter, seen) == Some(
            (item, item.len() + delimiter.len() as int),
        ),
{
    let enc = encoded_delimited(item, delimiter);
    let src = enc + rest;
    let end: int = item.len() + delimiter.len() as int;
    if delimiter.len() == 0 {
        assert(src.subrange(0, seen + 1) =~= item);
    } else {
        assert forall|p: int| seen < p <= end - 1 implies !#[trigger] occurs_ending_at(
            src,
            delimiter,
            p,
        ) by {
            lemma_occurs_in_prefix(enc, rest, delimiter, p);
        }
        lemma_occurs_in_prefix(enc, rest, delimiter, end);
        assert(enc.subrange(item.len() as int, end) =~= delimiter);
        lemma_first_delimiter_at(src, delimiter, seen, end - 1);
        assert(src.subrange(0, item.len() as int) =~= item);
    }
}

/// Resuming after a miss finds what a scan from the start finds: when no frame ends in
/// `prefix`, decoding `prefix` followed by more bytes with the progress left by the miss gives
/// the same result as decoding them from scratch.
pub proof fn lemma_any_delimiter_resume(prefix: Seq<u8>, more: Seq<u8>, delimiter: Seq<u8>)
    requires
        decoded_delimited(prefix, delimiter, 0) is None,
    ensures
        decoded_delimited(prefix + more, delimiter, seen_after_no_frame(prefix, delimiter, 0))
            == decoded_delimited(prefix + more, delimiter, 0),
{
    let src = prefix + more;
    if prefix.len() >= delimiter.len() && delimiter.len() > 0 {
        lemma_no_delimiter_from(prefix, delimiter, 0);
        assert forall|p: int| 0 < p <= prefix.len() implies !#[trigger] occurs_ending_at(
            src,
            delimiter,
            p,
        ) by {
            lemma_occurs_in_prefix(prefix, more, delimiter, p);
        }
        lemma_skip_delimiter_free(src, delimiter, 0, prefix.len() as int);
    }
}

impl<'a> AnyDelimiterCodec<'a> {
    /// Creates a new [`AnyDelimiterCodec`] with the given `delimiter`.
    pub fn new(delimiter: &'a [u8]) -> (r: Self)
        ensures
            r@ == (delimiter@, 0int),
    {
        Self { delimiter, seen: 0 }
    }

    /// Returns the delimiter to search for.
    pub fn delimiter(&self) -> (r: &'a [u8])
        ensures
            r@ == self@.0,
    {
        self.delimiter
    }

    /// Finds the next delimited frame in `src`, scanning from where the previous call stopped.
    fn decode_delimited<'buf>(&mut self, src: &'buf [u8]) -> (r: Option<(&'buf [u8], usize)>)
        ensures
            final(self)@.0 == old(self)@.0,
            match decoded_delimited(src@, old(self)@.0, old(self)@.1) {
                Some((frame, n)) => r matches Some((item, m)) && item@ == frame && m == n && 0 < m
                    <= src@.len() && final(self)@.1 == if old(self)@.0.len() == 0 {
                    old(self)@.1
                } else {
                    0
                },
                None => r is None && final(self)@.1 == seen_after_no_frame(
                    src@,
                    old(self)@.0,
                    old(self)@.1,
                ),
            },
    {
        let len = src.len();
        let dlen = self.delimiter.len();
        if len < dlen {
            return None;
        }
        if dlen == 0 {
            if self.seen < len {
                let n = self.seen + 1;
                return Some((&src[0..n], n));
            }
            return None;
        }
        let last = self.delimiter[dlen - 1];
        while self.seen < len
            invariant
                len == src@.len(),
                dlen == self.delimiter@.len(),
                0 < dlen <= len,
                last == self.delimiter@[dlen - 1],
                self.delimiter == old(self).delimiter,
                old(self)@.1 <= self@.1,
                old(self)@.1 < len ==> self@.1 <= len,
                old(self)@.1 >= len ==> self@.1 == old(self)@.1,
                first_delimiter_end_from(src@, self.delimiter@, old(self)@.1)
                    == first_delimiter_end_from(src@, self.delimiter@, self@.1),
            decreases len - self.seen,
        {
            let i = self.seen;
            if src[i] == last && i + 1 >= dlen && bytes_occur_at(src, self.delimiter, i + 1 - dlen) {
                self.seen = 0;
                let frame = &src[0..i + 1 - dlen];
                return Some((frame, i + 1));
            }
            proof {
                if occurs_ending_at(src@, self.delimiter@, i + 1) {
                    assert(src@.subrange(i + 1 - dlen, i + 1)[dlen - 1] == src@[i as int]);
                }
                lemma_first_delimiter_step(src@, self.delimiter@, i as int);
            }
            self.seen += 1;
        }
        None
    }
}

impl<'buf, 'a> Decoder<'buf> for AnyDelimiterCodec<'a> {
    type Item = &'buf [u8];

    type Error = core::convert::Infallible;

    open spec fn decodes(
        &self,
        src: Seq<u8>,
        r: Result<Option<(&'buf [u8], usize)>, core::convert::Infallible>,
        next: &Self,
        after: Seq<u8>,
    ) -> bool {
        &&& after == src
        &&& next@.0 == self@.0
        &&& match decoded_delimited(src, self@.0, self@.1) {
            Some((frame, n)) => r matches Ok(Some((item, m))) && item@ == frame && m == n
                && next@.1 == if self@.0.len() == 0 {
                self@.1
            } else {
                0
            },
            None => r matches Ok(None) && next@.1 == seen_after_no_frame(src, self@.0, self@.1),
        }
    }

    fn decode(&mut self, src: &'buf mut [u8]) -> Result<Option<(Self::Item, usize)>, Self::Error> {
        let bytes: &'buf [u8] = src;
        Ok(self.decode_delimited(bytes))
    }

    fn decode_eof(&mut self, src: &'buf mut [u8]) -> Result<Option<(Self::Item, usize)>, Self::Error> {
        self.decode(src)
    }
}

/// Error returned by [`AnyDelimiterCodec::encode`].
#[derive(Debug)]
pub enum AnyDelimiterEncodeError {
    /// The input buffer is too small to fit the encoded bytes.
    BufferTooSmall,
}

/// Writes `item` followed by `delimiter` at the start of `dst`.
fn encode_delimited(item: &[u8], delimiter: &[u8], dst: &mut [u8]) -> (r: Result<
    usize,
    AnyDelimiterEncodeError,
>)
    ensures
        match r {
            Ok(n) => n == item@.len() + delimiter@.len() && n <= old(dst)@.len() && final(dst)@
                == spliced(old(dst)@, 0, encoded_delimited(item@, delimiter@)),
            Err(_) => old(dst)@.len() < item@.len() + delimiter@.len() && final(dst)@ == old(
                dst,
            )@,
        },
{
    if item.len() > dst.len() || dst.len() - item.len() < delimiter.len() {
        return Err(AnyDelimiterEncodeError::BufferTooSmall);
    }
    let ghost orig = dst@;
    let size = item.len() + delimiter.len();
    copy_into(dst, 0, item);
    copy_into(dst, item.len(), delimiter);
    assert(dst@ =~= spliced(orig, 0, encoded_delimited(item@, delimiter@)));
    Ok(size)
}

impl<'a, 'b> Encoder<&'b [u8]> for AnyDelimiterCodec<'a> {
    type Error = AnyDelimiterEncodeError;

    open spec fn encodes(
        &self,
        item: &'b [u8],
        dst: Seq<u8>,
        r: Result<usize, AnyDelimiterEncodeError>,
        next: &Self,
        after: Seq<u8>,
    ) -> bool {
        &&& next@ == self@
        &&& match r {
            Ok(n) => n == item@.len() + self@.0.len() && n <= dst.len() && after == spliced(
                dst,
                0,
                encoded_delimited(item@, self@.0),
            ),
            Err(_) => dst.len() < item@.len() + self@.0.len() && after == dst,
        }
    }

    fn encode(&mut self, item: &'b [u8], dst: &mut [u8]) -> Result<usize, Self::Error> {
        encode_delimited(item, self.delimiter, dst)
    }
}

/// An owned [`AnyDelimiterCodec`]: decoded frames of at most `N` bytes are copied out.
#[derive(Debug, Clone, Copy)]
pub struct AnyDelimiterCodecOwned<'a, const N: usize> {
    inner: AnyDelimiterCodec<'a>,
}

impl<'a, const N: usize> View for AnyDelimiterCodecOwned<'a, N> {
    /// The delimiter and the number of bytes of the buffer already scanned.
    type V = (Seq<u8>, int);

    closed spec fn view(&self) -> (Seq<u8>, int) {
        self.inner@
    }
}

impl<'a, const N: usize> AnyDelimiterCodecOwned<'a, N> {
    /// Creates a new [`AnyDelimiterCodecOwned`] with the given `delimiter`.
    pub fn new(delimiter: &'a [u8]) -> (r: Self)
        ensures
            r@ == (delimiter@, 0int),
    {
        Self { inner: AnyDelimiterCodec::new(delimiter) }
    }

    /// Returns the delimiter to search for.
    pub fn delimiter(&self) -> (r: &'a [u8])
        ensures
            r@ == self@.0,
    {
        self.inner.delimiter
    }

    /// Returns the number of bytes of the slice that have been seen so far.
    pub fn seen(&self) -> (r: usize)
        ensures
            r == self@.1,
    {
        self.inner.seen
    }

    /// Clears the number of bytes of the slice that have been seen so far.
    pub fn clear(&mut self)
        ensures
            final(self)@ == (old(self)@.0, 0int),
    {
        self.inner.seen = 0;
    }
}

impl<'a, const N: usize> From<AnyDelimiterCodec<'a>> for AnyDelimiterCodecOwned<'a, N> {
    fn from(inner: AnyDelimiterCodec<'a>) -> (r: Self)
        ensures
            r@ == inner@,
    {
        Self { inner }
    }
}

impl<'a, const N: usize> vstd::std_specs::convert::FromSpecImpl<AnyDelimiterCodec<'a>> for AnyDelimiterCodecOwned<'a, N> {
    open spec fn obeys_from_spec() -> bool {
        true
    }

    closed spec fn from_spec(inner: AnyDelimiterCodec<'a>) -> Self {
        Self { inner }
    }
}

impl<'a, const N: usize> DecoderOwned for AnyDelimiterCodecOwned<'a, N> {
    type Item = Vec<u8>;

    type Error = ();

    open spec fn decodes_owned(
        &self,
        src: Seq<u8>,
        r: Result<Option<(Vec<u8>, usize)>, ()>,
        next: &Self,
        after: Seq<u8>,
    ) -> bool {
        &&& after == src
        &&& next@.0 == self@.0
        &&& match decoded_delimited(src, self@.0, self@.1) {
            Some((frame, n)) => next@.1 == (if self@.0.len() == 0 {
                self@.1
            } else {
                0
            }) && if frame.len() <= N {
                r matches Ok(Some((item, m))) && item@ == frame && m == n
            } else {
                r is Err
            },
            None => r matches Ok(None) && next@.1 == seen_after_no_frame(src, self@.0, self@.1),
        }
    }

    fn decode_owned(&mut self, src: &mut [u8]) -> Result<Option<(Self::Item, usize)>, Self::Error> {
        let bytes: &[u8] = src;
        match self.inner.decode_delimited(bytes) {
            Some((frame, size)) => {
                if frame.len() > N {
                    return Err(());
                }
                Ok(Some((vstd::slice::slice_to_vec(frame), size)))
            },
            None => Ok(None),
        }
    }

    fn decode_eof_owned(&mut self, src: &mut [u8]) -> Result<Option<(Self::Item, usize)>, Self::Error> {
        self.decode_owned(src)
    }
}

impl<'a, const N: usize> Encoder<Vec<u8>> for AnyDelimiterCodecOwned<'a, N> {
    type Error = AnyDelimiterEncodeError;

    open spec fn encodes(
        &self,
        item: Vec<u8>,
        dst: Seq<u8>,
        r: Result<usize, AnyDelimiterEncodeError>,
        next: &Self,
        after: Seq<u8>,
    ) -> bool {
        &&& next@ == self@
        &&& match r {
            Ok(n) => n == item@.len() + self@.0.len() && n <= dst.len() && after == spliced(
                dst,
                0,
                encoded_delimited(item@, self@.0),
            ),
            Err(_) => dst.len() < item@.len() + self@.0.len() && after == dst,
        }
    }

    fn encode(&mut self, item: Vec<u8>, dst: &mut [u8]) -> Result<usize, Self::Error> {
        encode_delimited(item.as_slice(), self.inner.delimiter, dst)
    }
}

/// A framer whose unconsumed bytes start with an item of at most `N` bytes followed by the
/// non-empty delimiter of an [`AnyDelimiterCodecOwned`] hands that item out in its next
/// decoding step with that codec, consuming exactly the item and the delimiter, provided no
/// delimiter ends earlier in those bytes after the part the codec already scanned.
pub proof fn lemma_framer_reads_delimited_frame<'a, const N: usize, I>(
    s: ReadFrameView,
    d: AnyDelimiterCodecOwned<'a, N>,
    r: Result<Option<Vec<u8>>, FramedReadError<I, ()>>,
    d2: AnyDelimiterCodecOwned<'a, N>,
    t: ReadFrameView,
    item: Seq<u8>,
    rest: Seq<u8>,
)
    requires
        s.is_framable,
        !s.shift,
        s.framable_bytes() == encoded_delimited(item, d@.0) + rest,
        d@.0.len() > 0,
        item.len() <= N,
        0 <= d@.1 < item.len() + d@.0.len(),
        no_delimiter_between(
            encoded_delimited(item, d@.0),
            d@.0,
            d@.1,
            item.len() + d@.0.len() as int,
        ),
        s.consistent(),
        s.buffer.len() <= usize::MAX,
        read_frame_step(s, None::<Result<usize, I>>, r, t),
        decoder_step_owned(s, d, r, d2, t),
    ensures
        r matches Ok(Some(i)) && i@ == item,
        t.total_consumed == s.total_consumed + item.len() + d@.0.len(),
        d2@ == (d@.0, 0int),
{
    lemma_any_delimiter_round_trip(item, d@.0, rest, d@.1);
}

/// An item of at most `N` bytes that an [`AnyDelimiterCodecOwned`] with a non-empty delimiter
/// encoded into a buffer is read back by a framer whose unconsumed bytes start with the `n`
/// bytes the encoder reported, in its next decoding step with a fresh codec of the same
/// delimiter, which consumes exactly those bytes, provided the delimiter does not occur in
/// the encoded bytes before their end.
pub proof fn lemma_any_delimiter_frame_round_trip<'a, const N: usize, I>(
    encoder: AnyDelimiterCodecOwned<'a, N>,
    item: Vec<u8>,
    dst: Seq<u8>,
    n: usize,
    encoder_after: AnyDelimiterCodecOwned<'a, N>,
    written: Seq<u8>,
    s: ReadFrameView,
    d: AnyDelimiterCodecOwned<'a, N>,
    r: Result<Option<Vec<u8>>, FramedReadError<I, ()>>,
    d2: AnyDelimiterCodecOwned<'a, N>,
    t: ReadFrameView,
    rest: Seq<u8>,
)
    requires
        encoder.encodes(item, dst, Ok(n), &encoder_after, written),
        encoder@.0.len() > 0,
        item@.len() <= N,
        no_delimiter_between(
            encoded_delimited(item@, encoder@.0),
            encoder@.0,
            0,
            item@.len() + encoder@.0.len() as int,
        ),
        d@ == (encoder@.0, 0int),
        s.is_framable,
        !s.shift,
        s.framable_bytes() == written.subrange(0, n as int) + rest,
        s.consistent(),
        s.buffer.len() <= usize::MAX,
        read_frame_step(s, None::<Result<usize, I>>, r, t),
        decoder_step_owned(s, d, r, d2, t),
    ensures
        r matches Ok(Some(i)) && i@ == item@,
        t.total_consumed == s.total_consumed + n,
{
    let encoded = encoded_delimited(item@, encoder@.0);
    assert(written.subrange(0, n as int) =~= encoded);
    lemma_framer_reads_delimited_frame(s, d, r, d2, t, item@, rest);
}

/// An item that an [`AnyDelimiterCodec`] with a non-empty delimiter encoded into a buffer is
/// read back, borrowed from the framer's buffer, by a framer whose unconsumed bytes start with
/// the `n` bytes the encoder reported, in its next decoding step with a fresh codec of the
/// same delimiter, which consumes exactly those bytes, provided the delimiter does not occur
/// in the encoded bytes before their end.
pub proof fn lemma_borrowed_any_delimiter_frame_round_trip<'a, 'b, 'buf, I>(
    encoder: AnyDelimiterCodec<'a>,
    item: &'b [u8],
    dst: Seq<u8>,
    n: usize,
    encoder_after: AnyDelimiterCodec<'a>,
    written: Seq<u8>,
    s: ReadFrameView,
    d: AnyDelimiterCodec<'a>,
    r: Result<Option<&'buf [u8]>, FramedReadError<I, core::convert::Infallible>>,
    d2: AnyDelimiterCodec<'a>,
    t: ReadFrameView,
    rest: Seq<u8>,
)
    requires
        encoder.encodes(item, dst, Ok(n), &encoder_after, written),
        encoder@.0.len() > 0,
        no_delimiter_between(
            encoded_delimited(item@, encoder@.0),
            encoder@.0,
            0,
            item@.len() + encoder@.0.len() as int,
        ),
        d@ == (encoder@.0, 0int),
        s.is_framable,
        !s.shift,
        s.framable_bytes() == written.subrange(0, n as int) + rest,
        s.consistent(),
        s.buffer.len() <= usize::MAX,
        read_frame_step(s, None::<Result<usize, I>>, r, t),
        decoder_step::<'buf, AnyDelimiterCodec<'a>, I>(s, d, r, d2, t),
    ensures
        r matches Ok(Some(i)) && i@ == item@,
        t.total_consumed == s.total_consumed + n,
        d2@ == (d@.0, 0int),
{
    assert(written.subrange(0, n as int) =~= encoded_delimited(item@, encoder@.0));
    lemma_any_delimiter_round_trip(item@, d@.0, rest, d@.1);
}

/// What encoding `item` followed by `delimiter` into `dst` leaves there, when it fits: the
/// item at the start, the delimiter right after it, and the rest of `dst` as it was.
proof fn lemma_delimited_written(item: Seq<u8>, delimiter: Seq<u8>, dst: Seq<u8>)
    requires
        item.len() + delimiter.len() <= dst.len(),
    ensures
        ({
            let after = spliced(dst, 0, encoded_delimited(item, delimiter));
            let n: int = item.len() + delimiter.len() + 0int;
            &&& after.len() == dst.len()
            &&& after.subrange(0, item.len() as int) == item
            &&& after.subrange(item.len() as int, n) == delimiter
            &&& after.subrange(n, dst.len() as int) == dst.subrange(n, dst.len() as int)
        }),
{
    let frame = encoded_delimited(item, delimiter);
    lemma_spliced_at_start(dst, frame);
    let after = spliced(dst, 0, frame);
    let n: int = item.len() + delimiter.len() + 0int;
    assert(after.subrange(0, n) == frame);
    assert(after.subrange(0, item.len() as int) =~= frame.subrange(0, item.len() as int));
    assert(frame.subrange(0, item.len() as int) =~= item);
    assert(after.subrange(item.len() as int, n) =~= frame.subrange(item.len() as int, n));
    assert(frame.subrange(item.len() as int, n) =~= delimiter);
}

/// Encoding with an [`AnyDelimiterCodec`] succeeds exactly when `dst` has room for the item and
/// the delimiter. It then reports those bytes: the item, then the delimiter, with the rest of
/// `dst` as it was; a refused encoding leaves `dst` untouched.
pub proof fn lemma_any_delimiter_encode_exact<'a, 'b>(
    c: AnyDelimiterCodec<'a>,
    item: &'b [u8],
    dst: Seq<u8>,
    r: Result<usize, AnyDelimiterEncodeError>,
    next: AnyDelimiterCodec<'a>,
    after: Seq<u8>,
)
    requires
        c.encodes(item, dst, r, &next, after),
    ensures
        (r is Ok) <==> item@.len() + c@.0.len() <= dst.len(),
        r matches Ok(n) ==> n == item@.len() + c@.0.len() && after.len() == dst.len()
            && after.subrange(0, item@.len() as int) == item@ && after.subrange(
            item@.len() as int,
            n as int,
        ) == c@.0 && after.subrange(n as int, dst.len() as int) == dst.subrange(
            n as int,
            dst.len() as int,
        ),
        r is Err ==> after == dst,
        next@ == c@,
{
    if r is Ok {
        lemma_delimited_written(item@, c@.0, dst);
    }
}

/// Encoding with an [`AnyDelimiterCodecOwned`] succeeds exactly when `dst` has room for the
/// item and the delimiter. It then reports those bytes: the item, then the delimiter, with the
/// rest of `dst` as it was; a refused encoding leaves `dst` untouched.
pub proof fn lemma_any_delimiter_owned_encode_exact<'a, const N: usize>(
    c: AnyDelimiterCodecOwned<'a, N>,
    item: Vec<u8>,
    dst: Seq<u8>,
    r: Result<usize, AnyDelimiterEncodeError>,
    next: AnyDelimiterCodecOwned<'a, N>,
    after: Seq<u8>,
)
    requires
        c.encodes(item, dst, r, &next, after),
    ensures
        (r is Ok) <==> item@.len() + c@.0.len() <= dst.len(),
        r matches Ok(n) ==> n == item@.len() + c@.0.len() && after.len() == dst.len()
            && after.subrange(0, item@.len() as int) == item@ && after.subrange(
            item@.len() as int,
            n as int,
        ) == c@.0 && after.subrange(n as int, dst.len() as int) == dst.subrange(
            n as int,
            dst.len() as int,
        ),
        r is Err ==> after == dst,
        next@ == c@,
{
    if r is Ok {
        lemma_delimited_written(item@, c@.0, dst);
    }
}

/// An [`AnyDelimiterCodecOwned`] hands out only items of at most `N` bytes, each the bytes
/// before a delimiter that ends where the consumed bytes end; it refuses a frame only when the
/// delimiter it found ends more than `N` bytes past the delimiter's own length.
pub proof fn lemma_any_delimiter_owned_refuses_only_long<'a, const N: usize>(
    c: AnyDelimiterCodecOwned<'a, N>,
    src: Seq<u8>,
    r: Result<Option<(Vec<u8>, usize)>, ()>,
    next: AnyDelimiterCodecOwned<'a, N>,
    after: Seq<u8>,
)
    requires
        c.decodes_owned(src, r, &next, after),
        c@.1 >= 0,
    ensures
        after == src,
        r matches Ok(Some((item, n))) ==> item@.len() <= N && n == item@.len() + c@.0.len()
            && n <= src.len() && item@ == src.subrange(0, item@.len() as int) && occurs_ending_at(
            src,
            c@.0,
            n as int,
        ),
        r is Err ==> exists|end: int|
            N + c@.0.len() < end <= src.len() && #[trigger] occurs_ending_at(src, c@.0, end),
{
    let d = c@.0;
    lemma_first_delimiter_bounds(src, d, c@.1);
    match decoded_delimited(src, d, c@.1) {
        Some((frame, n)) => {
            if d.len() == 0 {
                assert(occurs_ending_at(src, d, n));
            } else {
                let i = first_delimiter_end_from(src, d, c@.1).unwrap();
                assert(occurs_ending_at(src, d, i + 1));
            }
        },
        None => {},
    }
}

} // verus!
