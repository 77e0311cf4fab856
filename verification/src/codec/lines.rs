//! Lines codecs for encoding and decoding lines.

use vstd::prelude::*;

use crate::buf::{copy_into, lemma_spliced_at_start, spliced};
use crate::decode::{Decoder, DecoderOwned};
use crate::encode::Encoder;
use crate::framed_read::{
    decoder_step, decoder_step_owned, read_frame_step, FramedReadError, ReadFrameView,
};
use vstd::utf8::{
    decode_utf8, encode_scalar, encode_utf8, has_width_1_encoding, last_continuation_byte,
    leading_byte_width_1, leading_byte_width_2, leading_byte_width_3, leading_byte_width_4,
    second_last_continuation_byte, third_last_continuation_byte, valid_utf8,
};

pub mod stream;

verus! {

/// Position of the first `\n` in `src` at or after position `from`.
pub open spec fn first_newline_from(src: Seq<u8>, from: int) -> Option<int>
    decreases src.len() - from,
{
    if from < 0 || from >= src.len() {
        None
    } else if src[from] == 10u8 {
        Some(from)
    } else {
        first_newline_from(src, from + 1)
    }
}

/// `line` without one trailing `\r`, if it has one.
pub open spec fn without_carriage_return(line: Seq<u8>) -> Seq<u8> {
    if line.len() > 0 && line.last() == 13u8 {
        line.drop_last()
    } else {
        line
    }
}

/// What [`LinesCodec::decode`] makes of `src` after `seen` of its bytes were already scanned:
/// the line before the first `\n` found at or after `seen` (without a trailing `\r`) and the
/// number of bytes up to and including that `\n`.
pub open spec fn decoded_line(src: Seq<u8>, seen: int) -> Option<(Seq<u8>, int)> {
    match first_newline_from(src, seen) {
        Some(i) => Some((without_carriage_return(src.subrange(0, i)), i + 1)),
        None => None,
    }
}

/// The bytes [`LinesCodec::encode`] writes for `line`: the line followed by `\r\n`.
pub open spec fn encoded_line(line: Seq<u8>) -> Seq<u8> {
    line + seq![13u8, 10u8]
}

/// A codec that decodes `bytes` into a `line of bytes` and encodes a `line of bytes` into `bytes`.
///
/// # Note
///
/// This codec tracks progress using an internal state of the underlying buffer, and it must not be used across multiple framing sessions.
#[derive(Debug, Clone, Default)]
pub struct LinesCodec {
    /// The number of bytes of the slice that have been seen so far.
    seen: usize,
}

impl View for LinesCodec {
    /// The number of bytes of the buffer already scanned for a `\n`.
    type V = int;

    closed spec fn view(&self) -> int {
        self.seen as int
    }
}

impl LinesCodec {
    /// Creates a new [`LinesCodec`].
    pub fn new() -> (r: Self)
        ensures
            r@ == 0,
    {
        Self { seen: 0 }
    }
}

/// A decoded line and the bytes it consumed fit in the decoded buffer.
pub proof fn lemma_decoded_line_bounds(src: Seq<u8>, seen: int)
    ensures
        decoded_line(src, seen) matches Some((line, n)) ==> line.len() < n <= src.len(),
    decreases src.len() - seen,
{
    if 0 <= seen < src.len() && src[seen] != 10u8 {
        lemma_decoded_line_bounds(src, seen + 1);
    }
}

/// Scanning goes on from one position to the next past a byte that is not `\n`.
proof fn lemma_first_newline_step(src: Seq<u8>, from: int)
    requires
        0 <= from < src.len(),
        src[from] != 10u8,
    ensures
        first_newline_from(src, from) == first_newline_from(src, from + 1),
{
}

/// Where the first `\n` at or after `from` lies, when `src` holds no `\n` from `from` up to
/// position `at` and one at `at`.
proof fn lemma_first_newline_at(src: Seq<u8>, from: int, at: int)
    requires
        0 <= from <= at < src.len(),
        src[at] == 10u8,
        forall|k: int| from <= k < at ==> src[k] != 10u8,
    ensures
        first_newline_from(src, from) == Some(at),
    decreases at - from,
{
    if from < at {
        lemma_first_newline_at(src, from + 1, at);
    }
}

/// A line without `\n`, encoded and followed by any bytes, decodes back to the same line and
/// consumes exactly the encoded bytes, whatever part of it up to its `\n` was already scanned.
pub proof fn lemma_lines_round_trip(line: Seq<u8>, rest: Seq<u8>, seen: int)
    requires
        !line.contains(10u8),
        0 <= seen <= line.len() + 1,
    ensures
        decoded_line(encoded_line(line) + rest, seen) == Some((line, line.len() + 2int)),
{
    let src = encoded_line(line) + rest;
    let at = line.len() as int + 1;
    assert forall|k: int| seen <= k < at implies src[k] != 10u8 by {
        if k < line.len() {
            assert(src[k] == line[k]);
        }
    }
    lemma_first_newline_at(src, seen, at);
    assert(src.subrange(0, at).drop_last() =~= line);
}

/// Resuming after a miss finds what a scan from the start finds: when no line ends in
/// `prefix`, decoding `prefix` followed by more bytes with the progress left by the miss gives
/// the same result as decoding them from scratch.
pub proof fn lemma_lines_resume(prefix: Seq<u8>, more: Seq<u8>)
    requires
        decoded_line(prefix, 0) is None,
    ensures
        decoded_line(prefix + more, prefix.len() as int) == decoded_line(prefix + more, 0),
{
    let src = prefix + more;
    lemma_no_newline_before(prefix, 0);
    lemma_skip_newline_free(src, 0, prefix.len() as int);
}

/// No `\n` lies at or after `from` in `src` when the scan from `from` finds none.
proof fn lemma_no_newline_before(src: Seq<u8>, from: int)
    requires
        0 <= from,
        first_newline_from(src, from) is None,
    ensures
        forall|k: int| from <= k < src.len() ==> src[k] != 10u8,
    decreases src.len() - from,
{
    if from < src.len() {
        lemma_no_newline_before(src, from + 1);
    }
}

/// Scanning from `from` or from `to` finds the same `\n` when none lies in between.
proof fn lemma_skip_newline_free(src: Seq<u8>, from: int, to: int)
    requires
        0 <= from <= to <= src.len(),
        forall|k: int| from <= k < to ==> src[k] != 10u8,
    ensures
        first_newline_from(src, from) == first_newline_from(src, to),
    decreases to - from,
{
    if from < to {
        lemma_skip_newline_free(src, from + 1, to);
    }
}

impl LinesCodec {
    /// Finds the next line in `src`, scanning from where the previous call stopped.
    fn decode_line<'buf>(&mut self, src: &'buf [u8]) -> (r: Option<(&'buf [u8], usize)>)
        ensures
            r matches Some((_, m)) ==> 0 < m <= src@.len(),
            match decoded_line(src@, old(self)@) {
                Some((line, n)) => r matches Some((item, m)) && item@ == line && m == n
                    && final(self)@ == 0,
                None => r is None && final(self)@ == if old(self)@ < src@.len() {
                    src@.len() as int
                } else {
                    old(self)@
                },
            },
    {
        let ghost orig = src@;
        let bytes: &'buf [u8] = src;
        let len = src.len();
        assert(bytes@ == orig);
        while self.seen < len
            invariant
                len == bytes@.len(),
                bytes@ == orig,
                orig == src@,
                old(self)@ <= self@,
                old(self)@ < len ==> self@ <= len,
                old(self)@ >= len ==> self@ == old(self)@,
                first_newline_from(bytes@, old(self)@) == first_newline_from(bytes@, self@),
            decreases len - self.seen,
        {
            if bytes[self.seen] == 10u8 {
                let i = self.seen;
                let line_bytes: &'buf [u8] = if i > 0 && bytes[i - 1] == 13u8 {
                    &bytes[0..i - 1]
                } else {
                    &bytes[0..i]
                };
                assert(line_bytes@ =~= without_carriage_return(bytes@.subrange(0, i as int)));
                self.seen = 0;
                return Some((line_bytes, i + 1));
            }
            proof {
                lemma_first_newline_step(bytes@, self@);
            }
            self.seen += 1;
        }
        None
    }
}

impl<'buf> Decoder<'buf> for LinesCodec {
    type Item = &'buf [u8];

    type Error = core::convert::Infallible;

    open spec fn decodes(
        &self,
        src: Seq<u8>,
        r: Result<Option<(&'buf [u8], usize)>, core::convert::Infallible>,
        next: &Self,
        after: Seq<u8>,
    ) -> bool {
        &&& after == src
        &&& match decoded_line(src, self@) {
            Some((line, n)) => r matches Ok(Some((item, m))) && item@ == line && m == n && next@
                == 0,
            None => r matches Ok(None) && next@ == if self@ < src.len() {
                src.len() as int
            } else {
                self@
            },
        }
    }

    fn decode(&mut self, src: &'buf mut [u8]) -> Result<Option<(Self::Item, usize)>, Self::Error> {
        Ok(self.decode_line(src))
    }

    fn decode_eof(&mut self, src: &'buf mut [u8]) -> Result<Option<(Self::Item, usize)>, Self::Error> {
        self.decode(src)
    }
}

/// Error returned by [`LinesCodec::encode`].
#[derive(Debug)]
pub enum LinesEncodeError {
    /// The input buffer is too small to fit the encoded line.
    BufferTooSmall,
}

/// Writes `item` followed by `\r\n` at the start of `dst`.
fn encode_line(item: &[u8], dst: &mut [u8]) -> (r: Result<usize, LinesEncodeError>)
    ensures
        match r {
            Ok(n) => n == item@.len() + 2 && n <= old(dst)@.len() && final(dst)@ == spliced(
                old(dst)@,
                0,
                encoded_line(item@),
            ),
            Err(_) => old(dst)@.len() < item@.len() + 2 && final(dst)@ == old(dst)@,
        },
{
    if item.len() > dst.len() || dst.len() - item.len() < 2 {
        return Err(LinesEncodeError::BufferTooSmall);
    }
    let ghost orig = dst@;
    let size = item.len() + 2;
    copy_into(dst, 0, item);
    copy_into(dst, item.len(), &[13u8, 10u8]);
    assert(dst@ =~= spliced(orig, 0, encoded_line(item@)));
    Ok(size)
}

impl<'a> Encoder<&'a [u8]> for LinesCodec {
    type Error = LinesEncodeError;

    open spec fn encodes(
        &self,
        item: &'a [u8],
        dst: Seq<u8>,
        r: Result<usize, LinesEncodeError>,
        next: &Self,
        after: Seq<u8>,
    ) -> bool {
        &&& next@ == self@
        &&& match r {
            Ok(n) => n == item@.len() + 2 && n <= dst.len() && after == spliced(
                dst,
                0,
                encoded_line(item@),
            ),
            Err(_) => dst.len() < item@.len() + 2 && after == dst,
        }
    }

    fn encode(&mut self, item: &'a [u8], dst: &mut [u8]) -> Result<usize, Self::Error> {
        encode_line(item, dst)
    }
}

/// Why an owned line could not be returned.
#[derive(Debug)]
pub enum LinesOwnedDecodeError {
    /// The buffer is too small to fit the decoded bytes.
    BufferTooSmall,
}

/// An owned [`LinesCodec`]: decoded lines of at most `N` bytes are copied out of the buffer.
///
/// # Note
///
/// This codec tracks progress using an internal state of the underlying buffer, and it must not be used across multiple framing sessions.
#[derive(Debug, Clone, Default)]
pub struct LinesCodecOwned<const N: usize> {
    inner: LinesCodec,
}

impl<const N: usize> View for LinesCodecOwned<N> {
    /// The number of bytes of the buffer already scanned for a `\n`.
    type V = int;

    closed spec fn view(&self) -> int {
        self.inner@
    }
}

impl<const N: usize> LinesCodecOwned<N> {
    /// Creates a new [`LinesCodecOwned`].
    pub fn new() -> (r: Self)
        ensures
            r@ == 0,
    {
        Self { inner: LinesCodec::new() }
    }
}

impl<const N: usize> From<LinesCodec> for LinesCodecOwned<N> {
    fn from(inner: LinesCodec) -> (r: Self)
        ensures
            r@ == inner@,
    {
        Self { inner }
    }
}

impl<const N: usize> vstd::std_specs::convert::FromSpecImpl<LinesCodec> for LinesCodecOwned<N> {
    open spec fn obeys_from_spec() -> bool {
        true
    }

    closed spec fn from_spec(inner: LinesCodec) -> Self {
        Self { inner }
    }
}

impl<const N: usize> DecoderOwned for LinesCodecOwned<N> {
    type Item = Vec<u8>;

    type Error = LinesOwnedDecodeError;

    open spec fn decodes_owned(
        &self,
        src: Seq<u8>,
        r: Result<Option<(Vec<u8>, usize)>, LinesOwnedDecodeError>,
        next: &Self,
        after: Seq<u8>,
    ) -> bool {
        &&& after == src
        &&& match decoded_line(src, self@) {
            Some((line, n)) => next@ == 0 && if line.len() <= N {
                r matches Ok(Some((item, m))) && item@ == line && m == n
            } else {
                r matches Err(LinesOwnedDecodeError::BufferTooSmall)
            },
            None => r matches Ok(None) && next@ == if self@ < src.len() {
                src.len() as int
            } else {
                self@
            },
        }
    }

    fn decode_owned(&mut self, src: &mut [u8]) -> Result<Option<(Self::Item, usize)>, Self::Error> {
        match self.inner.decode_line(src) {
            Some((bytes, size)) => {
                if bytes.len() > N {
                    return Err(LinesOwnedDecodeError::BufferTooSmall);
                }
                let item = vstd::slice::slice_to_vec(bytes);
                Ok(Some((item, size)))
            },
            None => Ok(None),
        }
    }

    fn decode_eof_owned(&mut self, src: &mut [u8]) -> Result<Option<(Self::Item, usize)>, Self::Error> {
        self.decode_owned(src)
    }
}

impl<const N: usize> Encoder<Vec<u8>> for LinesCodecOwned<N> {
    type Error = LinesEncodeError;

    open spec fn encodes(
        &self,
        item: Vec<u8>,
        dst: Seq<u8>,
        r: Result<usize, LinesEncodeError>,
        next: &Self,
        after: Seq<u8>,
    ) -> bool {
        &&& next@ == self@
        &&& match r {
            Ok(n) => n == item@.len() + 2 && n <= dst.len() && after == spliced(
                dst,
                0,
                encoded_line(item@),
            ),
            Err(_) => dst.len() < item@.len() + 2 && after == dst,
        }
    }

    fn encode(&mut self, item: Vec<u8>, dst: &mut [u8]) -> Result<usize, Self::Error> {
        encode_line(item.as_slice(), dst)
    }
}

#[verifier::external_type_specification]
#[verifier::external_body]
pub struct ExUtf8Error(core::str::Utf8Error);

/// `core::str::from_utf8`: the bytes as a string slice when they are valid UTF-8, an error
/// otherwise; the string holds the characters the bytes encode.
#[verifier::external_body]
fn str_from_utf8<'a>(bytes: &'a [u8]) -> (r: Result<&'a str, core::str::Utf8Error>)
    ensures
        r is Ok <==> valid_utf8(bytes@),
        r matches Ok(s) ==> s@ == decode_utf8(bytes@),
{
    core::str::from_utf8(bytes)
}

/// What [`StrLinesCodec::decode`] makes of `src` after `seen` of its bytes were already
/// scanned: like [`decoded_line`], with the line read as UTF-8 (`None` inside when the line
/// is not valid UTF-8).
pub open spec fn decoded_str_line(src: Seq<u8>, seen: int) -> Option<(Option<Seq<char>>, int)> {
    match decoded_line(src, seen) {
        Some((line, n)) => Some(
            (if valid_utf8(line) {
                Some(decode_utf8(line))
            } else {
                None
            }, n),
        ),
        None => None,
    }
}

/// No byte of the UTF-8 encoding of a scalar other than `\n` is a `\n`: multi-byte encodings
/// only hold bytes with the high bit set.
proof fn lemma_scalar_without_newline(v: u32)
    requires
        v != 10,
    ensures
        !encode_scalar(v).contains(10u8),
{
    assert(leading_byte_width_2(v) != 10u8) by (bit_vector);
    assert(leading_byte_width_3(v) != 10u8) by (bit_vector);
    assert(leading_byte_width_4(v) != 10u8) by (bit_vector);
    assert(last_continuation_byte(v) != 10u8) by (bit_vector);
    assert(second_last_continuation_byte(v) != 10u8) by (bit_vector);
    assert(third_last_continuation_byte(v) != 10u8) by (bit_vector);
    assert(has_width_1_encoding(v) ==> leading_byte_width_1(v) != 10u8) by (bit_vector)
        requires
            v != 10,
    ;
    let e = encode_scalar(v);
    assert forall|i: int| 0 <= i < e.len() implies e[i] != 10u8 by {}
}

/// The UTF-8 encoding of characters none of which is `\n` holds no `\n` byte.
pub proof fn lemma_utf8_without_newline(chars: Seq<char>)
    requires
        !chars.contains('\n'),
    ensures
        !encode_utf8(chars).contains(10u8),
    decreases chars.len(),
{
    if chars.len() > 0 {
        let first = chars[0];
        let rest = chars.drop_first();
        assert(first != '\n');
        vstd::utf8::char_is_scalar(first);
        if (first as u32) == 10u32 {
            vstd::utf8::char_u32_cast(first, 10u32);
            vstd::utf8::char_u32_cast('\n', 10u32);
        }
        lemma_scalar_without_newline(first as u32);
        assert forall|i: int| 0 <= i < rest.len() implies rest[i] != '\n' by {
            assert(rest[i] == chars[i + 1]);
        }
        lemma_utf8_without_newline(rest);
        let e = encode_utf8(chars);
        let a = encode_scalar(first as u32);
        let b = encode_utf8(rest);
        assert(e == a + b);
        assert forall|i: int| 0 <= i < e.len() implies e[i] != 10u8 by {
            if i < a.len() {
                assert(e[i] == a[i]);
            } else {
                assert(e[i] == b[i - a.len()]);
            }
        }
    }
}

/// A string line without `\n`, encoded and followed by any bytes, decodes back to the same
/// characters and consumes exactly the encoded bytes, whatever part of it up to its `\n` was
/// already scanned.
pub proof fn lemma_str_lines_round_trip(line: Seq<char>, rest: Seq<u8>, seen: int)
    requires
        !line.contains('\n'),
        0 <= seen <= encode_utf8(line).len() + 1,
    ensures
        decoded_str_line(encoded_line(encode_utf8(line)) + rest, seen) == Some(
            (Some(line), encode_utf8(line).len() + 2int),
        ),
{
    lemma_utf8_without_newline(line);
    lemma_lines_round_trip(encode_utf8(line), rest, seen);
    vstd::utf8::encode_utf8_valid_utf8(line);
    vstd::utf8::encode_utf8_decode_utf8(line);
}

/// A codec that decodes `bytes` into an [`str`] line and encodes an [`str`] line into `bytes`.
///
/// # Note
///
/// This codec tracks progress using an internal state of the underlying buffer, and it must not be used across multiple framing sessions.
#[derive(Debug, Clone, Default)]
pub struct StrLinesCodec {
    inner: LinesCodec,
}

impl View for StrLinesCodec {
    /// The number of bytes of the buffer already scanned for a `\n`.
    type V = int;

    closed spec fn view(&self) -> int {
        self.inner@
    }
}

impl StrLinesCodec {
    /// Creates a new [`StrLinesCodec`].
    pub fn new() -> (r: Self)
        ensures
            r@ == 0,
    {
        Self { inner: LinesCodec::new() }
    }
}

impl From<LinesCodec> for StrLinesCodec {
    fn from(inner: LinesCodec) -> (r: Self)
        ensures
            r@ == inner@,
    {
        Self { inner }
    }
}

impl vstd::std_specs::convert::FromSpecImpl<LinesCodec> for StrLinesCodec {
    open spec fn obeys_from_spec() -> bool {
        true
    }

    closed spec fn from_spec(inner: LinesCodec) -> Self {
        Self { inner }
    }
}

/// Error returned by [`StrLinesCodec::decode`].
#[derive(Debug)]
pub enum StrLinesDecodeError {
    /// utf8 error.
    Utf8(core::str::Utf8Error),
}

impl<'buf> Decoder<'buf> for StrLinesCodec {
    type Item = &'buf str;

    type Error = StrLinesDecodeError;

    open spec fn decodes(
        &self,
        src: Seq<u8>,
        r: Result<Option<(&'buf str, usize)>, StrLinesDecodeError>,
        next: &Self,
        after: Seq<u8>,
    ) -> bool {
        &&& after == src
        &&& match decoded_str_line(src, self@) {
            Some((line, n)) => next@ == 0 && match line {
                Some(chars) => r matches Ok(Some((item, m))) && item@ == chars && m == n,
                None => r matches Err(StrLinesDecodeError::Utf8(_)),
            },
            None => r matches Ok(None) && next@ == if self@ < src.len() {
                src.len() as int
            } else {
                self@
            },
        }
    }

    fn decode(&mut self, src: &'buf mut [u8]) -> Result<Option<(Self::Item, usize)>, Self::Error> {
        let src: &'buf [u8] = src;
        match self.inner.decode_line(src) {
            Some((bytes, size)) => {
                match str_from_utf8(bytes) {
                    Ok(item) => Ok(Some((item, size))),
                    Err(err) => Err(StrLinesDecodeError::Utf8(err)),
                }
            },
            None => Ok(None),
        }
    }

    fn decode_eof(&mut self, src: &'buf mut [u8]) -> Result<Option<(Self::Item, usize)>, Self::Error> {
        self.decode(src)
    }
}

impl<'a> Encoder<&'a str> for StrLinesCodec {
    type Error = LinesEncodeError;

    open spec fn encodes(
        &self,
        item: &'a str,
        dst: Seq<u8>,
        r: Result<usize, LinesEncodeError>,
        next: &Self,
        after: Seq<u8>,
    ) -> bool {
        &&& next@ == self@
        &&& match r {
            Ok(n) => n == encode_utf8(item@).len() + 2 && n <= dst.len() && after == spliced(
                dst,
                0,
                encoded_line(encode_utf8(item@)),
            ),
            Err(_) => dst.len() < encode_utf8(item@).len() + 2 && after == dst,
        }
    }

    fn encode(&mut self, item: &'a str, dst: &mut [u8]) -> Result<usize, Self::Error> {
        encode_line(item.as_bytes(), dst)
    }
}

/// An owned [`StrLinesCodec`]: decoded lines of at most `N` bytes are copied into a [`String`].
///
/// # Note
///
/// This codec tracks progress using an internal state of the underlying buffer, and it must not be used across multiple framing sessions.
#[derive(Debug, Clone, Default)]
pub struct StringLinesCodec<const N: usize> {
    inner: StrLinesCodec,
}

impl<const N: usize> View for StringLinesCodec<N> {
    /// The number of bytes of the buffer already scanned for a `\n`.
    type V = int;

    closed spec fn view(&self) -> int {
        self.inner@
    }
}

impl<const N: usize> StringLinesCodec<N> {
    /// Creates a new [`StringLinesCodec`].
    pub fn new() -> (r: Self)
        ensures
            r@ == 0,
    {
        Self { inner: StrLinesCodec::new() }
    }
}

impl<const N: usize> From<StrLinesCodec> for StringLinesCodec<N> {
    fn from(inner: StrLinesCodec) -> (r: Self)
        ensures
            r@ == inner@,
    {
        Self { inner }
    }
}

impl<const N: usize> vstd::std_specs::convert::FromSpecImpl<StrLinesCodec> for StringLinesCodec<N> {
    open spec fn obeys_from_spec() -> bool {
        true
    }

    closed spec fn from_spec(inner: StrLinesCodec) -> Self {
        Self { inner }
    }
}

/// Error returned by [`StringLinesCodec::decode_owned`].
#[derive(Debug)]
pub enum StringLinesDecodeError {
    /// Str decoding error.
    Str(StrLinesDecodeError),
    /// The buffer is too small to fit the decoded bytes.
    BufferTooSmall,
}

impl<const N: usize> DecoderOwned for StringLinesCodec<N> {
    type Item = String;

    type Error = StringLinesDecodeError;

    open spec fn decodes_owned(
        &self,
        src: Seq<u8>,
        r: Result<Option<(String, usize)>, StringLinesDecodeError>,
        next: &Self,
        after: Seq<u8>,
    ) -> bool {
        &&& after == src
        &&& match decoded_line(src, self@) {
            Some((line, n)) => next@ == 0 && if !valid_utf8(line) {
                r matches Err(StringLinesDecodeError::Str(StrLinesDecodeError::Utf8(_)))
            } else if line.len() > N {
                r matches Err(StringLinesDecodeError::BufferTooSmall)
            } else {
                r matches Ok(Some((item, m))) && item@ == decode_utf8(line) && m == n
            },
            None => r matches Ok(None) && next@ == if self@ < src.len() {
                src.len() as int
            } else {
                self@
            },
        }
    }

    fn decode_owned(&mut self, src: &mut [u8]) -> Result<Option<(Self::Item, usize)>, Self::Error> {
        let ghost bytes = decoded_line(src@, self@).unwrap().0;
        proof {
            lemma_decoded_line_bounds(src@, self@);
        }
        match Decoder::decode(&mut self.inner, src) {
            Ok(Some((line, size))) => {
                proof {
                    vstd::utf8::decode_utf8_encode_utf8(bytes);
                }
                if line.len() > N {
                    return Err(StringLinesDecodeError::BufferTooSmall);
                }
                Ok(Some((line.to_owned(), size)))
            },
            Ok(None) => Ok(None),
            Err(err) => Err(StringLinesDecodeError::Str(err)),
        }
    }

    fn decode_eof_owned(&mut self, src: &mut [u8]) -> Result<Option<(Self::Item, usize)>, Self::Error> {
        self.decode_owned(src)
    }
}

impl<const N: usize> Encoder<String> for StringLinesCodec<N> {
    type Error = LinesEncodeError;

    open spec fn encodes(
        &self,
        item: String,
        dst: Seq<u8>,
        r: Result<usize, LinesEncodeError>,
        next: &Self,
        after: Seq<u8>,
    ) -> bool {
        &&& next@ == self@
        &&& match r {
            Ok(n) => n == encode_utf8(item@).len() + 2 && n <= dst.len() && after == spliced(
                dst,
                0,
                encoded_line(encode_utf8(item@)),
            ),
            Err(_) => dst.len() < encode_utf8(item@).len() + 2 && after == dst,
        }
    }

    fn encode(&mut self, item: String, dst: &mut [u8]) -> Result<usize, Self::Error> {
        Encoder::encode(&mut self.inner, item.as_str(), dst)
    }
}

/// A framer whose unconsumed bytes start with an encoded line of at most `N` bytes hands that
/// line out in its next decoding step with a [`LinesCodecOwned`], consuming exactly the
/// encoded bytes, whatever part of the line the codec already scanned.
pub proof fn lemma_framer_reads_encoded_line<const N: usize, I>(
    s: ReadFrameView,
    d: LinesCodecOwned<N>,
    r: Result<Option<Vec<u8>>, FramedReadError<I, LinesOwnedDecodeError>>,
    d2: LinesCodecOwned<N>,
    t: ReadFrameView,
    line: Seq<u8>,
    rest: Seq<u8>,
)
    requires
        s.is_framable,
        !s.shift,
        s.framable_bytes() == encoded_line(line) + rest,
        !line.contains(10u8),
        line.len() <= N,
        d@ <= line.len() + 1,
        s.consistent(),
        s.buffer.len() <= usize::MAX,
        read_frame_step(s, None::<Result<usize, I>>, r, t),
        decoder_step_owned(s, d, r, d2, t),
    ensures
        r matches Ok(Some(item)) && item@ == line,
        t.total_consumed == s.total_consumed + line.len() + 2,
        d2@ == 0,
{
    lemma_lines_round_trip(line, rest, d@);
}

/// A line without `\n` of at most `N` bytes that a [`LinesCodecOwned`] encoded into a
/// buffer is read back by a framer whose unconsumed bytes start with the `n` bytes the encoder
/// reported, in its next decoding step with a [`LinesCodecOwned`], which consumes exactly
/// those bytes.
pub proof fn lemma_lines_frame_round_trip<const N: usize, I>(
    encoder: LinesCodecOwned<N>,
    item: Vec<u8>,
    dst: Seq<u8>,
    n: usize,
    encoder_after: LinesCodecOwned<N>,
    written: Seq<u8>,
    s: ReadFrameView,
    d: LinesCodecOwned<N>,
    r: Result<Option<Vec<u8>>, FramedReadError<I, LinesOwnedDecodeError>>,
    d2: LinesCodecOwned<N>,
    t: ReadFrameView,
    rest: Seq<u8>,
)
    requires
        encoder.encodes(item, dst, Ok(n), &encoder_after, written),
        !item@.contains(10u8),
        item@.len() <= N,
        s.is_framable,
        !s.shift,
        s.framable_bytes() == written.subrange(0, n as int) + rest,
        d@ <= item@.len() + 1,
        s.consistent(),
        s.buffer.len() <= usize::MAX,
        read_frame_step(s, None::<Result<usize, I>>, r, t),
        decoder_step_owned(s, d, r, d2, t),
    ensures
        r matches Ok(Some(i)) && i@ == item@,
        t.total_consumed == s.total_consumed + n,
{
    let encoded = encoded_line(item@);
    assert(written.subrange(0, n as int) =~= encoded);
    lemma_framer_reads_encoded_line(s, d, r, d2, t, item@, rest);
}

/// A line without `\n` that a [`LinesCodec`] encoded into a buffer is read back, borrowed
/// from the framer's buffer, by a framer whose unconsumed bytes start with the `n` bytes the
/// encoder reported, in its next decoding step with a [`LinesCodec`], which consumes exactly
/// those bytes, whatever part of the line the codec already scanned.
pub proof fn lemma_borrowed_lines_frame_round_trip<'a, 'buf, I>(
    encoder: LinesCodec,
    item: &'a [u8],
    dst: Seq<u8>,
    n: usize,
    encoder_after: LinesCodec,
    written: Seq<u8>,
    s: ReadFrameView,
    d: LinesCodec,
    r: Result<Option<&'buf [u8]>, FramedReadError<I, core::convert::Infallible>>,
    d2: LinesCodec,
    t: ReadFrameView,
    rest: Seq<u8>,
)
    requires
        encoder.encodes(item, dst, Ok(n), &encoder_after, written),
        !item@.contains(10u8),
        d@ <= item@.len() + 1,
        s.is_framable,
        !s.shift,
        s.framable_bytes() == written.subrange(0, n as int) + rest,
        s.consistent(),
        s.buffer.len() <= usize::MAX,
        read_frame_step(s, None::<Result<usize, I>>, r, t),
        decoder_step::<'buf, LinesCodec, I>(s, d, r, d2, t),
    ensures
        r matches Ok(Some(i)) && i@ == item@,
        t.total_consumed == s.total_consumed + n,
        d2@ == 0,
{
    assert(written.subrange(0, n as int) =~= encoded_line(item@));
    lemma_lines_round_trip(item@, rest, d@);
}

/// A string line without `\n` that a [`StrLinesCodec`] encoded into a buffer is read back,
/// borrowed from the framer's buffer, by a framer whose unconsumed bytes start with the `n`
/// bytes the encoder reported, in its next decoding step with a [`StrLinesCodec`], which
/// consumes exactly those bytes, whatever part of the line the codec already scanned.
pub proof fn lemma_borrowed_str_lines_frame_round_trip<'a, 'buf, I>(
    encoder: StrLinesCodec,
    item: &'a str,
    dst: Seq<u8>,
    n: usize,
    encoder_after: StrLinesCodec,
    written: Seq<u8>,
    s: ReadFrameView,
    d: StrLinesCodec,
    r: Result<Option<&'buf str>, FramedReadError<I, StrLinesDecodeError>>,
    d2: StrLinesCodec,
    t: ReadFrameView,
    rest: Seq<u8>,
)
    requires
        encoder.encodes(item, dst, Ok(n), &encoder_after, written),
        !item@.contains('\n'),
        d@ <= encode_utf8(item@).len() + 1,
        s.is_framable,
        !s.shift,
        s.framable_bytes() == written.subrange(0, n as int) + rest,
        s.consistent(),
        s.buffer.len() <= usize::MAX,
        read_frame_step(s, None::<Result<usize, I>>, r, t),
        decoder_step::<'buf, StrLinesCodec, I>(s, d, r, d2, t),
    ensures
        r matches Ok(Some(i)) && i@ == item@,
        t.total_consumed == s.total_consumed + n,
        d2@ == 0,
{
    assert(written.subrange(0, n as int) =~= encoded_line(encode_utf8(item@)));
    lemma_str_lines_round_trip(item@, rest, d@);
}

/// What encoding `line` as a line into `dst` leaves there, when it fits: the line at the start,
/// then `\r\n`, then the rest of `dst` as it was.
proof fn lemma_line_written(line: Seq<u8>, dst: Seq<u8>)
    requires
        line.len() + 2 <= dst.len(),
    ensures
        ({
            let after = spliced(dst, 0, encoded_line(line));
            let n: int = line.len() + 2int;
            &&& after.len() == dst.len()
            &&& after.subrange(0, line.len() as int) == line
            &&& after[line.len() as int] == 13u8
            &&& after[line.len() + 1int] == 10u8
            &&& after.subrange(n, dst.len() as int) == dst.subrange(n, dst.len() as int)
        }),
{
    let frame = encoded_line(line);
    lemma_spliced_at_start(dst, frame);
    let after = spliced(dst, 0, frame);
    assert(after.subrange(0, frame.len() as int) == frame);
    assert(after[line.len() as int] == frame[line.len() as int]);
    assert(after[line.len() + 1int] == frame[line.len() + 1int]);
    assert(after.subrange(0, line.len() as int) =~= frame.subrange(0, line.len() as int));
    assert(frame.subrange(0, line.len() as int) =~= line);
}

/// Encoding with a [`LinesCodec`] succeeds exactly when `dst` has room for the line and
/// `\r\n`. It then reports those bytes: the line, then `\r\n`, with the rest of `dst` as it
/// was; a refused encoding leaves `dst` untouched.
pub proof fn lemma_lines_encode_exact<'a>(
    c: LinesCodec,
    item: &'a [u8],
    dst: Seq<u8>,
    r: Result<usize, LinesEncodeError>,
    next: LinesCodec,
    after: Seq<u8>,
)
    requires
        c.encodes(item, dst, r, &next, after),
    ensures
        (r is Ok) <==> item@.len() + 2 <= dst.len(),
        r matches Ok(n) ==> n == item@.len() + 2 && after.len() == dst.len() && after.subrange(
            0,
            item@.len() as int,
        ) == item@ && after[item@.len() as int] == 13u8 && after[item@.len() + 1int] == 10u8
            && after.subrange(n as int, dst.len() as int) == dst.subrange(n as int, dst.len() as int),
        r is Err ==> after == dst,
        next@ == c@,
{
    if r is Ok {
        lemma_line_written(item@, dst);
    }
}

/// Encoding with a [`LinesCodecOwned`] succeeds exactly when `dst` has room for the line and
/// `\r\n`. It then reports those bytes: the line, then `\r\n`, with the rest of `dst` as it
/// was; a refused encoding leaves `dst` untouched.
pub proof fn lemma_lines_owned_encode_exact<const N: usize>(
    c: LinesCodecOwned<N>,
    item: Vec<u8>,
    dst: Seq<u8>,
    r: Result<usize, LinesEncodeError>,
    next: LinesCodecOwned<N>,
    after: Seq<u8>,
)
    requires
        c.encodes(item, dst, r, &next, after),
    ensures
        (r is Ok) <==> item@.len() + 2 <= dst.len(),
        r matches Ok(n) ==> n == item@.len() + 2 && after.len() == dst.len() && after.subrange(
            0,
            item@.len() as int,
        ) == item@ && after[item@.len() as int] == 13u8 && after[item@.len() + 1int] == 10u8
            && after.subrange(n as int, dst.len() as int) == dst.subrange(n as int, dst.len() as int),
        r is Err ==> after == dst,
        next@ == c@,
{
    if r is Ok {
        lemma_line_written(item@, dst);
    }
}

/// Encoding with a [`StrLinesCodec`] succeeds exactly when `dst` has room for the string's
/// UTF-8 bytes and `\r\n`. It then reports those bytes: the UTF-8 bytes, then `\r\n`, with
/// the rest of `dst` as it was; a refused encoding leaves `dst` untouched.
pub proof fn lemma_str_lines_encode_exact<'a>(
    c: StrLinesCodec,
    item: &'a str,
    dst: Seq<u8>,
    r: Result<usize, LinesEncodeError>,
    next: StrLinesCodec,
    after: Seq<u8>,
)
    requires
        c.encodes(item, dst, r, &next, after),
    ensures
        ({
            let bytes = encode_utf8(item@);
            &&& (r is Ok) <==> bytes.len() + 2 <= dst.len()
            &&& r matches Ok(n) ==> n == bytes.len() + 2 && after.len() == dst.len()
                && after.subrange(0, bytes.len() as int) == bytes && after[bytes.len() as int]
                == 13u8 && after[bytes.len() + 1int] == 10u8 && after.subrange(n as int, dst.len() as int)
                == dst.subrange(n as int, dst.len() as int)
            &&& r is Err ==> after == dst
        }),
        next@ == c@,
{
    if r is Ok {
        lemma_line_written(encode_utf8(item@), dst);
    }
}

/// Encoding with a [`StringLinesCodec`] succeeds exactly when `dst` has room for the string's
/// UTF-8 bytes and `\r\n`. It then reports those bytes: the UTF-8 bytes, then `\r\n`, with
/// the rest of `dst` as it was; a refused encoding leaves `dst` untouched.
pub proof fn lemma_string_lines_encode_exact<const N: usize>(
    c: StringLinesCodec<N>,
    item: String,
    dst: Seq<u8>,
    r: Result<usize, LinesEncodeError>,
    next: StringLinesCodec<N>,
    after: Seq<u8>,
)
    requires
        c.encodes(item, dst, r, &next, after),
    ensures
        ({
            let bytes = encode_utf8(item@);
            &&& (r is Ok) <==> bytes.len() + 2 <= dst.len()
            &&& r matches Ok(n) ==> n == bytes.len() + 2 && after.len() == dst.len()
                && after.subrange(0, bytes.len() as int) == bytes && after[bytes.len() as int]
                == 13u8 && after[bytes.len() + 1int] == 10u8 && after.subrange(n as int, dst.len() as int)
                == dst.subrange(n as int, dst.len() as int)
            &&& r is Err ==> after == dst
        }),
        next@ == c@,
{
    if r is Ok {
        lemma_line_written(encode_utf8(item@), dst);
    }
}

/// The `\n` found by a scan from `from` is the first one at or after `from`.
proof fn lemma_first_newline_is_first(src: Seq<u8>, from: int)
    ensures
        first_newline_from(src, from) matches Some(i) ==> 0 <= from <= i < src.len() && src[i]
            == 10u8 && forall|q: int| from <= q < i ==> src[q] != 10u8,
    decreases src.len() - from,
{
    if 0 <= from < src.len() && src[from] != 10u8 {
        lemma_first_newline_is_first(src, from + 1);
    }
}

/// A [`LinesCodecOwned`] hands out lines of at most `N` bytes only, and refuses a line only when
/// it is longer: the first `\n` from where the scan resumed then lies beyond position `N`.
pub proof fn lemma_lines_owned_refuses_only_long<const N: usize>(
    c: LinesCodecOwned<N>,
    src: Seq<u8>,
    r: Result<Option<(Vec<u8>, usize)>, LinesOwnedDecodeError>,
    next: LinesCodecOwned<N>,
    after: Seq<u8>,
)
    requires
        c.decodes_owned(src, r, &next, after),
        c@ >= 0,
    ensures
        after == src,
        r matches Ok(Some((item, n))) ==> item@.len() <= N && item@.len() < n <= src.len()
            && src[n - 1] == 10u8,
        r is Err ==> (exists|i: int| N < i < src.len() && #[trigger] src[i] == 10u8) && forall|q: int|
            c@ <= q <= N && q < src.len() ==> #[trigger] src[q] != 10u8,
{
    lemma_decoded_line_bounds(src, c@);
    lemma_first_newline_is_first(src, c@);
    if r is Err {
        let i = first_newline_from(src, c@).unwrap();
        assert(src[i] == 10u8);
    }
}

/// A line without `\n` whose UTF-8 bytes number at most `N`, encoded and followed by any
/// bytes, decodes with a [`StringLinesCodec`] back to the same characters, consuming exactly
/// the encoded bytes, whatever part of it up to its `\n` was already scanned.
pub proof fn lemma_string_lines_round_trip<const N: usize>(
    c: StringLinesCodec<N>,
    line: Seq<char>,
    rest: Seq<u8>,
    r: Result<Option<(String, usize)>, StringLinesDecodeError>,
    next: StringLinesCodec<N>,
    after: Seq<u8>,
)
    requires
        !line.contains('\n'),
        encode_utf8(line).len() <= N,
        0 <= c@ <= encode_utf8(line).len() + 1,
        c.decodes_owned(encoded_line(encode_utf8(line)) + rest, r, &next, after),
    ensures
        r matches Ok(Some((item, n))) && item@ == line && n == encode_utf8(line).len() + 2,
        next@ == 0,
{
    lemma_utf8_without_newline(line);
    lemma_lines_round_trip(encode_utf8(line), rest, c@);
    vstd::utf8::encode_utf8_valid_utf8(line);
    vstd::utf8::encode_utf8_decode_utf8(line);
}

/// A [`StringLinesCodec`] hands out lines of at most `N` UTF-8 bytes only, and refuses a valid
/// line as too long only when it is longer: the first `\n` from where the scan resumed then
/// lies beyond position `N`.
pub proof fn lemma_string_lines_refuses_only_long<const N: usize>(
    c: StringLinesCodec<N>,
    src: Seq<u8>,
    r: Result<Option<(String, usize)>, StringLinesDecodeError>,
    next: StringLinesCodec<N>,
    after: Seq<u8>,
)
    requires
        c.decodes_owned(src, r, &next, after),
        c@ >= 0,
    ensures
        after == src,
        r matches Ok(Some((item, n))) ==> encode_utf8(item@).len() <= N && n <= src.len()
            && src[n - 1] == 10u8,
        r matches Err(StringLinesDecodeError::BufferTooSmall) ==> (exists|i: int|
            N < i < src.len() && #[trigger] src[i] == 10u8) && forall|q: int|
            c@ <= q <= N && q < src.len() ==> #[trigger] src[q] != 10u8,
{
    lemma_decoded_line_bounds(src, c@);
    lemma_first_newline_is_first(src, c@);
    match decoded_line(src, c@) {
        Some((line, n)) => {
            let i = first_newline_from(src, c@).unwrap();
            assert(src[i] == 10u8);
            if valid_utf8(line) {
                vstd::utf8::decode_utf8_encode_utf8(line);
            }
        },
        None => {},
    }
}

} // verus!
