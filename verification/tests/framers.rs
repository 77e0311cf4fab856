use cody_c::codec::{LengthCodecOwned, LinesCodec, LinesCodecOwned, StringLinesCodec};
use cody_c::decode::decoder::Decoder as SizeAwareDecoder;
use cody_c::decode::frame::Frame;
use cody_c::decode::framed_read::{Error as SizeAwareError, FramedRead as SizeAwareFramedRead};
use cody_c::decode::maybe_decoded::{FrameSize, MaybeDecoded};
use cody_c::decode::DecoderOwned;
use cody_c::encode::framed_write::FramedWrite as BorrowedFramedWrite;
use cody_c::encode::Encoder;
use cody_c::frame_size_aware::FrameSizeAwareCodec;
use cody_c::framed_read::ReadFrame;
use cody_c::framed_write::WriteFrame;
use cody_c::{FramedRead, FramedReadError, FramedWrite, FramedWriteError};

/// A reader over `data` that hands out at most `max_read` bytes per read.
struct ChunkedSource<'d> {
    data: &'d [u8],
    pos: usize,
    max_read: usize,
}

impl<'d> ChunkedSource<'d> {
    fn new(data: &'d [u8], max_read: usize) -> Self {
        Self { data, pos: 0, max_read }
    }

    fn read_into(&mut self, buf: &mut [u8]) -> usize {
        let n = buf.len().min(self.max_read).min(self.data.len() - self.pos);
        buf[..n].copy_from_slice(&self.data[self.pos..self.pos + n]);
        self.pos += n;
        n
    }
}

/// Drives a framer with an owned decoder until it reports an error.
fn read_all_owned<const N: usize, D>(
    decoder: D,
    data: &[u8],
    max_read: usize,
) -> (Vec<D::Item>, FramedReadError<(), D::Error>)
where
    D: DecoderOwned,
{
    let mut framer = FramedRead::<N, D, ()>::new(decoder, ());
    let mut source = ChunkedSource::new(data, max_read);
    let mut items = Vec::new();
    loop {
        let read = if framer.state().wants_read() {
            let index = framer.state().index();
            let buf = &mut framer.state_mut().buffer_mut()[index..];
            Some(Ok(source.read_into(buf)))
        } else {
            None
        };
        match framer.read_frame_owned(read) {
            Ok(Some(item)) => items.push(item),
            Ok(None) => {}
            Err(err) => return (items, err),
        }
    }
}

/// Drives a framer with the borrowing [`LinesCodec`] until it reports an error.
fn read_all_lines<const N: usize>(data: &[u8], max_read: usize) -> (Vec<Vec<u8>>, String) {
    let mut framer = FramedRead::<N, LinesCodec, ()>::new(LinesCodec::new(), ());
    let mut source = ChunkedSource::new(data, max_read);
    let mut items = Vec::new();
    loop {
        let read = if framer.state().wants_read() {
            let index = framer.state().index();
            let buf = &mut framer.state_mut().buffer_mut()[index..];
            Some(Ok::<usize, ()>(source.read_into(buf)))
        } else {
            None
        };
        match framer.read_frame(read) {
            Ok(Some(item)) => items.push(item.to_vec()),
            Ok(None) => {}
            Err(err) => return (items, format!("{:?}", err)),
        }
    }
}

const LINES: &[u8] = b"jh asjd\r\nk hb\njsjuwjal kadj\njsadhjiu\r\nw\n";

fn expected_lines() -> Vec<Vec<u8>> {
    vec![
        b"jh asjd".to_vec(),
        b"k hb".to_vec(),
        b"jsjuwjal kadj".to_vec(),
        b"jsadhjiu".to_vec(),
        b"w".to_vec(),
    ]
}

#[test]
fn four_items_one_stroke() {
    let (items, err) = read_all_owned::<64, _>(LinesCodecOwned::<32>::new(), LINES, 64);
    assert_eq!(items, expected_lines());
    assert!(matches!(err, FramedReadError::EOF));
}

#[test]
fn four_items_many_strokes() {
    let (items, err) = read_all_owned::<16, _>(LinesCodecOwned::<32>::new(), LINES, 3);
    assert_eq!(items, expected_lines());
    assert!(matches!(err, FramedReadError::EOF));
}

#[test]
fn borrowed_lines_one_byte_reads() {
    let (items, err) = read_all_lines::<16>(LINES, 1);
    assert_eq!(items, expected_lines());
    assert_eq!(err, "EOF");
}

#[test]
fn framed_read_bytes_remaining_on_stream() {
    let (items, err) = read_all_owned::<16, _>(LinesCodecOwned::<32>::new(), b"ab\ncd", 2);
    assert_eq!(items, vec![b"ab".to_vec()]);
    assert!(matches!(err, FramedReadError::BytesRemainingOnStream));
}

#[test]
fn framed_read_buffer_too_small() {
    let (items, err) = read_all_owned::<4, _>(LinesCodecOwned::<32>::new(), b"abcdefgh\n", 4);
    assert!(items.is_empty());
    assert!(matches!(err, FramedReadError::BufferTooSmall));
}

#[test]
fn framed_read_decode_error() {
    let (items, err) = read_all_owned::<16, _>(LinesCodecOwned::<2>::new(), b"ok\ntoo long\n", 16);
    assert_eq!(items, vec![b"ok".to_vec()]);
    assert!(matches!(err, FramedReadError::Decode(_)));
}

#[test]
fn framed_read_io_error_is_passed_on() {
    let mut framer = FramedRead::<8, _, ()>::new(LinesCodecOwned::<8>::new(), ());
    assert!(framer.state().wants_read());
    let result = framer.read_frame_owned(Some(Err("broken")));
    assert!(matches!(result, Err(FramedReadError::IO("broken"))));
}

#[test]
fn framed_read_length_frames_small_buffer() {
    let mut data = Vec::new();
    for payload in [&b"one"[..], b"three", b"x"] {
        data.extend_from_slice(&(payload.len() as u32).to_be_bytes());
        data.extend_from_slice(payload);
    }
    let (items, err) = read_all_owned::<12, _>(LengthCodecOwned::<8>::new(), &data, 5);
    assert_eq!(items, vec![b"one".to_vec(), b"three".to_vec(), b"x".to_vec()]);
    assert!(matches!(err, FramedReadError::EOF));
}

#[test]
fn framed_read_parts_and_accessors() {
    let framer = FramedRead::<8, _, u8>::new_with_buffer(LinesCodecOwned::<8>::new(), 7u8, [1u8; 8]);
    assert_eq!(*framer.reader(), 7);
    assert_eq!(framer.state().buffer(), &[1u8; 8]);
    assert_eq!(framer.state().framable(), 0);
    assert!(!framer.state().eof());
    assert!(!framer.state().is_framable());
    assert_eq!(framer.state().total_consumed(), 0);
    let (state, decoder, reader) = framer.into_parts();
    let mut framer = FramedRead::from_parts(state, decoder, reader);
    *framer.reader_mut() = 9;
    assert_eq!(*framer.reader(), 9);
    let _ = framer.decoder();
    let _ = framer.decoder_mut();
    let state: ReadFrame<4> = ReadFrame::default();
    assert_eq!(state.index(), 0);
    assert_eq!(ReadFrame::<4>::new().buffer(), &[0u8; 4]);
}

#[test]
fn framed_write_encodes_into_its_buffer() {
    let mut framer = FramedWrite::<8, _, ()>::new(LinesCodecOwned::<8>::new(), ());
    let size = framer
        .encode_frame::<Vec<u8>, ()>(b"abc".to_vec())
        .unwrap();
    assert_eq!(&framer.state().buffer()[..size], b"abc\r\n");
    let result = framer.encode_frame::<Vec<u8>, ()>(b"abcdefgh".to_vec());
    assert!(matches!(result, Err(FramedWriteError::Encode(_))));
    let (state, encoder, writer) = framer.into_parts();
    let framer = FramedWrite::from_parts(state, encoder, writer);
    let _ = framer.encoder();
    let _ = framer.writer();
    let mut state: WriteFrame<4> = WriteFrame::new_with_buffer([1, 2, 3, 4]);
    state.buffer_mut()[0] = 9;
    assert_eq!(state.buffer(), &[9, 2, 3, 4]);
    assert_eq!(WriteFrame::<2>::default().buffer(), &[0, 0]);
}

#[test]
fn borrowed_framed_write_encodes_into_buffer() {
    let mut buffer = [0u8; 8];
    let mut framer = BorrowedFramedWrite::new((), FrameSizeAwareCodec, &mut buffer);
    let size = framer.encode_frame::<Vec<u8>, ()>(b"hi".to_vec()).unwrap();
    assert_eq!(size, 6);
    assert_eq!(&framer.state().buffer()[..size], &[0, 0, 0, 6, b'h', b'i']);
    let _ = framer.encoder();
    let _ = framer.inner();
    let _codec: FrameSizeAwareCodec = framer.into_encoder();
}

/// Drives the size-aware framer over `data` read `max_read` bytes at a time, the way its
/// stream does: items and errors in order, ending after the first error or at the end of the
/// stream.
fn size_aware_stream<const I: usize, D: SizeAwareDecoder>(
    decoder: D,
    data: &[u8],
    max_read: usize,
) -> Vec<Result<D::Item, SizeAwareError<(), D::Error>>> {
    let mut buffer = [0u8; I];
    let mut framer = SizeAwareFramedRead::new((), decoder, &mut buffer);
    let mut source = ChunkedSource::new(data, max_read);
    let mut items = Vec::new();
    loop {
        if framer.state().has_errored() || framer.state().is_finished() {
            return items;
        }
        let read = if framer.state().wants_read() {
            Some(Ok(source.read_into(framer.read_buffer())))
        } else {
            None
        };
        match framer.read_next(read) {
            Ok(Some(item)) => items.push(Ok(item)),
            Ok(None) => {}
            Err(err) => items.push(Err(err)),
        }
    }
}

fn chunks() -> Vec<&'static [u8]> {
    vec![
        b"\x00\x00\x00\x0f",
        b"hello world",
        b"\x00\x00\x00\x0f",
        b"hello world\x00\x00\x00\x0f",
        b"hello world",
        b"\x00\x00",
        b"\x00\x0fhello",
        b" world",
        b"\x00\x00\x00\x0fhello world\x00\x00\x00",
        b"\x0f",
        b"hell",
        b"o wo",
        b"rld",
        b"\x00\x00\x00\x0f",
        b"h",
        b"e",
        b"l",
        b"l",
        b"o",
        b" ",
        b"w",
        b"o",
        b"r",
        b"l",
        b"d\x00\x00\x00\x0f",
        b"hello world",
        b"\x00\x00\x00\x0f",
        b"hello world",
    ]
}

fn generate_chunks() -> (Vec<u8>, usize) {
    (chunks().concat(), 9)
}

#[test]
fn decode_with_frame_size_aware_decoder_buffer_64() {
    let (data, decoded_len) = generate_chunks();
    let items = size_aware_stream::<64, _>(FrameSizeAwareCodec, &data, 1);
    assert_eq!(items.len(), decoded_len);
    assert!(items.iter().all(|item| matches!(item, Ok(bytes) if bytes == b"hello world")));
}

#[test]
fn decode_with_frame_size_aware_decoder_buffer_32() {
    let (data, decoded_len) = generate_chunks();
    let items = size_aware_stream::<32, _>(FrameSizeAwareCodec, &data, 1);
    assert_eq!(items.len(), decoded_len);
    assert!(items.iter().all(Result::is_ok));
}

#[test]
fn decode_with_frame_size_aware_decoder_buffer_16() {
    let (data, decoded_len) = generate_chunks();
    let items = size_aware_stream::<16, _>(FrameSizeAwareCodec, &data, 1);
    assert_eq!(items.len(), decoded_len);
    assert!(items.iter().all(Result::is_ok));
}

#[test]
fn decode_with_frame_size_aware_decoder_buffer_8() {
    let (data, _) = generate_chunks();
    let items = size_aware_stream::<8, _>(FrameSizeAwareCodec, &data, 1);
    assert_eq!(items.len(), 1);
    assert!(matches!(items.last(), Some(Err(SizeAwareError::BufferTooSmall))));
}

#[test]
fn decode_with_frame_size_aware_decoder_buffer_16_with_bytes_remaining_on_stream() {
    let (mut data, decoded_len) = generate_chunks();
    data.extend_from_slice(b"\x00\x00\x00\x0fhell");
    let items = size_aware_stream::<16, _>(FrameSizeAwareCodec, &data, 1);
    assert_eq!(items.len(), decoded_len + 1);
    assert!(matches!(items.last(), Some(Err(SizeAwareError::BytesRemainingOnStream))));
}

#[test]
fn decode_with_frame_large_size() {
    let mut data = b"\x00\x00\xff\x00".to_vec();
    data.extend_from_slice(&[0u8; 16]);
    let items = size_aware_stream::<64, _>(FrameSizeAwareCodec, &data, 1);
    assert!(matches!(items.last(), Some(Err(SizeAwareError::BufferTooSmall))));
}

#[test]
fn decode_with_frame_size_aware_decoder_buffer_16_last_frame_large_size() {
    let (mut data, decoded_len) = generate_chunks();
    data.extend_from_slice(b"\x00\x00\xff\x00");
    data.extend_from_slice(&[0u8; 16]);
    let items = size_aware_stream::<16, _>(FrameSizeAwareCodec, &data, 1);
    assert_eq!(items.len(), decoded_len + 1);
    assert!(matches!(items.last(), Some(Err(SizeAwareError::BufferTooSmall))));
}

/// A decoder that always announces a next frame of four bytes and never decodes one.
struct DecoderAlwaysReturningKnownFrameSize;

impl SizeAwareDecoder for DecoderAlwaysReturningKnownFrameSize {
    type Item = ();
    type Error = ();

    fn decode(&mut self, _: &mut [u8]) -> Result<MaybeDecoded<Self::Item>, Self::Error> {
        Ok(MaybeDecoded::Incomplete(FrameSize::Known(4)))
    }

    fn decode_eof(&mut self, src: &mut [u8]) -> Result<MaybeDecoded<Self::Item>, Self::Error> {
        self.decode(src)
    }
}

/// A decoder that never knows the size of the next frame.
struct DecoderAlwaysReturnsUnknownFrameSize;

impl SizeAwareDecoder for DecoderAlwaysReturnsUnknownFrameSize {
    type Item = ();
    type Error = ();

    fn decode(&mut self, _: &mut [u8]) -> Result<MaybeDecoded<Self::Item>, Self::Error> {
        Ok(MaybeDecoded::Incomplete(FrameSize::Unknown))
    }

    fn decode_eof(&mut self, src: &mut [u8]) -> Result<MaybeDecoded<Self::Item>, Self::Error> {
        self.decode(src)
    }
}

/// A decoder that always fails.
struct ErrorCodec;

impl SizeAwareDecoder for ErrorCodec {
    type Item = ();
    type Error = ();

    fn decode(&mut self, _: &mut [u8]) -> Result<MaybeDecoded<Self::Item>, Self::Error> {
        Err(())
    }

    fn decode_eof(&mut self, src: &mut [u8]) -> Result<MaybeDecoded<Self::Item>, Self::Error> {
        self.decode(src)
    }
}

/// A decoder that takes four bytes at a time.
struct FourBytes;

impl SizeAwareDecoder for FourBytes {
    type Item = ();
    type Error = ();

    fn decode(&mut self, src: &mut [u8]) -> Result<MaybeDecoded<Self::Item>, Self::Error> {
        if src.len() >= 4 {
            return Ok(MaybeDecoded::Frame(Frame::new(4, ())));
        }
        Ok(MaybeDecoded::Incomplete(FrameSize::Unknown))
    }

    fn decode_eof(&mut self, src: &mut [u8]) -> Result<MaybeDecoded<Self::Item>, Self::Error> {
        self.decode(src)
    }
}

#[test]
fn decoder_always_returns_known_size_decoder_buffer_too_small() {
    let (data, _) = generate_chunks();
    let items = size_aware_stream::<64, _>(DecoderAlwaysReturningKnownFrameSize, &data, 1);
    assert_eq!(items.len(), 1);
    assert!(matches!(items.last(), Some(Err(SizeAwareError::BufferTooSmall))));
}

#[test]
fn bytes_remainning_on_stream() {
    let data = chunks()[..8].concat();
    let items = size_aware_stream::<64, _>(DecoderAlwaysReturnsUnknownFrameSize, &data, 1);
    assert_eq!(items.len(), 1);
    assert!(matches!(items.last(), Some(Err(SizeAwareError::BytesRemainingOnStream))));
}

#[test]
fn codec_error_with_unknown_frame_size() {
    let items = size_aware_stream::<46, _>(ErrorCodec, b"hello world\r\nhello worl", 46);
    assert!(matches!(items.last(), Some(Err(SizeAwareError::Decode(())))));
}

#[test]
fn bytes_remaining_on_stream_after_oef_reached_and_promissed_frame_size_is_set_and_after_error() {
    let items = size_aware_stream::<64, _>(
        FrameSizeAwareCodec,
        b"\x00\x00\x00\x0fhello world\x00\x00\x00\x0f",
        64,
    );
    assert!(matches!(items.last(), Some(Err(SizeAwareError::BytesRemainingOnStream))));
}

#[test]
fn size_aware_framer_resets_after_consuming_everything() {
    let items = size_aware_stream::<8, _>(FourBytes, b"aaaabbbbcccc", 8);
    assert_eq!(items.len(), 3);
    assert!(items.iter().all(Result::is_ok));
}

#[test]
fn size_aware_framer_accessors() {
    let mut buffer = [0u8; 4];
    let mut framer = SizeAwareFramedRead::new(5u8, FourBytes, &mut buffer);
    assert_eq!(*framer.inner(), 5);
    *framer.inner_mut() = 6;
    assert_eq!(framer.state().index(), 0);
    assert_eq!(framer.state().frame_size(), None);
    assert_eq!(framer.state().buffer(), &[0u8; 4]);
    assert_eq!(framer.state().framable(), 0);
    assert_eq!(framer.state().total_consumed(), 0);
    let _ = framer.decoder();
    assert_eq!(framer.into_inner(), 6);
}

fn encode_with<E: Encoder<Vec<u8>>>(mut encoder: E, item: Vec<u8>, dst: &mut [u8]) -> usize {
    encoder.encode(item, dst).ok().unwrap()
}

#[test]
fn encoder_trait_is_usable_generically() {
    let mut dst = [0u8; 8];
    assert_eq!(encode_with(FrameSizeAwareCodec, b"ab".to_vec(), &mut dst), 6);
}

fn needle_items<const I: usize, const O: usize>(data: &[u8], max_read: usize) -> Vec<Vec<u8>> {
    let items = size_aware_stream::<I, _>(cody_c::codec::NeedleCodec::<O>::new(b"##"), data, max_read);
    items.into_iter().map(|item| item.expect("Must decode")).collect()
}

#[test]
fn needle_one_item_one_stroke() {
    assert_eq!(needle_items::<5, 3>(b"1##", 5), vec![b"1".to_vec()]);
}

#[test]
fn needle_three_items_one_stroke() {
    assert_eq!(
        needle_items::<9, 5>(b"1##2##3##", 9),
        vec![b"1".to_vec(), b"2".to_vec(), b"3".to_vec()]
    );
}

#[test]
fn needle_three_items_many_strokes() {
    assert_eq!(
        needle_items::<3, 5>(b"1##2##3##", 3),
        vec![b"1".to_vec(), b"2".to_vec(), b"3".to_vec()]
    );
}

#[test]
fn any_delimiter_framed_read_slow_reader() {
    let data = b"jh asjd##k hb##jsjuwjal kadj##jsadhjiu##w##jal kadjjsadhjiuwqens ##nd yxxcjajsdi##askdn asjdasd##iouqw essd##";
    let (items, err) = read_all_owned::<32, _>(cody_c::codec::AnyDelimiterCodecOwned::<24>::new(b"##"), data, 7);
    let expected: Vec<Vec<u8>> = [
        &b"jh asjd"[..],
        b"k hb",
        b"jsjuwjal kadj",
        b"jsadhjiu",
        b"w",
        b"jal kadjjsadhjiuwqens ",
        b"nd yxxcjajsdi",
        b"askdn asjdasd",
        b"iouqw essd",
    ]
    .iter()
    .map(|item| item.to_vec())
    .collect();
    assert_eq!(items, expected);
    assert!(matches!(err, FramedReadError::EOF));
}

#[test]
fn bytes_framed_read_hands_out_what_was_read() {
    let mut framer = FramedRead::<4, _, ()>::new(cody_c::codec::BytesCodecOwned::<4>::new(), ());
    let (_, free) = framer.reader_and_free_buffer();
    free[..3].copy_from_slice(b"abc");
    assert!(matches!(framer.read_frame_owned::<()>(Some(Ok(3))), Ok(None)));
    assert_eq!(framer.read_frame_owned::<()>(None).unwrap(), Some(b"abc".to_vec()));
    assert_eq!(framer.state().total_consumed(), 3);
    // An empty rest holds no frame: the framer reads again, and at the end of the stream it
    // reports the end instead of handing out empty frames.
    assert!(matches!(framer.read_frame_owned::<()>(None), Ok(None)));
    assert!(framer.state().wants_read());
    assert!(matches!(framer.read_frame_owned::<()>(Some(Ok(0))), Ok(None)));
    assert!(matches!(framer.read_frame_owned::<()>(None), Err(FramedReadError::EOF)));
}

#[test]
fn from_slice_tiny_buffers() {
    let data: &[u8] = b"jh asjdk hbjsjuwjal kadjjsadhjiuwqens nd yxxcjajsdiaskdn asjdasdiouqw essd";
    let (items, err) = read_all_owned::<1, _>(cody_c::codec::BytesCodecOwned::<1>::new(), data, 1);
    assert_eq!(items.concat(), data.to_vec());
    assert!(matches!(err, FramedReadError::EOF));
}

#[test]
fn from_slice_same_size() {
    let data: &[u8] = b"jh asjdk hbjsjuwjal kadjjsadhjiuwqens nd yxxcjajsdiaskdn asjdasdiouqw essd";
    let (items, err) = read_all_owned::<5, _>(cody_c::codec::BytesCodecOwned::<5>::new(), data, 5);
    assert_eq!(items.concat(), data.to_vec());
    assert!(matches!(err, FramedReadError::EOF));
}

#[test]
fn from_slice_output_larger() {
    let data: &[u8] = b"jh asjdk hbjsjuwjal kadjjsadhjiuwqens nd yxxcjajsdiaskdn asjdasdiouqw essd";
    let (items, err) = read_all_owned::<3, _>(cody_c::codec::BytesCodecOwned::<5>::new(), data, 1024);
    assert_eq!(items.concat(), data.to_vec());
    assert!(matches!(err, FramedReadError::EOF));
}

fn generate_chunks_2() -> Vec<u8> {
    let mut data = Vec::new();
    for _ in 0..2 {
        for n in 1..=12 {
            data.extend(std::iter::repeat(b'a').take(n));
        }
    }
    data
}

/// A decoder that panics when a buffer is not bigger than the one it last answered
/// `FrameSize::Unknown` to.
struct DecoderChecksThatBufferIsBiggerThanPreviousBuffer {
    previous_buffer_size: Option<usize>,
}

impl SizeAwareDecoder for DecoderChecksThatBufferIsBiggerThanPreviousBuffer {
    type Item = ();
    type Error = ();

    fn decode(&mut self, src: &mut [u8]) -> Result<MaybeDecoded<Self::Item>, Self::Error> {
        if let Some(previous_buffer_size) = self.previous_buffer_size {
            if src.len() < previous_buffer_size {
                panic!("Buffer is not bigger than previous buffer");
            }
        }
        if src.len() >= 4 {
            self.previous_buffer_size = None;
            return Ok(MaybeDecoded::Frame(Frame::new(4, ())));
        }
        self.previous_buffer_size = Some(src.len());
        Ok(MaybeDecoded::Incomplete(FrameSize::Unknown))
    }

    fn decode_eof(&mut self, src: &mut [u8]) -> Result<MaybeDecoded<Self::Item>, Self::Error> {
        self.previous_buffer_size = None;
        self.decode(src)
    }
}

#[test]
fn decode_with_decoder_checks_buffer_length_buffer_16() {
    let mut data = generate_chunks_2();
    let decoder = DecoderChecksThatBufferIsBiggerThanPreviousBuffer { previous_buffer_size: None };
    // Ends with an empty buffer at the end of the stream.
    let _ = size_aware_stream::<16, _>(decoder, &data, 1);

    data.push(b'a');
    let decoder = DecoderChecksThatBufferIsBiggerThanPreviousBuffer { previous_buffer_size: None };
    // Ends with a buffer of one byte at the end of the stream.
    let _ = size_aware_stream::<16, _>(decoder, &data, 1);
}

/// A decoder that panics when a buffer is smaller than the frame size it announced.
struct DecoderChecksThatBufferIsBiggerOrEqualToGivenFrameSize {
    frame_size: Option<usize>,
}

impl SizeAwareDecoder for DecoderChecksThatBufferIsBiggerOrEqualToGivenFrameSize {
    type Item = ();
    type Error = ();

    fn decode(&mut self, src: &mut [u8]) -> Result<MaybeDecoded<Self::Item>, Self::Error> {
        if let Some(frame_size) = self.frame_size {
            if src.len() < frame_size {
                panic!("Buffer is not bigger or equal to given frame size");
            }
        }
        if src.len() >= 4 {
            self.frame_size = None;
            return Ok(MaybeDecoded::Frame(Frame::new(4, ())));
        }
        self.frame_size = Some(4);
        Ok(MaybeDecoded::Incomplete(FrameSize::Known(4)))
    }

    fn decode_eof(&mut self, src: &mut [u8]) -> Result<MaybeDecoded<Self::Item>, Self::Error> {
        self.decode(src)
    }
}

#[test]
fn decode_with_decoder_checks_frame_size_buffer_16() {
    let data = generate_chunks_2();
    let decoder = DecoderChecksThatBufferIsBiggerOrEqualToGivenFrameSize { frame_size: None };
    let _ = size_aware_stream::<16, _>(decoder, &data, 1);
}

#[test]
fn bytes_remaining_on_stream_after_oef_reached_with_unknown_frame_size() {
    let (items, err) = read_all_lines::<46>(b"hello world\r\nhello worl", 46);
    assert_eq!(items, vec![b"hello world".to_vec()]);
    assert_eq!(err, "BytesRemainingOnStream");
}

fn framed_read_error_name<I, D>(err: &FramedReadError<I, D>) -> &'static str {
    match err {
        FramedReadError::IO(_) => "IO",
        FramedReadError::Decode(_) => "Decode",
        FramedReadError::BufferTooSmall => "BufferTooSmall",
        FramedReadError::BytesRemainingOnStream => "BytesRemainingOnStream",
        FramedReadError::EOF => "EOF",
    }
}

/// Drives a framer with a borrowing decoder over `data`, read at most `max_read` bytes at a
/// time, until it reports an error: the frames it handed out and the name of the error.
fn read_all_borrowed<const N: usize, D>(
    decoder: D,
    data: &[u8],
    max_read: usize,
) -> (Vec<Vec<u8>>, &'static str)
where
    D: for<'a> cody_c::decode::Decoder<'a>,
    for<'a> <D as cody_c::decode::Decoder<'a>>::Item: AsRef<[u8]>,
{
    let mut framer = FramedRead::<N, D, ()>::new(decoder, ());
    let mut source = ChunkedSource::new(data, max_read);
    let mut items = Vec::new();
    loop {
        let read = if framer.state().wants_read() {
            let (_, free) = framer.reader_and_free_buffer();
            Some(Ok::<usize, ()>(source.read_into(free)))
        } else {
            None
        };
        match framer.read_frame(read) {
            Ok(Some(item)) => items.push(item.as_ref().to_vec()),
            Ok(None) => {}
            Err(err) => return (items, framed_read_error_name(&err)),
        }
    }
}

/// Runs the table of buffer sizes and read sizes that the borrowed line and delimiter
/// framers are checked against.
fn check_framed_read_table<D>(decoder: D, data: &[u8], full: &[&[u8]], full_err: &str)
where
    D: Clone + for<'a> cody_c::decode::Decoder<'a>,
    for<'a> <D as cody_c::decode::Decoder<'a>>::Item: AsRef<[u8]>,
{
    let to_vecs = |items: &[&[u8]]| items.iter().map(|item| item.to_vec()).collect::<Vec<_>>();
    for max_read in [1024, 1, 2, 4] {
        assert_eq!(read_all_borrowed::<1, _>(decoder.clone(), data, max_read), (vec![], "BufferTooSmall"));
        assert_eq!(read_all_borrowed::<2, _>(decoder.clone(), data, max_read), (vec![], "BufferTooSmall"));
        assert_eq!(read_all_borrowed::<4, _>(decoder.clone(), data, max_read), (vec![], "BufferTooSmall"));
    }
    for max_read in [1024, 1, 2, 4] {
        assert_eq!(read_all_borrowed::<32, _>(decoder.clone(), data, max_read), (to_vecs(full), full_err));
    }
    assert_eq!(read_all_borrowed::<1024, _>(decoder, data, 1024).0, to_vecs(full));
}

#[test]
fn lines_framed_read() {
    let data = b"Hello\nHello, world!\nHei\r\nsup\nHey\r\nHow are y";
    let expected: &[&[u8]] = &[b"Hello", b"Hello, world!", b"Hei", b"sup", b"Hey"];
    for max_read in [1024, 1, 2, 4] {
        assert_eq!(read_all_borrowed::<8, _>(LinesCodec::new(), data, max_read), (vec![b"Hello".to_vec()], "BufferTooSmall"));
        let (items, err) = read_all_borrowed::<16, _>(LinesCodec::new(), data, max_read);
        assert_eq!(items, expected.iter().map(|item| item.to_vec()).collect::<Vec<_>>());
        assert_eq!(err, "BytesRemainingOnStream");
    }
    check_framed_read_table(LinesCodec::new(), data, expected, "BytesRemainingOnStream");
}

#[test]
fn framed_read_str() {
    let data = b"Hello\nHello, world!\nHei\r\nsup\nHey\r\nHow are y";
    let expected: &[&[u8]] = &[b"Hello", b"Hello, world!", b"Hei", b"sup", b"Hey"];
    for max_read in [1024, 1, 2, 4] {
        assert_eq!(
            read_all_borrowed::<8, _>(cody_c::codec::StrLinesCodec::new(), data, max_read),
            (vec![b"Hello".to_vec()], "BufferTooSmall")
        );
        let (items, err) = read_all_borrowed::<16, _>(cody_c::codec::StrLinesCodec::new(), data, max_read);
        assert_eq!(items, expected.iter().map(|item| item.to_vec()).collect::<Vec<_>>());
        assert_eq!(err, "BytesRemainingOnStream");
    }
    check_framed_read_table(cody_c::codec::StrLinesCodec::new(), data, expected, "BytesRemainingOnStream");
}

#[test]
fn any_framed_read() {
    let data: &[u8] = b"jh asjd##ppppppppppppppp##k hb##jsjuwjal kadj##jsadhjiu##w##jal kadjjsadhjiuwqens ##nd yxxcjajsdi##askdn asjdasd##iouqw essd##k";
    let expected: &[&[u8]] = &[
        b"jh asjd",
        b"ppppppppppppppp",
        b"k hb",
        b"jsjuwjal kadj",
        b"jsadhjiu",
        b"w",
        b"jal kadjjsadhjiuwqens ",
        b"nd yxxcjajsdi",
        b"askdn asjdasd",
        b"iouqw essd",
    ];
    let decoder = cody_c::codec::AnyDelimiterCodec::new(b"##");
    assert_eq!(read_all_borrowed::<16, _>(decoder.clone(), data, 1024), (vec![b"jh asjd".to_vec()], "BufferTooSmall"));
    check_framed_read_table(decoder, data, expected, "BytesRemainingOnStream");
}

/// Encodes `items` one frame at a time with a framer over `encoder`, appending each frame to
/// the bytes written so far.
fn write_all_frames<E: Encoder<Vec<u8>>>(encoder: E, items: &[Vec<u8>]) -> Vec<u8> {
    let mut framer = FramedWrite::<1024, _, Vec<u8>>::new(encoder, Vec::new());
    for item in items {
        let size = framer.encode_frame::<Vec<u8>, ()>(item.clone()).ok().expect("Must send");
        let (written, buffer) = framer.writer_and_buffer();
        written.extend_from_slice(&buffer[..size]);
    }
    framer.into_parts().2
}

fn sink_stream_items() -> Vec<Vec<u8>> {
    [&b"Hello"[..], b"Hello, world!", b"Hei", b"sup", b"Hey"].iter().map(|item| item.to_vec()).collect()
}

#[test]
fn lines_sink_stream() {
    let items = sink_stream_items();
    let written = write_all_frames(LinesCodecOwned::<32>::new(), &items);
    let (collected, err) = read_all_owned::<1024, _>(LinesCodecOwned::<32>::new(), &written, 1024);
    assert_eq!(collected, items);
    assert!(matches!(err, FramedReadError::EOF));
}

#[test]
fn any_sink_stream() {
    let items = sink_stream_items();
    let written = write_all_frames(cody_c::codec::AnyDelimiterCodecOwned::<32>::new(b"###"), &items);
    let decoder = cody_c::codec::AnyDelimiterCodecOwned::<32>::new(b"###");
    let (collected, err) = read_all_owned::<1024, _>(decoder, &written, 1024);
    assert_eq!(collected, items);
    assert!(matches!(err, FramedReadError::EOF));
}

#[test]
fn sink_stream_str() {
    let items: Vec<String> = ["Hello", "Hello, world!", "Hei", "sup", "Hey"].iter().map(|s| s.to_string()).collect();
    let mut framer = FramedWrite::<1024, _, Vec<u8>>::new(StringLinesCodec::<32>::new(), Vec::new());
    for item in &items {
        let size = framer.encode_frame::<String, ()>(item.clone()).ok().expect("Must send");
        let (written, buffer) = framer.writer_and_buffer();
        written.extend_from_slice(&buffer[..size]);
    }
    let written = framer.into_parts().2;
    let (collected, err) = read_all_owned::<1024, _>(StringLinesCodec::<32>::new(), &written, 1024);
    assert_eq!(collected, items);
    assert!(matches!(err, FramedReadError::EOF));
}

/// Writes one byte per item.
struct EncodeOne;

impl Encoder<u8> for EncodeOne {
    type Error = ();

    fn encode(&mut self, item: u8, dst: &mut [u8]) -> Result<usize, Self::Error> {
        if dst.is_empty() {
            return Err(());
        }
        dst[0] = item;
        Ok(1)
    }
}

/// Writes nothing for any item.
struct EncoderZero;

impl Encoder<u8> for EncoderZero {
    type Error = ();

    fn encode(&mut self, _item: u8, _dst: &mut [u8]) -> Result<usize, Self::Error> {
        Ok(0)
    }
}

/// Sends every item through a borrowed-buffer framer into `write`, the way its sink does.
fn send_all<E: Encoder<u8, Error = ()>>(encoder: E, items: &[u8], write: &mut [u8]) {
    let mut buf = [0u8; 16];
    let mut framer = BorrowedFramedWrite::new(0usize, encoder, &mut buf);
    for item in items {
        let size = framer.encode_frame::<u8, ()>(*item).ok().expect("Must send");
        let (position, buffer) = framer.inner_and_buffer();
        write[*position..*position + size].copy_from_slice(&buffer[..size]);
        *position += size;
    }
}

#[test]
fn zero_nothing_written() {
    let items = [10u8; 32];
    let mut write = [0u8; 32];
    send_all(EncoderZero, &items, &mut write);
    assert!(write.iter().all(|&b| b == 0));
}

#[test]
fn one() {
    let items = [10u8; 32];
    let mut write = [0u8; 32];
    send_all(EncodeOne, &items, &mut write);
    assert!(write.iter().all(|&b| b == 10));
}

#[test]
fn borrowed_codecs_round_trip_through_framers() {
    let item: &[u8] = b"some item without delimiters";

    let mut dst = [0u8; 64];
    let n = Encoder::encode(&mut LinesCodec::new(), item, &mut dst).ok().unwrap();
    let (items, err) = read_all_borrowed::<64, _>(LinesCodec::new(), &dst[..n], 32);
    assert_eq!((items, err), (vec![item.to_vec()], "EOF"));

    let n = Encoder::encode(&mut cody_c::codec::AnyDelimiterCodec::new(b"#"), item, &mut dst).ok().unwrap();
    let (items, err) = read_all_borrowed::<64, _>(cody_c::codec::AnyDelimiterCodec::new(b"#"), &dst[..n], 32);
    assert_eq!((items, err), (vec![item.to_vec()], "EOF"));

    let text = "ünïcödé line";
    let n = Encoder::encode(&mut cody_c::codec::StrLinesCodec::new(), text, &mut dst).ok().unwrap();
    let (items, err) = read_all_borrowed::<64, _>(cody_c::codec::StrLinesCodec::new(), &dst[..n], 32);
    assert_eq!((items, err), (vec![text.as_bytes().to_vec()], "EOF"));

    // The bytes codec frames whatever was read, so one read and one decoding step suffice.
    let n = Encoder::encode(&mut cody_c::codec::BytesCodec::new(), item, &mut dst).ok().unwrap();
    let mut framer = FramedRead::<64, _, ()>::new(cody_c::codec::BytesCodec::new(), ());
    let (_, free) = framer.reader_and_free_buffer();
    free[..n].copy_from_slice(&dst[..n]);
    assert!(matches!(framer.read_frame::<()>(Some(Ok(n))), Ok(None)));
    let decoded = framer.read_frame::<()>(None).ok().unwrap().unwrap().to_vec();
    assert_eq!(decoded, item.to_vec());
}

#[test]
fn early_shift_moves_the_rest_to_the_front() {
    let mut framer = FramedRead::<8, _, ()>::new(LinesCodecOwned::<8>::new(), ());
    assert!(!framer.state().early_shift());
    framer.state_mut().set_early_shift(true);
    let (_, free) = framer.reader_and_free_buffer();
    free[..5].copy_from_slice(b"ab\ncd");
    assert!(matches!(framer.read_frame_owned::<()>(Some(Ok(5))), Ok(None)));
    assert_eq!(framer.read_frame_owned::<()>(None).unwrap(), Some(b"ab".to_vec()));
    // No line in "cd": with early shifting the rest moves to the front before the next read.
    assert!(matches!(framer.read_frame_owned::<()>(None), Ok(None)));
    assert!(!framer.state().wants_read());
    assert!(matches!(framer.read_frame_owned::<()>(None), Ok(None)));
    assert_eq!(framer.state().index(), 2);
    assert_eq!(&framer.state().buffer()[..2], b"cd");
    assert!(framer.state().wants_read());
}

#[test]
fn default_shift_waits_for_a_full_buffer() {
    let mut framer = FramedRead::<8, _, ()>::new(LinesCodecOwned::<8>::new(), ());
    let (_, free) = framer.reader_and_free_buffer();
    free[..5].copy_from_slice(b"ab\ncd");
    assert!(matches!(framer.read_frame_owned::<()>(Some(Ok(5))), Ok(None)));
    assert_eq!(framer.read_frame_owned::<()>(None).unwrap(), Some(b"ab".to_vec()));
    assert!(matches!(framer.read_frame_owned::<()>(None), Ok(None)));
    assert!(framer.state().wants_read());
    assert_eq!(framer.state().index(), 5);
}

#[test]
fn size_aware_early_shift() {
    let mut buffer = [0u8; 8];
    let mut framer = SizeAwareFramedRead::new((), FourBytes, &mut buffer);
    framer.set_early_shift(true);
    assert!(framer.state().early_shift());
    framer.read_buffer()[..6].copy_from_slice(b"aaaabb");
    assert!(matches!(framer.read_next::<()>(Some(Ok(6))), Ok(None)));
    assert!(matches!(framer.read_next::<()>(None), Ok(Some(()))));
    // "bb" is no frame yet and its size is unknown: with early shifting it moves to the front.
    assert!(matches!(framer.read_next::<()>(None), Ok(None)));
    assert_eq!(framer.state().index(), 2);
    assert_eq!(framer.state().total_consumed(), 0);
}

#[test]
fn size_aware_stream_ends_after_the_last_frame() {
    let items = size_aware_stream::<8, _>(FourBytes, b"aaaabbbb", 3);
    assert_eq!(items.len(), 2);
    let mut buffer = [0u8; 8];
    let mut framer = SizeAwareFramedRead::new((), FourBytes, &mut buffer);
    framer.read_buffer()[..4].copy_from_slice(b"aaaa");
    assert!(matches!(framer.read_next::<()>(Some(Ok(4))), Ok(None)));
    assert!(matches!(framer.read_next::<()>(None), Ok(Some(()))));
    assert!(framer.state().wants_read());
    assert!(matches!(framer.read_next::<()>(Some(Ok(0))), Ok(None)));
    assert!(framer.state().is_finished());
    assert!(!framer.state().wants_read());
    assert!(matches!(framer.read_next::<()>(None), Ok(None)));
    assert!(framer.state().is_finished());
}

#[test]
fn framed_read_each_frame_consumes_bytes() {
    let mut framer = FramedRead::<16, _, ()>::new(LinesCodecOwned::<8>::new(), ());
    framer.state_mut().buffer_mut()[..6].copy_from_slice(b"a\nbb\nc");
    assert!(matches!(framer.read_frame_owned::<()>(Some(Ok(6))), Ok(None)));
    assert_eq!(framer.state().framable(), 6);
    let item = framer.read_frame_owned::<()>(None).unwrap().unwrap();
    assert_eq!(item, b"a".to_vec());
    assert_eq!(framer.state().framable(), 4);
    let item = framer.read_frame_owned::<()>(None).unwrap().unwrap();
    assert_eq!(item, b"bb".to_vec());
    assert_eq!(framer.state().framable(), 1);
}

#[test]
fn framed_read_eof_stays_reached() {
    let mut framer = FramedRead::<16, _, ()>::new(LinesCodecOwned::<8>::new(), ());
    framer.state_mut().buffer_mut()[..2].copy_from_slice(b"a\n");
    assert!(matches!(framer.read_frame_owned::<()>(Some(Ok(2))), Ok(None)));
    let item = framer.read_frame_owned::<()>(None).unwrap().unwrap();
    assert_eq!(item, b"a".to_vec());
    assert!(matches!(framer.read_frame_owned::<()>(None), Ok(None)));
    assert!(framer.state().wants_read());
    assert!(matches!(framer.read_frame_owned::<()>(Some(Ok(0))), Ok(None)));
    assert!(framer.state().eof());
    assert!(framer.state().is_framable());
    assert!(matches!(framer.read_frame_owned::<()>(None), Err(FramedReadError::EOF)));
    assert!(framer.state().eof());
}
