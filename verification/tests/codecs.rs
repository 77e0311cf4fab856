use cody_c::codec::bincode_codec::BincodeCodec;
use cody_c::codec::needle::{NeedleCodec, NeedleDecoderError};
use cody_c::codec::{
    AnyDelimiterCodec, AnyDelimiterCodecOwned, AnyDelimiterEncodeError, BincodeEncodeError,
    BytesCodec, BytesCodecOwned, BytesEncodeError, LengthCodec, LengthCodecOwned,
    LengthEncodeError, LinesCodec, LinesCodecOwned, LinesEncodeError, LinesOwnedDecodeError,
    StrLinesCodec, StrLinesDecodeError, StringLinesCodec, StringLinesDecodeError,
    SIZE_OF_LENGTH,
};
use cody_c::decode::decoder::Decoder as SizeAwareDecoder;
use cody_c::decode::maybe_decoded::{FrameSize, MaybeDecoded};
use cody_c::decode::{Decoder, DecoderOwned};
use cody_c::encode::Encoder;
use cody_c::frame_size_aware::FrameSizeAwareCodec;

#[test]
fn lines_decode_strips_carriage_return() {
    let mut codec = LinesCodec::new();
    let mut buf = *b"hello\r\nworld\n";
    let (line, size) = codec.decode(&mut buf).unwrap().unwrap();
    assert_eq!(line, b"hello");
    assert_eq!(size, 7);
    let (line, size) = codec.decode(&mut buf[7..]).unwrap().unwrap();
    assert_eq!(line, b"world");
    assert_eq!(size, 6);
}

#[test]
fn lines_decode_resumes_after_miss() {
    let mut codec = LinesCodec::new();
    let mut partial = *b"hel";
    assert!(codec.decode(&mut partial).unwrap().is_none());
    let mut full = *b"hello\nrest";
    let (line, size) = codec.decode(&mut full).unwrap().unwrap();
    assert_eq!(line, b"hello");
    assert_eq!(size, 6);
}

#[test]
fn lines_decode_empty_line() {
    let mut codec = LinesCodec::new();
    let mut buf = *b"\r\n";
    let (line, size) = codec.decode(&mut buf).unwrap().unwrap();
    assert_eq!(line, b"");
    assert_eq!(size, 2);
}

#[test]
fn lines_encode_appends_crlf() {
    let mut codec = LinesCodec::new();
    let mut dst = [0u8; 8];
    let size = codec.encode(&b"abc"[..], &mut dst).unwrap();
    assert_eq!(size, 5);
    assert_eq!(&dst[..5], b"abc\r\n");
    assert_eq!(&dst[5..], &[0, 0, 0]);
}

#[test]
fn lines_encode_buffer_too_small() {
    let mut codec = LinesCodec::new();
    let mut dst = [7u8; 4];
    assert!(matches!(
        codec.encode(&b"abc"[..], &mut dst),
        Err(LinesEncodeError::BufferTooSmall)
    ));
    assert_eq!(dst, [7u8; 4]);
}

#[test]
fn lines_round_trip_with_trailing_carriage_return() {
    let mut codec = LinesCodec::new();
    let mut dst = [0u8; 16];
    let size = codec.encode(&b"ab\r"[..], &mut dst).unwrap();
    let (line, consumed) = codec.decode(&mut dst[..size]).unwrap().unwrap();
    assert_eq!(line, b"ab\r");
    assert_eq!(consumed, size);
}

#[test]
fn lines_owned_decode_and_limit() {
    let mut codec = LinesCodecOwned::<3>::new();
    let mut buf = *b"hey\n";
    let (line, size) = codec.decode_owned(&mut buf).unwrap().unwrap();
    assert_eq!(line, b"hey".to_vec());
    assert_eq!(size, 4);
    let mut long = *b"hello\n";
    assert!(matches!(
        codec.decode_owned(&mut long),
        Err(LinesOwnedDecodeError::BufferTooSmall)
    ));
}

#[test]
fn lines_owned_encode() {
    let mut codec = LinesCodecOwned::<8>::from(LinesCodec::new());
    let mut dst = [0u8; 6];
    assert_eq!(codec.encode(b"four".to_vec(), &mut dst).unwrap(), 6);
    assert_eq!(&dst, b"four\r\n");
}

#[test]
fn str_lines_decode_valid_and_invalid() {
    let mut codec = StrLinesCodec::new();
    let mut buf = "héllo\r\n".as_bytes().to_vec();
    let (line, size) = codec.decode(&mut buf).unwrap().unwrap();
    assert_eq!(line, "héllo");
    assert_eq!(size, 8);
    let mut bad = vec![0xffu8, b'\n'];
    assert!(matches!(
        codec.decode(&mut bad),
        Err(StrLinesDecodeError::Utf8(_))
    ));
}

#[test]
fn str_lines_encode() {
    let mut codec = StrLinesCodec::new();
    let mut dst = [0u8; 8];
    assert_eq!(codec.encode("ñu", &mut dst).unwrap(), 5);
    assert_eq!(&dst[..5], "ñu\r\n".as_bytes());
}

#[test]
fn string_lines_decode_errors() {
    let mut codec = StringLinesCodec::<3>::new();
    let mut buf = *b"abcd\n";
    assert!(matches!(
        codec.decode_owned(&mut buf),
        Err(StringLinesDecodeError::BufferTooSmall)
    ));
    let mut bad = [0xc3u8, b'\n'];
    assert!(matches!(
        codec.decode_owned(&mut bad),
        Err(StringLinesDecodeError::Str(StrLinesDecodeError::Utf8(_)))
    ));
    let mut ok = *b"abc\n";
    let (line, size) = codec.decode_owned(&mut ok).unwrap().unwrap();
    assert_eq!(line, "abc");
    assert_eq!(size, 4);
}

#[test]
fn string_lines_encode() {
    let mut codec = StringLinesCodec::<8>::from(StrLinesCodec::new());
    let mut dst = [0u8; 4];
    assert_eq!(codec.encode(String::from("hi"), &mut dst).unwrap(), 4);
    assert_eq!(&dst, b"hi\r\n");
    let mut small = [0u8; 3];
    assert!(matches!(
        codec.encode(String::from("hi"), &mut small),
        Err(LinesEncodeError::BufferTooSmall)
    ));
}

#[test]
fn length_decode_frame() {
    let mut codec = LengthCodec::new();
    let mut buf = [0u8, 0, 0, 3, b'a', b'b', b'c', b'x'];
    let (payload, size) = codec.decode(&mut buf).unwrap().unwrap();
    assert_eq!(payload, b"abc");
    assert_eq!(size, 7);
    let mut partial = [0u8, 0, 1, 0, 1, 2];
    assert!(codec.decode(&mut partial).unwrap().is_none());
    let mut short = [0u8, 0];
    assert!(codec.decode(&mut short).unwrap().is_none());
}

#[test]
fn length_prefix_is_big_endian() {
    let mut codec = LengthCodec::new();
    let payload = vec![9u8; 258];
    let mut dst = vec![0u8; 300];
    let size = codec.encode(&payload[..], &mut dst).unwrap();
    assert_eq!(size, 262);
    assert_eq!(&dst[..SIZE_OF_LENGTH], &[0, 0, 1, 2]);
    let (decoded, consumed) = codec.decode(&mut dst).unwrap().unwrap();
    assert_eq!(decoded, &payload[..]);
    assert_eq!(consumed, 262);
}

#[test]
fn length_encode_buffer_too_small() {
    let mut codec = LengthCodec::new();
    let mut dst = [0u8; 5];
    assert!(matches!(
        codec.encode(&b"ab"[..], &mut dst),
        Err(LengthEncodeError::BufferTooSmall)
    ));
}

#[test]
fn length_owned_limit() {
    let mut codec = LengthCodecOwned::<2>::new();
    let mut buf = [0u8, 0, 0, 2, 1, 2];
    let (payload, size) = codec.decode_owned(&mut buf).unwrap().unwrap();
    assert_eq!(payload, vec![1, 2]);
    assert_eq!(size, 6);
    let mut big = [0u8, 0, 0, 3, 1, 2, 3];
    assert!(codec.decode_owned(&mut big).is_err());
    let mut dst = [0u8; 6];
    assert_eq!(
        LengthCodecOwned::<2>::from(LengthCodec::new())
            .encode(vec![1, 2], &mut dst)
            .unwrap(),
        6
    );
    assert_eq!(dst, [0, 0, 0, 2, 1, 2]);
}

#[test]
fn bytes_decode_takes_everything() {
    let mut codec = BytesCodec::new();
    let mut buf = *b"abc";
    let (bytes, size) = codec.decode(&mut buf).unwrap().unwrap();
    assert_eq!(bytes, b"abc");
    assert_eq!(size, 3);
}

#[test]
fn bytes_encode_and_too_small() {
    let mut codec = BytesCodec::new();
    let mut dst = [0u8; 4];
    assert_eq!(codec.encode(&b"ab"[..], &mut dst).unwrap(), 2);
    assert_eq!(dst, [b'a', b'b', 0, 0]);
    assert!(matches!(
        codec.encode(&b"abcde"[..], &mut dst),
        Err(BytesEncodeError::BufferTooSmall)
    ));
}

#[test]
fn bytes_owned_limit() {
    let mut codec = BytesCodecOwned::<2>::new();
    let mut buf = *b"ab";
    assert_eq!(codec.decode_owned(&mut buf).unwrap().unwrap(), (b"ab".to_vec(), 2));
    let mut big = *b"abc";
    assert!(codec.decode_owned(&mut big).is_err());
    let mut dst = [0u8; 2];
    assert_eq!(
        BytesCodecOwned::<2>::from(BytesCodec::new())
            .encode(b"xy".to_vec(), &mut dst)
            .unwrap(),
        2
    );
}

#[test]
fn any_delimiter_decode_and_encode() {
    let mut codec = AnyDelimiterCodec::new(b"##");
    assert_eq!(codec.delimiter(), b"##");
    let mut buf = *b"1##2##";
    let (item, size) = codec.decode(&mut buf).unwrap().unwrap();
    assert_eq!(item, b"1");
    assert_eq!(size, 3);
    let mut dst = [0u8; 6];
    assert_eq!(codec.encode(&b"abc"[..], &mut dst).unwrap(), 5);
    assert_eq!(&dst[..5], b"abc##");
    let mut small = [0u8; 4];
    assert!(matches!(
        codec.encode(&b"abc"[..], &mut small),
        Err(AnyDelimiterEncodeError::BufferTooSmall)
    ));
}

#[test]
fn any_delimiter_resumes_across_split_delimiter() {
    let mut codec = AnyDelimiterCodec::new(b"##");
    let mut partial = *b"ab#";
    assert!(codec.decode(&mut partial).unwrap().is_none());
    let mut full = *b"ab##c";
    let (item, size) = codec.decode(&mut full).unwrap().unwrap();
    assert_eq!(item, b"ab");
    assert_eq!(size, 4);
}

#[test]
fn any_delimiter_empty_delimiter_frames_each_byte() {
    let mut codec = AnyDelimiterCodec::new(b"");
    let mut buf = *b"xy";
    let (item, size) = codec.decode(&mut buf).unwrap().unwrap();
    assert_eq!(item, b"x");
    assert_eq!(size, 1);
}

#[test]
fn any_delimiter_owned_state_and_limit() {
    let mut codec = AnyDelimiterCodecOwned::<2>::new(b"#");
    assert_eq!(codec.delimiter(), b"#");
    let mut partial = *b"ab";
    assert!(codec.decode_owned(&mut partial).unwrap().is_none());
    assert_eq!(codec.seen(), 2);
    codec.clear();
    assert_eq!(codec.seen(), 0);
    let mut buf = *b"ab#";
    assert_eq!(codec.decode_owned(&mut buf).unwrap().unwrap(), (b"ab".to_vec(), 3));
    let mut big = *b"abc#";
    assert!(codec.decode_owned(&mut big).is_err());
    let mut dst = [0u8; 3];
    let mut owned = AnyDelimiterCodecOwned::<2>::from(AnyDelimiterCodec::new(b"#"));
    assert_eq!(owned.encode(b"ab".to_vec(), &mut dst).unwrap(), 3);
    assert_eq!(&dst, b"ab#");
}

#[test]
fn needle_codec_frames_before_needle() {
    let mut codec = NeedleCodec::<5>::new(b"##");
    assert_eq!(codec.needle(), b"##");
    let mut buf = *b"1##2##";
    match SizeAwareDecoder::decode(&mut codec, &mut buf) {
        Ok(MaybeDecoded::Frame(frame)) => {
            assert_eq!(frame.size(), 3);
            assert_eq!(frame.item(), &b"1".to_vec());
            assert_eq!(frame.into_item(), b"1".to_vec());
        }
        other => panic!("unexpected {:?}", other),
    }
    assert_eq!(codec.seen(), 0);
}

#[test]
fn needle_codec_incomplete_and_too_large() {
    let mut codec = NeedleCodec::<1>::new(b"##");
    let mut partial = *b"12#";
    assert!(matches!(
        SizeAwareDecoder::decode(&mut codec, &mut partial),
        Ok(MaybeDecoded::Incomplete(FrameSize::Unknown))
    ));
    assert_eq!(codec.seen(), 3);
    let mut fresh = NeedleCodec::<1>::new(b"##");
    let mut big = *b"12##";
    assert!(matches!(
        SizeAwareDecoder::decode(&mut fresh, &mut big),
        Err(NeedleDecoderError::OutputBufferTooSmall)
    ));
    assert_eq!(fresh.seen(), 2);
}

#[test]
fn frame_size_aware_codec_round_trip() {
    let mut codec = FrameSizeAwareCodec;
    let mut dst = [0u8; 16];
    let size = Encoder::encode(&mut codec, b"hello".to_vec(), &mut dst).unwrap();
    assert_eq!(size, 9);
    assert_eq!(&dst[..4], &[0, 0, 0, 9]);
    match SizeAwareDecoder::decode(&mut codec, &mut dst[..size]) {
        Ok(MaybeDecoded::Frame(frame)) => {
            assert_eq!(frame.size(), 9);
            assert_eq!(frame.into_item(), b"hello".to_vec());
        }
        other => panic!("unexpected {:?}", other),
    }
}

#[test]
fn frame_size_aware_codec_incomplete_and_errors() {
    let mut codec = FrameSizeAwareCodec;
    let mut short = [0u8, 0];
    assert!(matches!(
        SizeAwareDecoder::decode(&mut codec, &mut short),
        Ok(MaybeDecoded::Incomplete(FrameSize::Unknown))
    ));
    let mut partial = [0u8, 0, 0, 9, b'h'];
    assert!(matches!(
        SizeAwareDecoder::decode(&mut codec, &mut partial),
        Ok(MaybeDecoded::Incomplete(FrameSize::Known(9)))
    ));
    let mut too_small_size = [0u8, 0, 0, 2, 0];
    assert!(SizeAwareDecoder::decode(&mut codec, &mut too_small_size).is_err());
    let mut too_large = vec![0u8, 0, 1, 5];
    too_large.extend(std::iter::repeat(0u8).take(257));
    assert!(SizeAwareDecoder::decode(&mut codec, &mut too_large).is_err());
    let mut dst = [0u8; 4];
    assert!(Encoder::encode(&mut codec, b"x".to_vec(), &mut dst).is_err());
    let mut dst = [0u8; 300];
    assert!(Encoder::encode(&mut codec, vec![0u8; 257], &mut dst).is_err());
}

#[test]
fn bincode_codec_round_trip() {
    let codec = BincodeCodec::<u32>::new();
    let mut dst = [0u8; 16];
    let start = codec.payload_start(&dst).unwrap();
    assert_eq!(start, SIZE_OF_LENGTH);
    let written = bincode::encode_into_slice(300u32, &mut dst[start..], bincode::config::standard());
    let size = codec.finish_encode(written, &mut dst).unwrap();
    let payload_len = size - SIZE_OF_LENGTH;
    assert_eq!(&dst[..4], &(payload_len as u32).to_be_bytes());
    let (payload, frame_size) = codec.frame(&dst).unwrap();
    assert_eq!(frame_size, size);
    let decoded = bincode::decode_from_slice::<u32, _>(payload, bincode::config::standard());
    let (item, consumed) = BincodeCodec::<u32>::decoded(frame_size, decoded).unwrap();
    assert_eq!(item, 300);
    assert_eq!(consumed, size);
}

#[test]
fn bincode_codec_errors() {
    let codec = BincodeCodec::<u32>::default();
    assert!(matches!(
        codec.payload_start(&[0u8; 3]),
        Err(BincodeEncodeError::BufferTooSmall)
    ));
    let mut dst = [0u8; 5];
    let start = codec.payload_start(&dst).unwrap();
    let written = bincode::encode_into_slice(u32::MAX, &mut dst[start..], bincode::config::standard());
    assert!(written.is_err());
    assert!(matches!(
        codec.finish_encode(written, &mut dst),
        Err(BincodeEncodeError::Encode(_))
    ));
    assert!(codec.frame(&[0u8, 0, 0, 5, 1]).is_none());
    let decoded = bincode::decode_from_slice::<u32, _>(&[], bincode::config::standard());
    assert!(BincodeCodec::<u32>::decoded(4, decoded).is_err());
}

#[test]
fn bincode_codec_missing_bytes() {
    let codec = BincodeCodec::<u32>::new();
    assert_eq!(codec.missing(&[0, 0, 0]), None);
    assert_eq!(codec.missing(&[0, 0, 0, 3, 7]), Some(2));
    assert_eq!(codec.missing(&[0, 0, 1, 0]), Some(256));
    assert_eq!(codec.missing(&[0, 0, 0, 1, 7, 8]), Some(0));
}
