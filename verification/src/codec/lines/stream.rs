//! Reading a whole stream of lines: a framer with a [`LinesCodecOwned`] hands out the lines of
//! the stream in order, however the reads split the stream.
//!
//! [`reading_lines`] relates the framer's state to the lines it has still to hand out and the
//! bytes of the stream it has not read yet; [`lemma_reading_lines_starts`] and
//! [`lemma_reading_lines_step`] show that it holds from the start and across every step.
//! [`reading_string_lines`] and its lemmas say the same of a framer with a
//! [`StringLinesCodec`] over a stream of UTF-8 lines.

use vstd::prelude::*;

use super::{
    decoded_line, encoded_line, first_newline_from, lemma_lines_round_trip,
    lemma_utf8_without_newline, LinesCodecOwned, LinesOwnedDecodeError, StringLinesCodec,
    StringLinesDecodeError,
};
use vstd::utf8::encode_utf8;
use crate::decode::DecoderOwned;
use crate::framed_read::{
    decoder_step_owned, read_frame_step, unread_after, work_left, FramedReadError, ReadFrameView,
};

verus! {

/// The bytes of `lines`, each encoded with its line ending, one after the other.
pub open spec fn encoded_lines(lines: Seq<Seq<u8>>) -> Seq<u8>
    decreases lines.len(),
{
    if lines.len() == 0 {
        Seq::empty()
    } else {
        encoded_line(lines[0]) + encoded_lines(lines.drop_first())
    }
}

/// No line holds a `\n`, and none holds more than `n` bytes.
pub open spec fn lines_fit(lines: Seq<Seq<u8>>, n: int) -> bool {
    forall|i: int|
        0 <= i < lines.len() ==> !(#[trigger] lines[i]).contains(10u8) && lines[i].len() <= n
}

/// No `\n` lies in `src` before position `end`.
pub open spec fn no_newline_before(src: Seq<u8>, end: int) -> bool {
    forall|k: int| 0 <= k < end && k < src.len() ==> #[trigger] src[k] != 10u8
}

/// A framer in state `s`, whose codec already scanned `seen` bytes, has the lines `pending`
/// (of at most `n` bytes) still to hand out, and `unread` is what it has not read yet of the
/// stream: the bytes it read but no frame consumed, followed by the unread ones, are the encoded
/// pending lines. The codec's progress lies within those bytes and before any `\n`; bytes that
/// are not framable hold no `\n`; and before the end of the stream, a full buffer that is
/// neither framable nor to be shifted starts with its unconsumed bytes.
pub open spec fn reading_line_bytes(
    s: ReadFrameView,
    seen: int,
    pending: Seq<Seq<u8>>,
    unread: Seq<u8>,
    n: int,
) -> bool {
    &&& s.consistent()
    &&& lines_fit(pending, n)
    &&& s.framable_bytes() + unread == encoded_lines(pending)
    &&& s.eof ==> unread.len() == 0
    &&& 0 <= seen <= s.framable()
    &&& no_newline_before(s.framable_bytes(), seen)
    &&& !s.is_framable ==> no_newline_before(s.framable_bytes(), s.framable())
    &&& !s.is_framable && !s.shift && !s.eof && s.index == s.buffer.len() ==> s.total_consumed
        == 0
}

/// A framer in state `s` with the codec `d` is reading a stream of lines, as
/// [`reading_line_bytes`] says, with the lines `pending` still to hand out and `unread` bytes
/// of the stream still to read.
pub open spec fn reading_lines<const N: usize>(
    s: ReadFrameView,
    d: LinesCodecOwned<N>,
    pending: Seq<Seq<u8>>,
    unread: Seq<u8>,
) -> bool {
    reading_line_bytes(s, d@, pending, unread, N as int)
}

/// The scan from `from` finds no `\n` in bytes that hold none from there on.
proof fn lemma_no_newline_found(src: Seq<u8>, from: int)
    requires
        0 <= from,
        forall|k: int| from <= k < src.len() ==> src[k] != 10u8,
    ensures
        first_newline_from(src, from) is None,
    decreases src.len() - from,
{
    if from < src.len() {
        lemma_no_newline_found(src, from + 1);
    }
}

/// What the codec finds in bytes `p` that, followed by `unread`, are the encoded `pending`
/// lines, scanning on from `seen` bytes that hold no `\n`: the first pending line once all of
/// its bytes are there, leaving the encoded rest; nothing before, the bytes then holding no
/// `\n` at all.
proof fn lemma_next_line(p: Seq<u8>, unread: Seq<u8>, pending: Seq<Seq<u8>>, n: int, seen: int)
    requires
        p + unread == encoded_lines(pending),
        lines_fit(pending, n),
        0 <= seen <= p.len(),
        no_newline_before(p, seen),
    ensures
        if pending.len() > 0 && p.len() >= pending[0].len() + 2 {
            &&& decoded_line(p, seen) == Some((pending[0], pending[0].len() + 2int))
            &&& p[pending[0].len() + 1int] == 10u8
            &&& p.subrange(pending[0].len() + 2int, p.len() as int) + unread == encoded_lines(
                pending.drop_first(),
            )
        } else {
            &&& decoded_line(p, seen) is None
            &&& no_newline_before(p, p.len() as int)
        },
{
    let e = encoded_lines(pending);
    assert(forall|k: int| 0 <= k < p.len() ==> p[k] == #[trigger] e[k]) by {
        assert forall|k: int| 0 <= k < p.len() implies p[k] == #[trigger] e[k] by {
            assert((p + unread)[k] == p[k]);
        }
    }
    if pending.len() == 0 {
        assert((p + unread).len() == 0);
    } else {
        let line = pending[0];
        let enc = encoded_line(line);
        let tail = encoded_lines(pending.drop_first());
        assert(e == enc + tail);
        assert(!line.contains(10u8));
        assert(forall|k: int| 0 <= k < enc.len() ==> #[trigger] e[k] == enc[k]);
        if p.len() >= line.len() + 2 {
            let end: int = line.len() + 2int;
            let rest = p.subrange(end, p.len() as int);
            assert(p =~= enc + rest) by {
                assert forall|k: int| 0 <= k < p.len() implies p[k] == (enc + rest)[k] by {
                    if k < end {
                        assert(e[k] == enc[k]);
                    }
                }
            }
            assert(p[line.len() + 1int] == 10u8) by {
                assert(e[line.len() + 1int] == enc[line.len() + 1int]);
            }
            lemma_lines_round_trip(line, rest, seen);
            assert(rest + unread =~= tail) by {
                assert((p + unread).subrange(end, (p + unread).len() as int) =~= rest + unread);
                assert(e.subrange(end, e.len() as int) =~= tail);
            }
        } else {
            assert forall|k: int| 0 <= k < p.len() implies #[trigger] p[k] != 10u8 by {
                assert(e[k] == enc[k]);
                if k < line.len() {
                    assert(enc[k] == line[k]);
                    assert(line.contains(line[k]));
                }
            }
            lemma_no_newline_found(p, seen);
        }
    }
}

/// A decoder that left the framable bytes as they were leaves the whole buffer as it was.
proof fn lemma_buffer_kept(s: ReadFrameView, t: ReadFrameView)
    requires
        s.consistent(),
        s.keeps_unframable_bytes(t),
        t.buffer.subrange(s.total_consumed, s.index) == s.framable_bytes(),
    ensures
        t.buffer == s.buffer,
{
    assert forall|i: int| 0 <= i < s.buffer.len() implies t.buffer[i] == s.buffer[i] by {
        if s.total_consumed <= i < s.index {
            assert(t.buffer.subrange(s.total_consumed, s.index)[i - s.total_consumed]
                == t.buffer[i]);
        }
    }
    assert(t.buffer =~= s.buffer);
}

/// A fresh framer over a stream of lines, with a fresh codec, has every line still to hand
/// out and the whole stream still to read.
pub proof fn lemma_reading_lines_starts<const N: usize>(
    s: ReadFrameView,
    d: LinesCodecOwned<N>,
    lines: Seq<Seq<u8>>,
)
    requires
        s.index == 0,
        s.total_consumed == 0,
        !s.eof,
        !s.is_framable,
        !s.shift,
        d@ == 0,
        lines_fit(lines, N as int),
    ensures
        reading_lines(s, d, lines, encoded_lines(lines)),
{
    assert(s.framable_bytes() =~= Seq::<u8>::empty());
    assert(s.framable_bytes() + encoded_lines(lines) =~= encoded_lines(lines));
}

/// Every step of a framer with a [`LinesCodecOwned`] over a stream of lines, whose reads deliver
/// the next bytes of the stream and deliver none only at its end, keeps [`reading_lines`]: a frame
/// it hands out is the next line of the stream; it reaches the end of the stream only once every
/// line was handed out; it never reports a decoding error or bytes left on the stream; and before
/// the end of the stream it reports the buffer too small only when the next line with its line
/// ending does not fit in it. A step that hands out nothing and reports nothing, while the stream
/// has not ended, leaves less [`work_left`]; so the framer never stalls before the stream's end.
pub proof fn lemma_reading_lines_step<const N: usize, I>(
    s: ReadFrameView,
    d: LinesCodecOwned<N>,
    pending: Seq<Seq<u8>>,
    unread: Seq<u8>,
    read: Option<Result<usize, I>>,
    r: Result<Option<Vec<u8>>, FramedReadError<I, LinesOwnedDecodeError>>,
    d2: LinesCodecOwned<N>,
    t: ReadFrameView,
)
    requires
        reading_lines(s, d, pending, unread),
        s.buffer.len() <= usize::MAX,
        (read is Some) == s.wants_read(),
        read matches Some(Ok(n)) ==> {
            &&& s.index + n <= s.buffer.len()
            &&& n <= unread.len()
            &&& unread.len() > 0 ==> n > 0
            &&& s.buffer.subrange(s.index, s.index + n) == unread.subrange(0, n as int)
        },
        read_frame_step(s, read, r, t),
        decoder_step_owned(s, d, r, d2, t),
    ensures
        r matches Ok(Some(item)) ==> {
            &&& pending.len() > 0
            &&& item@ == pending[0]
            &&& reading_lines(t, d2, pending.drop_first(), unread_after(unread, read))
        },
        !(r matches Ok(Some(_))) ==> reading_lines(t, d2, pending, unread_after(unread, read)),
        r matches Err(FramedReadError::EOF) ==> pending.len() == 0,
        r matches Err(FramedReadError::BufferTooSmall) ==> s.eof || s.buffer.len() == 0 || (
        pending.len() > 0 && pending[0].len() + 2 > s.buffer.len()),
        !(r matches Err(FramedReadError::Decode(_))),
        !(r matches Err(FramedReadError::BytesRemainingOnStream)),
        r matches Ok(None) && (s.is_framable || !s.eof) ==> work_left(
            t,
            unread_after(unread, read).len() as int,
        ) < work_left(s, unread.len() as int),
{
    let p = s.framable_bytes();
    if s.shift {
        crate::framed_read::lemma_shift_keeps_framable_bytes(s);
        assert(t.framable_bytes() == p);
    } else if s.is_framable {
        let after = t.buffer.subrange(s.total_consumed, s.index);
        lemma_next_line(p, unread, pending, N as int, d@);
        if s.eof {
            assert(unread.len() == 0);
            assert(p =~= encoded_lines(pending)) by {
                assert(p + unread =~= p);
            }
            if pending.len() > 0 {
                assert(encoded_lines(pending) == encoded_line(pending[0]) + encoded_lines(
                    pending.drop_first(),
                ));
            }
        }
        match r {
            Ok(Some(item)) => {
                lemma_buffer_kept(s, t);
                let line = pending[0];
                let end: int = line.len() + 2int;
                assert(t.framable_bytes() =~= p.subrange(end, p.len() as int));
            },
            Ok(None) => {
                lemma_buffer_kept(s, t);
                assert(t.framable_bytes() == p);
            },
            Err(FramedReadError::EOF) => {
                lemma_buffer_kept(s, t);
                assert(t.framable_bytes() == p);
            },
            Err(FramedReadError::BytesRemainingOnStream) => {
                lemma_buffer_kept(s, t);
            },
            Err(FramedReadError::Decode(_)) => {
                lemma_buffer_kept(s, t);
            },
            _ => {},
        }
    } else {
        match read {
            None => {
                if s.buffer.len() > 0 && pending.len() > 0 {
                    let line = pending[0];
                    if p.len() >= line.len() + 2 {
                        lemma_next_line(p, unread, pending, N as int, d@);
                    }
                }
                if pending.len() == 0 {
                    assert((p + unread).len() == 0);
                }
            },
            Some(Err(_)) => {},
            Some(Ok(n)) => {
                if n > 0 {
                    crate::framed_read::lemma_read_appends(s, n as int);
                    let rest = unread.subrange(n as int, unread.len() as int);
                    assert(t.framable_bytes() + rest =~= p + unread) by {
                        assert(unread =~= unread.subrange(0, n as int) + rest);
                    }
                    assert forall|k: int|
                        0 <= k < d@ && k < t.framable_bytes().len() implies #[trigger] t.framable_bytes()[k]
                        != 10u8 by {
                        assert(t.framable_bytes()[k] == p[k]);
                    }
                } else {
                    assert(unread_after(unread, read) =~= unread);
                }
            },
        }
    }
}

/// The UTF-8 encodings of `lines`.
pub open spec fn utf8_lines(lines: Seq<Seq<char>>) -> Seq<Seq<u8>> {
    lines.map_values(|line: Seq<char>| encode_utf8(line))
}

/// No line holds a `\n`, and none takes more than `n` bytes in UTF-8.
pub open spec fn string_lines_fit(lines: Seq<Seq<char>>, n: int) -> bool {
    forall|i: int|
        0 <= i < lines.len() ==> !(#[trigger] lines[i]).contains('\n') && encode_utf8(lines[i]).len()
            <= n
}

/// A framer in state `s` with the codec `d` is reading a stream of UTF-8 lines, as
/// [`reading_line_bytes`] says of their encodings, with the lines `pending` still to hand out and
/// `unread` bytes of the stream still to read.
pub open spec fn reading_string_lines<const N: usize>(
    s: ReadFrameView,
    d: StringLinesCodec<N>,
    pending: Seq<Seq<char>>,
    unread: Seq<u8>,
) -> bool {
    &&& string_lines_fit(pending, N as int)
    &&& reading_line_bytes(s, d@, utf8_lines(pending), unread, N as int)
}

/// The UTF-8 encodings of lines that fit in `n` bytes and hold no `\n` are byte lines that fit.
proof fn lemma_utf8_lines_fit(lines: Seq<Seq<char>>, n: int)
    requires
        string_lines_fit(lines, n),
    ensures
        lines_fit(utf8_lines(lines), n),
{
    assert forall|i: int| 0 <= i < utf8_lines(lines).len() implies !(#[trigger] utf8_lines(
        lines,
    )[i]).contains(10u8) && utf8_lines(lines)[i].len() <= n by {
        assert(!lines[i].contains('\n'));
        lemma_utf8_without_newline(lines[i]);
    }
}

/// A fresh framer over a stream of UTF-8 lines, with a fresh codec, has every line still to
/// hand out and the whole stream still to read.
pub proof fn lemma_reading_string_lines_starts<const N: usize>(
    s: ReadFrameView,
    d: StringLinesCodec<N>,
    lines: Seq<Seq<char>>,
)
    requires
        s.index == 0,
        s.total_consumed == 0,
        !s.eof,
        !s.is_framable,
        !s.shift,
        d@ == 0,
        string_lines_fit(lines, N as int),
    ensures
        reading_string_lines(s, d, lines, encoded_lines(utf8_lines(lines))),
{
    lemma_utf8_lines_fit(lines, N as int);
    assert(s.framable_bytes() =~= Seq::<u8>::empty());
    assert(s.framable_bytes() + encoded_lines(utf8_lines(lines)) =~= encoded_lines(
        utf8_lines(lines),
    ));
}

/// Every step of a framer with a [`StringLinesCodec`] over a stream of UTF-8 lines, whose reads
/// deliver the next bytes of the stream and deliver none only at its end, keeps
/// [`reading_string_lines`]: a frame it hands out is the next line of the stream; it reaches the
/// end of the stream only once every line was handed out; it never reports a decoding error or
/// bytes left on the stream; and before the end of the stream it reports the buffer too small
/// only when the next line, in UTF-8 with its line ending, does not fit in it. A step that hands
/// out nothing and reports nothing, while the stream has not ended, leaves less [`work_left`].
pub proof fn lemma_reading_string_lines_step<const N: usize, I>(
    s: ReadFrameView,
    d: StringLinesCodec<N>,
    pending: Seq<Seq<char>>,
    unread: Seq<u8>,
    read: Option<Result<usize, I>>,
    r: Result<Option<String>, FramedReadError<I, StringLinesDecodeError>>,
    d2: StringLinesCodec<N>,
    t: ReadFrameView,
)
    requires
        reading_string_lines(s, d, pending, unread),
        s.buffer.len() <= usize::MAX,
        (read is Some) == s.wants_read(),
        read matches Some(Ok(n)) ==> {
            &&& s.index + n <= s.buffer.len()
            &&& n <= unread.len()
            &&& unread.len() > 0 ==> n > 0
            &&& s.buffer.subrange(s.index, s.index + n) == unread.subrange(0, n as int)
        },
        read_frame_step(s, read, r, t),
        decoder_step_owned(s, d, r, d2, t),
    ensures
        r matches Ok(Some(item)) ==> {
            &&& pending.len() > 0
            &&& item@ == pending[0]
            &&& reading_string_lines(t, d2, pending.drop_first(), unread_after(unread, read))
        },
        !(r matches Ok(Some(_))) ==> reading_string_lines(
            t,
            d2,
            pending,
            unread_after(unread, read),
        ),
        r matches Err(FramedReadError::EOF) ==> pending.len() == 0,
        r matches Err(FramedReadError::BufferTooSmall) ==> s.eof || s.buffer.len() == 0 || (
        pending.len() > 0 && encode_utf8(pending[0]).len() + 2 > s.buffer.len()),
        !(r matches Err(FramedReadError::Decode(_))),
        !(r matches Err(FramedReadError::BytesRemainingOnStream)),
        r matches Ok(None) && (s.is_framable || !s.eof) ==> work_left(
            t,
            unread_after(unread, read).len() as int,
        ) < work_left(s, unread.len() as int),
{
    let p = s.framable_bytes();
    let bl = utf8_lines(pending);
    assert(bl.len() == pending.len());
    if pending.len() > 0 {
        assert(bl[0] == encode_utf8(pending[0]));
        assert(bl.drop_first() =~= utf8_lines(pending.drop_first()));
        vstd::utf8::encode_utf8_valid_utf8(pending[0]);
        vstd::utf8::encode_utf8_decode_utf8(pending[0]);
        assert(string_lines_fit(pending.drop_first(), N as int)) by {
            assert forall|i: int| 0 <= i < pending.drop_first().len() implies !(
            #[trigger] pending.drop_first()[i]).contains('\n') && encode_utf8(
                pending.drop_first()[i],
            ).len() <= N by {
                assert(pending.drop_first()[i] == pending[i + 1]);
            }
        }
    }
    if s.shift {
        crate::framed_read::lemma_shift_keeps_framable_bytes(s);
        assert(t.framable_bytes() == p);
    } else if s.is_framable {
        lemma_next_line(p, unread, bl, N as int, d@);
        if s.eof {
            assert(p =~= encoded_lines(bl)) by {
                assert(p + unread =~= p);
            }
            if pending.len() > 0 {
                assert(encoded_lines(bl) == encoded_line(bl[0]) + encoded_lines(bl.drop_first()));
            }
        }
        match r {
            Ok(Some(item)) => {
                lemma_buffer_kept(s, t);
                let end: int = bl[0].len() + 2int;
                assert(t.framable_bytes() =~= p.subrange(end, p.len() as int));
            },
            Ok(None) => {
                lemma_buffer_kept(s, t);
                assert(t.framable_bytes() == p);
            },
            Err(FramedReadError::EOF) => {
                lemma_buffer_kept(s, t);
                assert(t.framable_bytes() == p);
            },
            Err(FramedReadError::BytesRemainingOnStream) => {
                lemma_buffer_kept(s, t);
            },
            Err(FramedReadError::Decode(_)) => {
                lemma_buffer_kept(s, t);
            },
            _ => {},
        }
    } else {
        match read {
            None => {
                if s.buffer.len() > 0 && pending.len() > 0 {
                    if p.len() >= bl[0].len() + 2 {
                        lemma_next_line(p, unread, bl, N as int, d@);
                    }
                }
                if pending.len() == 0 {
                    assert((p + unread).len() == 0);
                }
            },
            Some(Err(_)) => {},
            Some(Ok(n)) => {
                if n > 0 {
                    crate::framed_read::lemma_read_appends(s, n as int);
                    let rest = unread.subrange(n as int, unread.len() as int);
                    assert(t.framable_bytes() + rest =~= p + unread) by {
                        assert(unread =~= unread.subrange(0, n as int) + rest);
                    }
                    assert forall|k: int|
                        0 <= k < d@ && k < t.framable_bytes().len() implies #[trigger] t.framable_bytes()[k]
                        != 10u8 by {
                        assert(t.framable_bytes()[k] == p[k]);
                    }
                } else {
                    assert(unread_after(unread, read) =~= unread);
                }
            },
        }
    }
}

} // verus!
