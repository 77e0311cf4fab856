//! Reading a whole stream of length-prefixed frames: a framer with a [`LengthCodecOwned`] hands
//! out the payloads of the stream in order, however the reads split the stream.
//!
//! [`reading_length_frames`] relates the framer's state to the payloads it has still to hand
//! out and the bytes of the stream it has not read yet; [`lemma_reading_length_frames_starts`]
//! and [`lemma_reading_length_frames_step`] show that it holds from the start and across every
//! step.

use vstd::prelude::*;

use super::{
    be_bytes, be_u32, decoded_length_frame, encoded_length_frame, lemma_be_bytes_round_trip,
    lemma_length_round_trip, LengthCodecOwned,
};
use crate::decode::DecoderOwned;
use crate::framed_read::{
    decoder_step_owned, read_frame_step, unread_after, work_left, FramedReadError, ReadFrameView,
};

verus! {

/// The frames of `payloads`, each with its length prefix, one after the other.
pub open spec fn encoded_length_frames(payloads: Seq<Seq<u8>>) -> Seq<u8>
    decreases payloads.len(),
{
    if payloads.len() == 0 {
        Seq::empty()
    } else {
        encoded_length_frame(payloads[0]) + encoded_length_frames(payloads.drop_first())
    }
}

/// No payload holds more than `n` bytes, nor more than a length prefix can announce.
pub open spec fn payloads_fit(payloads: Seq<Seq<u8>>, n: int) -> bool {
    forall|i: int|
        0 <= i < payloads.len() ==> (#[trigger] payloads[i]).len() <= n && payloads[i].len()
            <= u32::MAX
}

/// A framer in state `s` has the payloads `pending` still to hand out, and `unread` is what it
/// has not read yet of the stream: the bytes it read but no frame consumed, followed by the
/// unread ones, are the pending frames. Bytes that are not framable hold less than the next
/// frame; and before the end of the stream, a full buffer that is neither framable nor to be
/// shifted starts with its unconsumed bytes.
pub open spec fn reading_length_frames<const N: usize>(
    s: ReadFrameView,
    pending: Seq<Seq<u8>>,
    unread: Seq<u8>,
) -> bool {
    &&& s.consistent()
    &&& payloads_fit(pending, N as int)
    &&& s.framable_bytes() + unread == encoded_length_frames(pending)
    &&& s.eof ==> unread.len() == 0
    &&& !s.is_framable && pending.len() > 0 ==> s.framable() < pending[0].len() + 4
    &&& !s.is_framable && !s.shift && !s.eof && s.index == s.buffer.len() ==> s.total_consumed
        == 0
}

/// What the codec finds in bytes `p` that, followed by `unread`, are the `pending` frames: the
/// next payload once all of its frame is there, the rest being the remaining frames; nothing
/// before.
proof fn lemma_next_length_frame(p: Seq<u8>, unread: Seq<u8>, pending: Seq<Seq<u8>>, n: int)
    requires
        p + unread == encoded_length_frames(pending),
        payloads_fit(pending, n),
    ensures
        pending.len() == 0 ==> p.len() == 0 && unread.len() == 0 && decoded_length_frame(p) is None,
        pending.len() > 0 ==> {
            let k: int = pending[0].len() + 4int;
            &&& encoded_length_frames(pending).len() >= k
            &&& p.len() < k ==> decoded_length_frame(p) is None
            &&& p.len() >= k ==> {
                &&& decoded_length_frame(p) == Some((pending[0], k))
                &&& p.subrange(k, p.len() as int) + unread == encoded_length_frames(
                    pending.drop_first(),
                )
            }
        },
{
    let e = encoded_length_frames(pending);
    if pending.len() == 0 {
        assert((p + unread).len() == 0);
    } else {
        let payload = pending[0];
        let k: int = payload.len() + 4int;
        let enc = encoded_length_frame(payload);
        let tail = encoded_length_frames(pending.drop_first());
        assert(e == enc + tail);
        assert(payload.len() <= u32::MAX);
        assert(forall|i: int| 0 <= i < p.len() ==> p[i] == #[trigger] e[i]) by {
            assert forall|i: int| 0 <= i < p.len() implies p[i] == #[trigger] e[i] by {
                assert((p + unread)[i] == p[i]);
            }
        }
        if p.len() >= k {
            let rest = p.subrange(k, p.len() as int);
            assert(p =~= enc + rest) by {
                assert forall|i: int| 0 <= i < p.len() implies p[i] == (enc + rest)[i] by {
                    if i < k {
                        assert(e[i] == enc[i]);
                    }
                }
            }
            lemma_length_round_trip(payload, rest);
            assert(rest + unread =~= tail) by {
                assert((p + unread).subrange(k, (p + unread).len() as int) =~= rest + unread);
                assert(e.subrange(k, e.len() as int) =~= tail);
            }
        } else if p.len() >= 4 {
            lemma_be_bytes_round_trip(payload.len() as int);
            assert(e[0] == enc[0] && e[1] == enc[1] && e[2] == enc[2] && e[3] == enc[3]);
            assert(enc[0] == be_bytes(payload.len() as int)[0]);
            assert(enc[1] == be_bytes(payload.len() as int)[1]);
            assert(enc[2] == be_bytes(payload.len() as int)[2]);
            assert(enc[3] == be_bytes(payload.len() as int)[3]);
            assert(be_u32(p[0], p[1], p[2], p[3]) == payload.len());
        }
    }
}

/// A decoder that left the framable bytes as they were leaves the whole buffer as it was.
proof fn lemma_buffer_kept(s: ReadFrameView, t: ReadFrameView)
    requires
        s.consistent(),
        s.keeps_unframable_bytes(t),
        t.buffer.subrange(s.total_consumed, s.index) == s.framable_bytes(),
    ensures
        t.buffer == s.buffer,
{
    assert forall|i: int| 0 <= i < s.buffer.len() implies t.buffer[i] == s.buffer[i] by {
        if s.total_consumed <= i < s.index {
            assert(t.buffer.subrange(s.total_consumed, s.index)[i - s.total_consumed]
                == t.buffer[i]);
        }
    }
    assert(t.buffer =~= s.buffer);
}

/// A fresh framer over a stream of length-prefixed frames has every payload still to hand out
/// and the whole stream still to read.
pub proof fn lemma_reading_length_frames_starts<const N: usize>(
    s: ReadFrameView,
    payloads: Seq<Seq<u8>>,
)
    requires
        s.index == 0,
        s.total_consumed == 0,
        !s.eof,
        !s.is_framable,
        !s.shift,
        payloads_fit(payloads, N as int),
    ensures
        reading_length_frames::<N>(s, payloads, encoded_length_frames(payloads)),
{
    assert(s.framable_bytes() =~= Seq::<u8>::empty());
    assert(s.framable_bytes() + encoded_length_frames(payloads) =~= encoded_length_frames(
        payloads,
    ));
}

/// Every step of a framer with a [`LengthCodecOwned`] over a stream of length-prefixed frames,
/// whose reads deliver the next bytes of the stream and deliver none only at its end, keeps
/// [`reading_length_frames`]: a frame it hands out is the next payload of the stream; it reaches
/// the end of the stream only once every payload was handed out; it never reports a decoding error
/// or bytes left on the stream; and before the end of the stream it reports the buffer too small
/// only when the next frame does not fit in it. A step that hands out nothing and reports nothing,
/// while the stream has not ended, leaves less [`work_left`]; so the framer never stalls before the
/// stream's end.
pub proof fn lemma_reading_length_frames_step<const N: usize, I>(
    s: ReadFrameView,
    d: LengthCodecOwned<N>,
    pending: Seq<Seq<u8>>,
    unread: Seq<u8>,
    read: Option<Result<usize, I>>,
    r: Result<Option<Vec<u8>>, FramedReadError<I, ()>>,
    d2: LengthCodecOwned<N>,
    t: ReadFrameView,
)
    requires
        reading_length_frames::<N>(s, pending, unread),
        s.buffer.len() <= usize::MAX,
        (read is Some) == s.wants_read(),
        read matches Some(Ok(n)) ==> {
            &&& s.index + n <= s.buffer.len()
            &&& n <= unread.len()
            &&& unread.len() > 0 ==> n > 0
            &&& s.buffer.subrange(s.index, s.index + n) == unread.subrange(0, n as int)
        },
        read_frame_step(s, read, r, t),
        decoder_step_owned(s, d, r, d2, t),
    ensures
        r matches Ok(Some(item)) ==> {
            &&& pending.len() > 0
            &&& item@ == pending[0]
            &&& reading_length_frames::<N>(t, pending.drop_first(), unread_after(unread, read))
        },
        !(r matches Ok(Some(_))) ==> reading_length_frames::<N>(
            t,
            pending,
            unread_after(unread, read),
        ),
        r matches Err(FramedReadError::EOF) ==> pending.len() == 0,
        r matches Err(FramedReadError::BufferTooSmall) ==> s.eof || s.buffer.len() == 0 || (
        pending.len() > 0 && pending[0].len() + 4 > s.buffer.len()),
        !(r matches Err(FramedReadError::Decode(_))),
        !(r matches Err(FramedReadError::BytesRemainingOnStream)),
        r matches Ok(None) && (s.is_framable || !s.eof) ==> work_left(
            t,
            unread_after(unread, read).len() as int,
        ) < work_left(s, unread.len() as int),
{
    let p = s.framable_bytes();
    lemma_next_length_frame(p, unread, pending, N as int);
    if s.eof {
        assert(p + unread =~= p);
    }
    if s.shift {
        crate::framed_read::lemma_shift_keeps_framable_bytes(s);
        assert(t.framable_bytes() == p);
    } else if s.is_framable {
        match r {
            Ok(Some(item)) => {
                lemma_buffer_kept(s, t);
                let k: int = pending[0].len() + 4int;
                assert(t.framable_bytes() =~= p.subrange(k, p.len() as int));
            },
            Ok(None) => {
                lemma_buffer_kept(s, t);
                assert(t.framable_bytes() == p);
            },
            Err(FramedReadError::EOF) => {
                lemma_buffer_kept(s, t);
                assert(t.framable_bytes() == p);
            },
            Err(FramedReadError::BytesRemainingOnStream) => {
                lemma_buffer_kept(s, t);
            },
            Err(FramedReadError::Decode(_)) => {
                lemma_buffer_kept(s, t);
            },
            _ => {},
        }
    } else {
        match read {
            Some(Ok(n)) => {
                if n > 0 {
                    crate::framed_read::lemma_read_appends(s, n as int);
                    let rest = unread.subrange(n as int, unread.len() as int);
                    assert(t.framable_bytes() + rest =~= p + unread) by {
                        assert(unread =~= unread.subrange(0, n as int) + rest);
                    }
                } else {
                    assert(unread_after(unread, read) =~= unread);
                }
            },
            _ => {},
        }
    }
}

} // verus!
