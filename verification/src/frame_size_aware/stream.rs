//! Reading a whole stream of sized frames: the size-aware framer with a
//! [`FrameSizeAwareCodec`] hands out the payloads of the stream in order, however the reads
//! split the stream.
//!
//! [`reading_sized_frames`] relates the framer's state to the payloads it has still to hand
//! out and the bytes of the stream it has not read yet; [`lemma_reading_sized_frames_starts`]
//! and [`lemma_reading_sized_frames_step`] show that it holds from the start and across every
//! step.

use vstd::prelude::*;

use super::{
    announced_frame_size, encoded_sized_frame, lemma_sized_frame_round_trip, FrameSizeAwareCodec,
    MAX_PAYLOAD,
};
use crate::decode::framed_read::{
    after_decoding, decoder_answered, lemma_known_size_fits, lemma_shift_keeps_framable_bytes,
    read_next_step, work_left, Error, ReadFrameView,
};
use crate::framed_read::unread_after;
use crate::decode::maybe_decoded::{FrameSize, MaybeDecoded};

verus! {

/// The frames of `payloads`, each with its frame size, one after the other.
pub open spec fn encoded_sized_frames(payloads: Seq<Seq<u8>>) -> Seq<u8>
    decreases payloads.len(),
{
    if payloads.len() == 0 {
        Seq::empty()
    } else {
        encoded_sized_frame(payloads[0]) + encoded_sized_frames(payloads.drop_first())
    }
}

/// No payload holds more than [`MAX_PAYLOAD`] bytes.
pub open spec fn payloads_fit(payloads: Seq<Seq<u8>>) -> bool {
    forall|i: int| 0 <= i < payloads.len() ==> (#[trigger] payloads[i]).len() <= MAX_PAYLOAD
}

/// A size-aware framer in state `s` has the payloads `pending` still to hand out, and `unread`
/// is what it has not read yet of the stream: the bytes it read but no frame consumed,
/// followed by the unread ones, are the pending frames. Bytes that are not framable hold less
/// than a frame size, unless the codec announced the next frame's size, which then is that of
/// the next pending frame, not yet all there but with room for it in the buffer; and before
/// the end of the stream, a full buffer that is not framable starts with its unconsumed bytes.
pub open spec fn reading_sized_frames(
    s: ReadFrameView,
    pending: Seq<Seq<u8>>,
    unread: Seq<u8>,
) -> bool {
    &&& s.consistent()
    &&& payloads_fit(pending)
    &&& s.framable_bytes() + unread == encoded_sized_frames(pending)
    &&& s.eof ==> unread.len() == 0
    &&& !s.is_framable && s.frame_size is None ==> s.framable() < 4
    &&& s.frame_size matches Some(k) ==> {
        &&& pending.len() > 0
        &&& k == pending[0].len() + 4
        &&& !s.is_framable
        &&& s.framable() < k
        &&& s.buffer.len() - s.total_consumed >= k
    }
    &&& !s.is_framable && !s.eof && s.index == s.buffer.len() ==> s.total_consumed == 0
}

/// What bytes `p` that, followed by `unread`, are the `pending` frames hold: nothing if no
/// frame is pending; otherwise, from four bytes on, the next frame's size; and once all of
/// that frame is there, its payload, the rest being the remaining frames.
proof fn lemma_next_sized_frame(p: Seq<u8>, unread: Seq<u8>, pending: Seq<Seq<u8>>)
    requires
        p + unread == encoded_sized_frames(pending),
        payloads_fit(pending),
    ensures
        pending.len() == 0 ==> p.len() == 0 && unread.len() == 0,
        pending.len() > 0 ==> {
            let k: int = pending[0].len() + 4int;
            &&& encoded_sized_frames(pending).len() >= k
            &&& p.len() >= 4 ==> announced_frame_size(p) == k
            &&& p.len() >= k ==> {
                &&& p.subrange(4, k) == pending[0]
                &&& p.subrange(k, p.len() as int) + unread == encoded_sized_frames(
                    pending.drop_first(),
                )
            }
        },
{
    let e = encoded_sized_frames(pending);
    if pending.len() == 0 {
        assert((p + unread).len() == 0);
    } else {
        let payload = pending[0];
        let k: int = payload.len() + 4int;
        let enc = encoded_sized_frame(payload);
        let tail = encoded_sized_frames(pending.drop_first());
        assert(e == enc + tail);
        assert(payload.len() <= MAX_PAYLOAD);
        lemma_sized_frame_round_trip(payload, tail);
        if p.len() >= 4 {
            assert(p.subrange(0, 4) =~= e.subrange(0, 4)) by {
                assert(p.subrange(0, 4) =~= (p + unread).subrange(0, 4));
            }
            assert(p[0] == e[0] && p[1] == e[1] && p[2] == e[2] && p[3] == e[3]) by {
                assert(p[0] == p.subrange(0, 4)[0]);
                assert(p[1] == p.subrange(0, 4)[1]);
                assert(p[2] == p.subrange(0, 4)[2]);
                assert(p[3] == p.subrange(0, 4)[3]);
                assert(e[0] == e.subrange(0, 4)[0]);
                assert(e[1] == e.subrange(0, 4)[1]);
                assert(e[2] == e.subrange(0, 4)[2]);
                assert(e[3] == e.subrange(0, 4)[3]);
            }
        }
        if p.len() >= k {
            assert(p.subrange(4, k) =~= e.subrange(4, k)) by {
                assert(p.subrange(4, k) =~= (p + unread).subrange(4, k));
            }
            assert(p.subrange(k, p.len() as int) + unread =~= tail) by {
                assert((p + unread).subrange(k, (p + unread).len() as int) =~= p.subrange(
                    k,
                    p.len() as int,
                ) + unread);
                assert(e.subrange(k, e.len() as int) =~= tail);
            }
        }
    }
}

/// A state whose framable bytes are replaced by themselves is the same state.
proof fn lemma_same_framable_bytes(s: ReadFrameView)
    requires
        s.consistent(),
    ensures
        s.with_framable_bytes(s.framable_bytes()) == s,
{
    assert(s.buffer.subrange(0, s.total_consumed) + s.framable_bytes() + s.buffer.subrange(
        s.index,
        s.buffer.len() as int,
    ) =~= s.buffer);
}

/// A fresh size-aware framer over a stream of sized frames has every payload still to hand out
/// and the whole stream still to read.
pub proof fn lemma_reading_sized_frames_starts(s: ReadFrameView, payloads: Seq<Seq<u8>>)
    requires
        s.index == 0,
        s.total_consumed == 0,
        !s.eof,
        !s.is_framable,
        s.frame_size is None,
        payloads_fit(payloads),
    ensures
        reading_sized_frames(s, payloads, encoded_sized_frames(payloads)),
{
    assert(s.framable_bytes() =~= Seq::<u8>::empty());
    assert(s.framable_bytes() + encoded_sized_frames(payloads) =~= encoded_sized_frames(
        payloads,
    ));
}

/// Once the stream ended with nothing left to decode ([`ReadFrameView::finished`]), every
/// payload was handed out.
pub proof fn lemma_reading_sized_frames_ends(
    s: ReadFrameView,
    pending: Seq<Seq<u8>>,
    unread: Seq<u8>,
)
    requires
        reading_sized_frames(s, pending, unread),
        s.finished(),
    ensures
        pending.len() == 0,
{
    lemma_next_sized_frame(s.framable_bytes(), unread, pending);
    if pending.len() > 0 {
        assert(s.framable_bytes() + unread =~= s.framable_bytes());
    }
}

/// Every step of a size-aware framer with a [`FrameSizeAwareCodec`] over a stream of sized frames,
/// whose reads deliver the next bytes of the stream and deliver none only at its end, keeps
/// [`reading_sized_frames`]: a frame it hands out is the next payload of the stream; it never
/// reports a decoding error or bytes left on the stream; and before the end of the stream it
/// reports the buffer too small only when the next frame does not fit in it. A step that hands out
/// nothing and reports nothing, while the stream has not ended, leaves less [`work_left`]; so the
/// framer never stalls before the stream's end.
pub proof fn lemma_reading_sized_frames_step<I>(
    s: ReadFrameView,
    d: FrameSizeAwareCodec,
    pending: Seq<Seq<u8>>,
    unread: Seq<u8>,
    read: Option<Result<usize, I>>,
    r: Result<Option<Vec<u8>>, Error<I, std::io::Error>>,
    d2: FrameSizeAwareCodec,
    t: ReadFrameView,
)
    requires
        reading_sized_frames(s, pending, unread),
        (read is Some) == s.wants_read(),
        read matches Some(Ok(n)) ==> {
            &&& s.index + n <= s.buffer.len()
            &&& n <= unread.len()
            &&& unread.len() > 0 ==> n > 0
            &&& s.buffer.subrange(s.index, s.index + n) == unread.subrange(0, n as int)
        },
        read_next_step(s, d, read, r, d2, t),
    ensures
        r matches Ok(Some(item)) ==> {
            &&& pending.len() > 0
            &&& item@ == pending[0]
            &&& reading_sized_frames(t, pending.drop_first(), unread_after(unread, read))
        },
        !(r matches Ok(Some(_))) ==> reading_sized_frames(t, pending, unread_after(unread, read)),
        !(r matches Err(Error::Decode(_))),
        !(r matches Err(Error::BytesRemainingOnStream)),
        r matches Err(Error::BufferTooSmall) ==> s.eof || s.buffer.len() == 0 || (pending.len()
            > 0 && pending[0].len() + 4 > s.buffer.len()),
        r matches Ok(None) && (s.is_framable || !s.eof) ==> work_left(
            t,
            unread_after(unread, read).len() as int,
        ) < work_left(s, unread.len() as int),
{
    let p = s.framable_bytes();
    lemma_next_sized_frame(p, unread, pending);
    if s.eof {
        assert(p + unread =~= p);
    }
    if s.is_framable {
        let (res, after) = choose|
            res: Result<MaybeDecoded<Vec<u8>>, std::io::Error>,
            after: Seq<u8>,
        |
            #[trigger] decoder_answered(d, s.eof, s.framable_bytes(), res, d2, after)
                && after.len() == s.framable() && (res matches Ok(MaybeDecoded::Frame(f))
                ==> 0 < f.consumed() <= s.framable()) && after_decoding(s, res, after, r, t);
        assert(decoder_answered(d, s.eof, p, res, d2, after));
        assert(after == p);
        lemma_same_framable_bytes(s);
        assert(s.with_framable_bytes(after) == s);
        match res {
            Ok(MaybeDecoded::Frame(f)) => {
                let k: int = pending[0].len() + 4int;
                assert(f.consumed() == k);
                if !s.eof && s.total_consumed + k == s.index {
                    assert(t.framable_bytes() =~= Seq::<u8>::empty());
                    assert(p.subrange(k, p.len() as int) =~= Seq::<u8>::empty());
                } else {
                    assert(t.framable_bytes() =~= p.subrange(k, p.len() as int));
                }
            },
            Ok(MaybeDecoded::Incomplete(FrameSize::Unknown)) => {
                if !s.eof {
                    lemma_shift_keeps_framable_bytes(s);
                }
            },
            Ok(MaybeDecoded::Incomplete(FrameSize::Known(n))) => {
                if n <= s.buffer.len() {
                    lemma_known_size_fits(s, n as int);
                }
            },
            Err(_) => {},
        }
    } else if s.index < s.buffer.len() {
        match read {
            Some(Ok(n)) => {
                if n > 0 {
                    let rest = unread.subrange(n as int, unread.len() as int);
                    let u = ReadFrameView { index: s.index + n, ..s };
                    assert(u.framable_bytes() =~= p + unread.subrange(0, n as int));
                    assert(u.framable_bytes() + rest =~= p + unread) by {
                        assert(unread =~= unread.subrange(0, n as int) + rest);
                    }
                    assert(t.framable_bytes() == u.framable_bytes());
                } else {
                    assert(unread_after(unread, read) =~= unread);
                }
            },
            _ => {},
        }
    }
}

} // verus!
