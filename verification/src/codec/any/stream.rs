//! Reading a whole stream of delimited items: a framer with an [`AnyDelimiterCodecOwned`] hands
//! out the items of the stream in order, however the reads split the stream.
//!
//! [`reading_delimited`] relates the framer's state to the items it has still to hand out and
//! the bytes of the stream it has not read yet; [`lemma_reading_delimited_starts`] and
//! [`lemma_reading_delimited_step`] show that it holds from the start and across every step.

use vstd::prelude::*;

use super::{
    decoded_delimited, encoded_delimited, first_delimiter_end_from,
    lemma_any_delimiter_round_trip, no_delimiter_between, AnyDelimiterCodecOwned,
};
use crate::buf::occurs_ending_at;
use crate::decode::DecoderOwned;
use crate::framed_read::{
    decoder_step_owned, read_frame_step, unread_after, work_left, FramedReadError, ReadFrameView,
};

verus! {

/// The items, each followed by `delimiter`, one after the other.
pub open spec fn encoded_delimited_items(items: Seq<Seq<u8>>, delimiter: Seq<u8>) -> Seq<u8>
    decreases items.len(),
{
    if items.len() == 0 {
        Seq::empty()
    } else {
        encoded_delimited(items[0], delimiter) + encoded_delimited_items(
            items.drop_first(),
            delimiter,
        )
    }
}

/// No item holds more than `n` bytes, and in no item followed by `delimiter` does the
/// delimiter occur before the end.
pub open spec fn items_fit(items: Seq<Seq<u8>>, delimiter: Seq<u8>, n: int) -> bool {
    forall|i: int|
        0 <= i < items.len() ==> (#[trigger] items[i]).len() <= n && no_delimiter_between(
            encoded_delimited(items[i], delimiter),
            delimiter,
            0,
            items[i].len() + delimiter.len() as int,
        )
}

/// A framer in state `s` with the codec `d` has the items `pending` still to hand out, and
/// `unread` is what it has not read yet of the stream: the bytes it read but no frame consumed,
/// followed by the unread ones, are the pending items with their delimiters. No delimiter ends
/// in those bytes within the part the codec already scanned, nor anywhere in bytes that are not
/// framable; and before the end of the stream, a full buffer that is neither framable nor to be
/// shifted starts with its unconsumed bytes.
pub open spec fn reading_delimited<'a, const N: usize>(
    s: ReadFrameView,
    d: AnyDelimiterCodecOwned<'a, N>,
    pending: Seq<Seq<u8>>,
    unread: Seq<u8>,
) -> bool {
    let delimiter = d@.0;
    &&& s.consistent()
    &&& delimiter.len() > 0
    &&& items_fit(pending, delimiter, N as int)
    &&& s.framable_bytes() + unread == encoded_delimited_items(pending, delimiter)
    &&& s.eof ==> unread.len() == 0
    &&& 0 <= d@.1 <= s.framable()
    &&& no_delimiter_between(s.framable_bytes(), delimiter, 0, d@.1 + 1)
    &&& !s.is_framable ==> no_delimiter_between(
        s.framable_bytes(),
        delimiter,
        0,
        s.framable() + 1,
    )
    &&& !s.is_framable && !s.shift && !s.eof && s.index == s.buffer.len() ==> s.total_consumed
        == 0
}

/// The scan from `from` finds no delimiter in bytes where none ends after `from`.
proof fn lemma_no_delimiter_found(src: Seq<u8>, delimiter: Seq<u8>, from: int)
    requires
        0 <= from,
        no_delimiter_between(src, delimiter, from, src.len() + 1int),
    ensures
        first_delimiter_end_from(src, delimiter, from) is None,
    decreases src.len() - from,
{
    if from < src.len() {
        assert(!occurs_ending_at(src, delimiter, from + 1));
        lemma_no_delimiter_found(src, delimiter, from + 1);
    }
}

/// What the codec finds in bytes `p` that, followed by `unread`, are the `pending` items with
/// their delimiters, scanning on from `seen` bytes in which no delimiter ends: the next item
/// once it and its delimiter are all there, the rest being the remaining items; nothing
/// before, no delimiter then ending anywhere in `p`.
proof fn lemma_next_delimited(
    p: Seq<u8>,
    unread: Seq<u8>,
    pending: Seq<Seq<u8>>,
    delimiter: Seq<u8>,
    n: int,
    seen: int,
)
    requires
        p + unread == encoded_delimited_items(pending, delimiter),
        delimiter.len() > 0,
        items_fit(pending, delimiter, n),
        0 <= seen <= p.len(),
        no_delimiter_between(p, delimiter, 0, seen + 1),
    ensures
        if pending.len() > 0 && p.len() >= pending[0].len() + delimiter.len() {
            let k: int = pending[0].len() + delimiter.len() as int;
            &&& decoded_delimited(p, delimiter, seen) == Some((pending[0], k))
            &&& occurs_ending_at(p, delimiter, k)
            &&& p.subrange(k, p.len() as int) + unread == encoded_delimited_items(
                pending.drop_first(),
                delimiter,
            )
        } else {
            &&& decoded_delimited(p, delimiter, seen) is None
            &&& no_delimiter_between(p, delimiter, 0, p.len() + 1int)
        },
{
    let e = encoded_delimited_items(pending, delimiter);
    assert(forall|i: int| 0 <= i < p.len() ==> p[i] == #[trigger] e[i]) by {
        assert forall|i: int| 0 <= i < p.len() implies p[i] == #[trigger] e[i] by {
            assert((p + unread)[i] == p[i]);
        }
    }
    if pending.len() == 0 {
        assert((p + unread).len() == 0);
    } else {
        let item = pending[0];
        let k: int = item.len() + delimiter.len() as int;
        let enc = encoded_delimited(item, delimiter);
        let tail = encoded_delimited_items(pending.drop_first(), delimiter);
        assert(e == enc + tail);
        assert(no_delimiter_between(enc, delimiter, 0, k));
        assert(forall|i: int| 0 <= i < enc.len() ==> #[trigger] e[i] == enc[i]);
        if p.len() >= k {
            let rest = p.subrange(k, p.len() as int);
            assert(p =~= enc + rest) by {
                assert forall|i: int| 0 <= i < p.len() implies p[i] == (enc + rest)[i] by {
                    if i < k {
                        assert(e[i] == enc[i]);
                    }
                }
            }
            assert(occurs_ending_at(p, delimiter, k)) by {
                assert(p.subrange(k - delimiter.len(), k) =~= delimiter) by {
                    assert forall|i: int| 0 <= i < delimiter.len() implies p.subrange(
                        k - delimiter.len(),
                        k,
                    )[i] == delimiter[i] by {
                        assert(p[k - delimiter.len() + i] == enc[item.len() + i]);
                    }
                }
            }
            assert(seen < k);
            assert(no_delimiter_between(enc, delimiter, seen, k));
            lemma_any_delimiter_round_trip(item, delimiter, rest, seen);
            assert(rest + unread =~= tail) by {
                assert((p + unread).subrange(k, (p + unread).len() as int) =~= rest + unread);
                assert(e.subrange(k, e.len() as int) =~= tail);
            }
        } else {
            assert forall|end: int| 0 < end < p.len() + 1 implies !#[trigger] occurs_ending_at(
                p,
                delimiter,
                end,
            ) by {
                if occurs_ending_at(p, delimiter, end) {
                    assert(occurs_ending_at(enc, delimiter, end)) by {
                        assert(enc.subrange(end - delimiter.len(), end) =~= p.subrange(
                            end - delimiter.len(),
                            end,
                        )) by {
                            assert forall|i: int| 0 <= i < delimiter.len() implies #[trigger] enc.subrange(
                                end - delimiter.len(),
                                end,
                            )[i] == p.subrange(end - delimiter.len(), end)[i] by {
                                assert(e[end - delimiter.len() + i] == enc[end - delimiter.len()
                                    + i]);
                            }
                        }
                    }
                }
            }
            if p.len() >= delimiter.len() {
                lemma_no_delimiter_found(p, delimiter, seen);
            }
        }
    }
}

/// A decoder that left the framable bytes as they were leaves the whole buffer as it was.
proof fn lemma_buffer_kept(s: ReadFrameView, t: ReadFrameView)
    requires
        s.consistent(),
        s.keeps_unframable_bytes(t),
        t.buffer.subrange(s.total_consumed, s.index) == s.framable_bytes(),
    ensures
        t.buffer == s.buffer,
{
    assert forall|i: int| 0 <= i < s.buffer.len() implies t.buffer[i] == s.buffer[i] by {
        if s.total_consumed <= i < s.index {
            assert(t.buffer.subrange(s.total_consumed, s.index)[i - s.total_consumed]
                == t.buffer[i]);
        }
    }
    assert(t.buffer =~= s.buffer);
}

/// A fresh framer over a stream of delimited items, with a fresh codec whose delimiter is not
/// empty, has every item still to hand out and the whole stream still to read.
pub proof fn lemma_reading_delimited_starts<'a, const N: usize>(
    s: ReadFrameView,
    d: AnyDelimiterCodecOwned<'a, N>,
    items: Seq<Seq<u8>>,
)
    requires
        s.index == 0,
        s.total_consumed == 0,
        !s.eof,
        !s.is_framable,
        !s.shift,
        d@.0.len() > 0,
        d@.1 == 0,
        items_fit(items, d@.0, N as int),
    ensures
        reading_delimited(s, d, items, encoded_delimited_items(items, d@.0)),
{
    assert(s.framable_bytes() =~= Seq::<u8>::empty());
    assert(s.framable_bytes() + encoded_delimited_items(items, d@.0) =~= encoded_delimited_items(
        items,
        d@.0,
    ));
}

/// Every step of a framer with an [`AnyDelimiterCodecOwned`] over a stream of delimited items,
/// whose reads deliver the next bytes of the stream and deliver none only at its end, keeps
/// [`reading_delimited`]: a frame it hands out is the next item of the stream; it reaches the end
/// of the stream only once every item was handed out; it never reports a decoding error or bytes
/// left on the stream; and before the end of the stream it reports the buffer too small only when
/// the next item with its delimiter does not fit in it. A step that hands out nothing and reports
/// nothing, while the stream has not ended, leaves less [`work_left`]; so the framer never stalls
/// before the stream's end.
pub proof fn lemma_reading_delimited_step<'a, const N: usize, I>(
    s: ReadFrameView,
    d: AnyDelimiterCodecOwned<'a, N>,
    pending: Seq<Seq<u8>>,
    unread: Seq<u8>,
    read: Option<Result<usize, I>>,
    r: Result<Option<Vec<u8>>, FramedReadError<I, ()>>,
    d2: AnyDelimiterCodecOwned<'a, N>,
    t: ReadFrameView,
)
    requires
        reading_delimited(s, d, pending, unread),
        s.buffer.len() <= usize::MAX,
        (read is Some) == s.wants_read(),
        read matches Some(Ok(n)) ==> {
            &&& s.index + n <= s.buffer.len()
            &&& n <= unread.len()
            &&& unread.len() > 0 ==> n > 0
            &&& s.buffer.subrange(s.index, s.index + n) == unread.subrange(0, n as int)
        },
        read_frame_step(s, read, r, t),
        decoder_step_owned(s, d, r, d2, t),
    ensures
        r matches Ok(Some(item)) ==> {
            &&& pending.len() > 0
            &&& item@ == pending[0]
            &&& reading_delimited(t, d2, pending.drop_first(), unread_after(unread, read))
        },
        !(r matches Ok(Some(_))) ==> reading_delimited(t, d2, pending, unread_after(unread, read)),
        r matches Err(FramedReadError::EOF) ==> pending.len() == 0,
        r matches Err(FramedReadError::BufferTooSmall) ==> s.eof || s.buffer.len() == 0 || (
        pending.len() > 0 && pending[0].len() + d@.0.len() > s.buffer.len()),
        !(r matches Err(FramedReadError::Decode(_))),
        !(r matches Err(FramedReadError::BytesRemainingOnStream)),
        r matches Ok(None) && (s.is_framable || !s.eof) ==> work_left(
            t,
            unread_after(unread, read).len() as int,
        ) < work_left(s, unread.len() as int),
{
    let p = s.framable_bytes();
    let delimiter = d@.0;
    lemma_next_delimited(p, unread, pending, delimiter, N as int, d@.1);
    if s.eof {
        assert(p + unread =~= p);
    }
    if s.shift {
        crate::framed_read::lemma_shift_keeps_framable_bytes(s);
        assert(t.framable_bytes() == p);
    } else if s.is_framable {
        match r {
            Ok(Some(item)) => {
                lemma_buffer_kept(s, t);
                let k: int = pending[0].len() + delimiter.len() as int;
                assert(t.framable_bytes() =~= p.subrange(k, p.len() as int));
            },
            Ok(None) => {
                lemma_buffer_kept(s, t);
                assert(t.framable_bytes() == p);
            },
            Err(FramedReadError::EOF) => {
                lemma_buffer_kept(s, t);
                assert(t.framable_bytes() == p);
            },
            Err(FramedReadError::BytesRemainingOnStream) => {
                lemma_buffer_kept(s, t);
            },
            Err(FramedReadError::Decode(_)) => {
                lemma_buffer_kept(s, t);
            },
            _ => {},
        }
    } else {
        if pending.len() > 0 && p.len() >= pending[0].len() + delimiter.len() {
            assert(!occurs_ending_at(p, delimiter, pending[0].len() + delimiter.len() as int));
        }
        if pending.len() == 0 {
            assert((p + unread).len() == 0);
        }
        match read {
            Some(Ok(n)) => {
                if n > 0 {
                    crate::framed_read::lemma_read_appends(s, n as int);
                    let q = t.framable_bytes();
                    let rest = unread.subrange(n as int, unread.len() as int);
                    assert(q + rest =~= p + unread) by {
                        assert(unread =~= unread.subrange(0, n as int) + rest);
                    }
                    assert forall|end: int| 0 < end < d@.1 + 1 implies !#[trigger] occurs_ending_at(
                        q,
                        delimiter,
                        end,
                    ) by {
                        assert(!occurs_ending_at(p, delimiter, end));
                        if occurs_ending_at(q, delimiter, end) {
                            assert(q.subrange(end - delimiter.len(), end) =~= p.subrange(
                                end - delimiter.len(),
                                end,
                            ));
                        }
                    }
                } else {
                    assert(unread_after(unread, read) =~= unread);
                }
            },
            _ => {},
        }
    }
}

} // verus!
