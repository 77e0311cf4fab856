//! Size-aware framed reading over a borrowed buffer.
//!
//! The reader is driven by the caller: whenever the state asks for more bytes
//! ([`ReadFrame::wants_read`]), the caller reads into `buffer[index..]` and hands the outcome
//! to [`FramedRead::read_next`], which makes every other decision. A stream of frames ends
//! after an error ([`ReadFrame::has_errored`]) or once the stream ended with nothing left to
//! decode ([`ReadFrame::is_finished`]).

use vstd::prelude::*;

use super::{
    decoder::Decoder,
    maybe_decoded::{FrameSize, MaybeDecoded},
};

verus! {

/// An error that can occur while decoding a frame from a reader.
#[derive(Debug)]
pub enum Error<I, D> {
    /// The buffer is too small to read a frame.
    BufferTooSmall,
    /// An IO error occurred while reading from the underlying source.
    IO(I),
    /// Bytes remaining on the stream after EOF.
    BytesRemainingOnStream,
    /// An error occurred while decoding a frame.
    Decode(D),
}

/// The mathematical state of a [`ReadFrame`].
pub struct ReadFrameView {
    /// Number of bytes read into the buffer.
    pub index: int,
    /// EOF was reached.
    pub eof: bool,
    /// The buffer is currently framable.
    pub is_framable: bool,
    /// An error occurred; a stream over this state ends.
    pub has_errored: bool,
    /// The buffer is shifted as soon as the decoder cannot tell the next frame's size after some
    /// bytes were consumed, rather than only once the buffer is full.
    pub early_shift: bool,
    /// Number of bytes of the buffer consumed by decoded frames.
    pub total_consumed: int,
    /// The size of the next frame, as promised by the decoder.
    pub frame_size: Option<int>,
    /// The contents of the buffer.
    pub buffer: Seq<u8>,
}

impl ReadFrameView {
    /// The bytes that were read but not yet consumed by a frame.
    pub open spec fn framable_bytes(self) -> Seq<u8> {
        self.buffer.subrange(self.total_consumed, self.index)
    }

    /// Number of bytes that were read but not yet consumed by a frame.
    pub open spec fn framable(self) -> int {
        self.index - self.total_consumed
    }

    /// The next step needs the outcome of a read into `buffer[index..]`.
    pub open spec fn wants_read(self) -> bool {
        !self.is_framable && !self.eof && self.index < self.buffer.len()
    }

    /// The stream ended and nothing is left to decode: every further step answers `Ok(None)`
    /// and changes nothing, and a stream over this state ends.
    pub open spec fn finished(self) -> bool {
        self.eof && !self.is_framable
    }

    /// The state is consistent: nothing is consumed that was not read, and nothing is read
    /// beyond the buffer.
    pub open spec fn consistent(self) -> bool {
        0 <= self.total_consumed <= self.index <= self.buffer.len()
    }

    /// The state after the unconsumed bytes were moved to the start of the buffer.
    pub open spec fn shifted(self) -> Self {
        ReadFrameView {
            index: self.index - self.total_consumed,
            total_consumed: 0,
            buffer: self.framable_bytes() + self.buffer.subrange(
                self.index - self.total_consumed,
                self.buffer.len() as int,
            ),
            ..self
        }
    }

    /// The state after the decoder consumed `k` of the framable bytes as a frame.
    pub open spec fn after_frame(self, k: int) -> Self {
        if self.total_consumed + k == self.index {
            ReadFrameView { index: 0, total_consumed: 0, is_framable: false, ..self }
        } else {
            ReadFrameView { total_consumed: self.total_consumed + k, ..self }
        }
    }

    /// The state after the decoder found no frame and does not know the next frame's size: the
    /// buffer is shifted once it is full, or, shifting early, once some bytes were consumed.
    pub open spec fn after_unknown_size(self) -> Self {
        let shift = if self.early_shift {
            self.total_consumed > 0
        } else {
            self.index >= self.buffer.len()
        };
        let s = if shift {
            self.shifted()
        } else {
            self
        };
        ReadFrameView { is_framable: false, ..s }
    }

    /// The state after the decoder found no frame and promised that the next one has
    /// `size` bytes (which fit in the buffer).
    pub open spec fn after_known_size(self, size: int) -> Self {
        let s = if self.buffer.len() - self.total_consumed < size {
            self.shifted()
        } else {
            self
        };
        ReadFrameView { frame_size: Some(size), is_framable: false, ..s }
    }

    /// The state after a read that returned `n > 0` bytes.
    pub open spec fn after_bytes(self, n: int) -> Self {
        let s = ReadFrameView { index: self.index + n, ..self };
        match self.frame_size {
            Some(size) => if s.framable() < size {
                s
            } else {
                ReadFrameView { is_framable: true, frame_size: None, ..s }
            },
            None => ReadFrameView { is_framable: true, ..s },
        }
    }

    /// `self` with its framable bytes replaced by `after`, as a decoder may leave them.
    pub open spec fn with_framable_bytes(self, after: Seq<u8>) -> Self {
        ReadFrameView {
            buffer: self.buffer.subrange(0, self.total_consumed) + after + self.buffer.subrange(
                self.index,
                self.buffer.len() as int,
            ),
            ..self
        }
    }
}

/// Shifting keeps the unconsumed bytes, now at the start of the buffer, and keeps the state
/// consistent.
pub proof fn lemma_shift_keeps_framable_bytes(s: ReadFrameView)
    requires
        s.consistent(),
    ensures
        s.shifted().consistent(),
        s.shifted().total_consumed == 0,
        s.shifted().buffer.len() == s.buffer.len(),
        s.shifted().framable_bytes() == s.framable_bytes(),
{
    assert(s.shifted().framable_bytes() =~= s.framable_bytes());
}

/// Once the stream ended with nothing left to decode, it stays so: every further step answers
/// `Ok(None)`, wants no read, and leaves the state and the decoder as they were.
pub proof fn lemma_finished_stays<D: Decoder, I>(
    s: ReadFrameView,
    d: D,
    read: Option<Result<usize, I>>,
    r: Result<Option<D::Item>, Error<I, D::Error>>,
    d2: D,
    t: ReadFrameView,
)
    requires
        s.finished(),
        read_next_step(s, d, read, r, d2, t),
    ensures
        !s.wants_read(),
        r matches Ok(None),
        t == s,
        t.finished(),
        d2 == d,
{
}

/// Decoding makes progress: a step that hands out a frame consumes at least one of the
/// unconsumed bytes, so that no frame is decoded twice from the same bytes.
pub proof fn lemma_frame_makes_progress<D: Decoder, I>(
    s: ReadFrameView,
    d: D,
    read: Option<Result<usize, I>>,
    r: Result<Option<D::Item>, Error<I, D::Error>>,
    d2: D,
    t: ReadFrameView,
)
    requires
        s.consistent(),
        read_next_step(s, d, read, r, d2, t),
        r matches Ok(Some(_)),
    ensures
        s.is_framable,
        t.consistent(),
        t.framable() < s.framable(),
{
    let (res, after) = choose|res: Result<MaybeDecoded<D::Item>, D::Error>, after: Seq<u8>|
        #[trigger] decoder_answered(d, s.eof, s.framable_bytes(), res, d2, after)
            && after.len() == s.framable() && (res matches Ok(MaybeDecoded::Frame(f))
            ==> 0 < f.consumed() <= s.framable()) && after_decoding(s, res, after, r, t);
    assert(s.with_framable_bytes(after).consistent());
}

/// Once the decoder announced that the next frame has `size` bytes, and that size fits in the
/// buffer, the unconsumed bytes are kept and the frame fits after them in the buffer.
pub proof fn lemma_known_size_fits(s: ReadFrameView, size: int)
    requires
        s.consistent(),
        0 <= size <= s.buffer.len(),
    ensures
        s.after_known_size(size).consistent(),
        s.after_known_size(size).buffer.len() - s.after_known_size(size).total_consumed >= size,
        s.after_known_size(size).framable_bytes() == s.framable_bytes(),
        s.after_known_size(size).frame_size == Some(size),
{
    lemma_shift_keeps_framable_bytes(s);
}

/// The decoder is asked again only once the announced size arrived: a read that leaves fewer
/// unconsumed bytes than the announced size does not make the buffer framable.
pub proof fn lemma_waits_for_known_size(s: ReadFrameView, n: int, size: int)
    requires
        !s.is_framable,
        s.frame_size == Some(size),
        s.after_bytes(n).is_framable,
    ensures
        s.after_bytes(n).framable() >= size,
        s.after_bytes(n).frame_size is None,
{
}

/// After the decoder could not tell the next frame's size, the unconsumed bytes are kept, and
/// the decoder is asked again with strictly more of them once more bytes were read.
pub proof fn lemma_unknown_size_grows(s: ReadFrameView, n: int)
    requires
        s.consistent(),
        s.frame_size is None,
        0 < n,
    ensures
        s.after_unknown_size().framable_bytes() == s.framable_bytes(),
        s.after_unknown_size().after_bytes(n).is_framable,
        s.after_unknown_size().after_bytes(n).framable() == s.framable() + n,
{
    lemma_shift_keeps_framable_bytes(s);
}

/// After the decoder could not tell the size of the next frame in `c` bytes, the steps that do
/// not call it keep every one of those bytes and make the buffer framable again only with
/// strictly more of them, or at the end of the stream (when the decoder gets its end-of-stream
/// call); so the decoder's next ordinary call always gets a bigger buffer.
pub proof fn lemma_unknown_size_promise<D: Decoder, I>(
    s: ReadFrameView,
    d: D,
    read: Option<Result<usize, I>>,
    r: Result<Option<D::Item>, Error<I, D::Error>>,
    d2: D,
    t: ReadFrameView,
    c: int,
)
    requires
        s.consistent(),
        !s.is_framable,
        s.frame_size is None,
        s.framable() >= c,
        (read is Some) == s.wants_read(),
        read matches Some(Ok(n)) ==> s.index + n <= s.buffer.len(),
        read_next_step(s, d, read, r, d2, t),
    ensures
        d2 == d,
        t.consistent(),
        t.framable() >= c,
        t.frame_size is None,
        t.is_framable ==> t.framable() > c || t.eof,
{
}

/// After the decoder announced that the next frame has `k` bytes, and the buffer has room for
/// them, the steps that do not call it keep waiting until at least `k` bytes are there: the
/// buffer becomes framable only then, and never at the end of the stream, where the missing
/// bytes are reported instead.
pub proof fn lemma_known_size_promise<D: Decoder, I>(
    s: ReadFrameView,
    d: D,
    read: Option<Result<usize, I>>,
    r: Result<Option<D::Item>, Error<I, D::Error>>,
    d2: D,
    t: ReadFrameView,
    k: int,
)
    requires
        s.consistent(),
        !s.is_framable,
        !s.eof,
        s.frame_size == Some(k),
        s.buffer.len() - s.total_consumed >= k,
        (read is Some) == s.wants_read(),
        read matches Some(Ok(n)) ==> s.index + n <= s.buffer.len(),
        read_next_step(s, d, read, r, d2, t),
    ensures
        d2 == d,
        t.consistent(),
        t.is_framable ==> t.framable() >= k && !t.eof,
        !t.is_framable && !t.has_errored ==> t.frame_size == Some(k) && t.buffer.len()
            - t.total_consumed >= k && !t.eof,
        !t.is_framable && !t.eof ==> t.frame_size == Some(k) && t.buffer.len() - t.total_consumed
            >= k,
        t.eof ==> (r matches Err(Error::BytesRemainingOnStream)) && t.has_errored && !t.is_framable,
{
}

/// Step `i` of a run of [`FramedRead::read_next`]: from `states[i]` with decoder
/// `decoders[i]`, given `reads[i]` (handed over as [`FramedRead::read_next`] requires), the
/// step answers `answers[i]` and leaves `states[i + 1]` and `decoders[i + 1]`.
pub open spec fn run_step<D: Decoder, I>(
    states: Seq<ReadFrameView>,
    decoders: Seq<D>,
    reads: Seq<Option<Result<usize, I>>>,
    answers: Seq<Result<Option<D::Item>, Error<I, D::Error>>>,
    i: int,
) -> bool {
    &&& (reads[i] is Some) == states[i].wants_read()
    &&& (reads[i] matches Some(Ok(n)) ==> states[i].index + n <= states[i].buffer.len())
    &&& read_next_step(states[i], decoders[i], reads[i], answers[i], decoders[i + 1], states[i + 1])
}

/// `states`, `decoders`, `reads` and `answers` are a run of `reads.len()` steps of
/// [`FramedRead::read_next`], each taken from where the one before left off.
pub open spec fn is_run<D: Decoder, I>(
    states: Seq<ReadFrameView>,
    decoders: Seq<D>,
    reads: Seq<Option<Result<usize, I>>>,
    answers: Seq<Result<Option<D::Item>, Error<I, D::Error>>>,
) -> bool {
    &&& states.len() == reads.len() + 1
    &&& decoders.len() == states.len()
    &&& answers.len() == reads.len()
    &&& forall|i: int| 0 <= i < reads.len() ==> #[trigger] run_step(states, decoders, reads, answers, i)
}

/// The steps of a run after an unknown-size answer keep at least `c` unconsumed bytes and leave
/// the decoder alone, up to step `m`.
proof fn lemma_unknown_size_run_upto<D: Decoder, I>(
    states: Seq<ReadFrameView>,
    decoders: Seq<D>,
    reads: Seq<Option<Result<usize, I>>>,
    answers: Seq<Result<Option<D::Item>, Error<I, D::Error>>>,
    c: int,
    m: int,
)
    requires
        is_run(states, decoders, reads, answers),
        1 <= m <= reads.len(),
        states[1].consistent(),
        !states[1].is_framable,
        states[1].frame_size is None,
        states[1].framable() >= c,
        forall|i: int| 1 <= i < reads.len() ==> !#[trigger] states[i].is_framable,
    ensures
        decoders[m] == decoders[1],
        states[m].consistent(),
        states[m].frame_size is None,
        states[m].framable() >= c,
        states[m].is_framable ==> states[m].framable() > c || states[m].eof,
    decreases m,
{
    if m > 1 {
        lemma_unknown_size_run_upto(states, decoders, reads, answers, c, m - 1);
        assert(run_step(states, decoders, reads, answers, m - 1));
        assert(!states[m - 1].is_framable);
        lemma_unknown_size_promise(
            states[m - 1],
            decoders[m - 1],
            reads[m - 1],
            answers[m - 1],
            decoders[m],
            states[m],
            c,
        );
    }
}

/// The promise of an unknown frame size, over a whole run of [`FramedRead::read_next`]: once
/// the decoder, asked for the unconsumed bytes before the end of the stream, answered that it
/// cannot tell the size of the next frame, the steps up to its next call keep every one of
/// those bytes and leave it alone; its next ordinary call gets strictly more bytes, and its
/// next end-of-stream call at least as many.
pub proof fn lemma_unknown_size_promise_run<D: Decoder, I>(
    states: Seq<ReadFrameView>,
    decoders: Seq<D>,
    reads: Seq<Option<Result<usize, I>>>,
    answers: Seq<Result<Option<D::Item>, Error<I, D::Error>>>,
    after: Seq<u8>,
)
    requires
        is_run(states, decoders, reads, answers),
        reads.len() >= 1,
        states[0].consistent(),
        states[0].is_framable,
        !states[0].eof,
        states[0].frame_size is None,
        after.len() == states[0].framable(),
        decoder_answered(
            decoders[0],
            false,
            states[0].framable_bytes(),
            Ok(MaybeDecoded::Incomplete(FrameSize::Unknown)),
            decoders[1],
            after,
        ),
        after_decoding(
            states[0],
            Ok::<MaybeDecoded<D::Item>, D::Error>(MaybeDecoded::Incomplete(FrameSize::Unknown)),
            after,
            answers[0],
            states[1],
        ),
        forall|i: int| 1 <= i < reads.len() ==> !#[trigger] states[i].is_framable,
    ensures
        forall|i: int| 1 <= i <= reads.len() ==> #[trigger] decoders[i] == decoders[1],
        states[reads.len() as int].framable() >= states[0].framable(),
        states[reads.len() as int].is_framable && !states[reads.len() as int].eof
            ==> states[reads.len() as int].framable() > states[0].framable(),
{
    let s = states[0];
    let d = s.with_framable_bytes(after);
    assert(d.consistent());
    lemma_shift_keeps_framable_bytes(d);
    let n = reads.len() as int;
    assert forall|i: int| 1 <= i <= n implies #[trigger] decoders[i] == decoders[1] by {
        lemma_unknown_size_run_upto(states, decoders, reads, answers, s.framable(), i);
    }
    lemma_unknown_size_run_upto(states, decoders, reads, answers, s.framable(), n);
}

/// The steps of a run after a known-size answer of `k` bytes either keep waiting for them or
/// have reported the end of the stream with bytes missing, up to step `m`.
proof fn lemma_known_size_run_upto<D: Decoder, I>(
    states: Seq<ReadFrameView>,
    decoders: Seq<D>,
    reads: Seq<Option<Result<usize, I>>>,
    answers: Seq<Result<Option<D::Item>, Error<I, D::Error>>>,
    k: int,
    m: int,
)
    requires
        is_run(states, decoders, reads, answers),
        1 <= m <= reads.len(),
        states[1].consistent(),
        !states[1].is_framable,
        !states[1].eof,
        states[1].frame_size == Some(k),
        states[1].buffer.len() - states[1].total_consumed >= k,
        forall|i: int| 1 <= i < reads.len() ==> !#[trigger] states[i].is_framable,
    ensures
        decoders[m] == decoders[1],
        states[m].consistent(),
        states[m].is_framable ==> states[m].framable() >= k && !states[m].eof,
        !states[m].is_framable && !states[m].eof ==> states[m].frame_size == Some(k)
            && states[m].buffer.len() - states[m].total_consumed >= k,
        states[m].eof ==> !states[m].is_framable && states[m].has_errored && exists|j: int|
            0 <= j < m && #[trigger] answers[j] matches Err(Error::BytesRemainingOnStream),
    decreases m,
{
    if m > 1 {
        lemma_known_size_run_upto(states, decoders, reads, answers, k, m - 1);
        assert(run_step(states, decoders, reads, answers, m - 1));
        let s = states[m - 1];
        assert(!s.is_framable);
        if s.eof {
            assert(states[m] == s);
            let j = choose|j: int|
                0 <= j < m - 1 && #[trigger] answers[j] matches Err(
                    Error::BytesRemainingOnStream,
                );
            assert(answers[j] matches Err(Error::BytesRemainingOnStream));
        } else {
            lemma_known_size_promise(
                s,
                decoders[m - 1],
                reads[m - 1],
                answers[m - 1],
                decoders[m],
                states[m],
                k,
            );
            if states[m].eof {
                assert(answers[m - 1] matches Err(Error::BytesRemainingOnStream));
            }
        }
    }
}

/// The promise of a known frame size, over a whole run of [`FramedRead::read_next`]: once the
/// decoder, asked for the unconsumed bytes before the end of the stream, answered that the next
/// frame has `k` bytes, the framer reports a buffer too small for them at once; where they fit,
/// the steps up to its next call leave it alone, and that call gets at least `k` bytes, never at
/// the end of the stream; where the stream ends before they arrived, the framer reports the
/// missing bytes instead of asking it.
pub proof fn lemma_known_size_promise_run<D: Decoder, I>(
    states: Seq<ReadFrameView>,
    decoders: Seq<D>,
    reads: Seq<Option<Result<usize, I>>>,
    answers: Seq<Result<Option<D::Item>, Error<I, D::Error>>>,
    after: Seq<u8>,
    k: usize,
)
    requires
        is_run(states, decoders, reads, answers),
        reads.len() >= 1,
        states[0].consistent(),
        states[0].is_framable,
        !states[0].eof,
        after.len() == states[0].framable(),
        decoder_answered(
            decoders[0],
            false,
            states[0].framable_bytes(),
            Ok(MaybeDecoded::Incomplete(FrameSize::Known(k))),
            decoders[1],
            after,
        ),
        after_decoding(
            states[0],
            Ok::<MaybeDecoded<D::Item>, D::Error>(MaybeDecoded::Incomplete(FrameSize::Known(k))),
            after,
            answers[0],
            states[1],
        ),
        forall|i: int| 1 <= i < reads.len() ==> !#[trigger] states[i].is_framable,
    ensures
        k > states[0].buffer.len() ==> (answers[0] matches Err(Error::BufferTooSmall))
            && states[1].has_errored,
        k <= states[0].buffer.len() ==> forall|i: int|
            1 <= i <= reads.len() ==> #[trigger] decoders[i] == decoders[1],
        k <= states[0].buffer.len() && states[reads.len() as int].is_framable
            ==> states[reads.len() as int].framable() >= k && !states[reads.len() as int].eof,
        k <= states[0].buffer.len() && states[reads.len() as int].eof
            ==> !states[reads.len() as int].is_framable && exists|j: int|
            0 <= j < reads.len() && #[trigger] answers[j] matches Err(
                Error::BytesRemainingOnStream,
            ),
{
    let s = states[0];
    if k <= s.buffer.len() {
        let d = s.with_framable_bytes(after);
        assert(d.consistent());
        lemma_known_size_fits(d, k as int);
        let n = reads.len() as int;
        assert forall|i: int| 1 <= i <= n implies #[trigger] decoders[i] == decoders[1] by {
            lemma_known_size_run_upto(states, decoders, reads, answers, k as int, i);
        }
        lemma_known_size_run_upto(states, decoders, reads, answers, k as int, n);
    }
}

/// Internal state for reading a frame.
#[derive(Debug)]
pub struct ReadFrame<'a> {
    /// The current index in the buffer.
    ///
    /// Represents the number of bytes read into the buffer.
    index: usize,
    /// EOF was reached while decoding.
    eof: bool,
    /// The buffer is currently framable.
    is_framable: bool,
    /// An error occurred while decoding a frame or reading from the underlying source.
    has_errored: bool,
    /// Shift the buffer as soon as the decoder cannot tell the next frame's size after some
    /// bytes were consumed.
    early_shift: bool,
    /// Total number of bytes decoded in a framing round.
    total_consumed: usize,
    /// The size of the next frame to decode.
    frame_size: Option<usize>,
    /// The underlying buffer to read into.
    buffer: &'a mut [u8],
}

impl<'a> View for ReadFrame<'a> {
    type V = ReadFrameView;

    closed spec fn view(&self) -> ReadFrameView {
        ReadFrameView {
            index: self.index as int,
            eof: self.eof,
            is_framable: self.is_framable,
            has_errored: self.has_errored,
            early_shift: self.early_shift,
            total_consumed: self.total_consumed as int,
            frame_size: match self.frame_size {
                Some(size) => Some(size as int),
                None => None,
            },
            buffer: self.buffer@,
        }
    }
}

impl<'a> ReadFrame<'a> {
    /// The state is consistent.
    pub closed spec fn wf(&self) -> bool {
        self.total_consumed <= self.index <= self.buffer@.len()
    }

    /// A well-formed state has a consistent view.
    pub proof fn lemma_wf_view(&self)
        requires
            self.wf(),
        ensures
            self@.consistent(),
    {
    }

    /// Creates a new [`ReadFrame`] with the given `buffer`.
    pub(crate) fn new(buffer: &'a mut [u8]) -> (r: Self)
        ensures
            r.wf(),
            r@ == (ReadFrameView {
                index: 0,
                eof: false,
                is_framable: false,
                has_errored: false,
                early_shift: false,
                total_consumed: 0,
                frame_size: None,
                buffer: old(buffer)@,
            }),
    {
        Self {
            index: 0,
            eof: false,
            is_framable: false,
            has_errored: false,
            early_shift: false,
            total_consumed: 0,
            frame_size: None,
            buffer,
        }
    }

    /// Returns the current index in the buffer.
    pub fn index(&self) -> (r: usize)
        ensures
            r == self@.index,
    {
        self.index
    }

    /// Returns whether EOF was reached while decoding.
    pub fn eof(&self) -> (r: bool)
        ensures
            r == self@.eof,
    {
        self.eof
    }

    /// Returns whether the buffer is currently framable.
    pub fn is_framable(&self) -> (r: bool)
        ensures
            r == self@.is_framable,
    {
        self.is_framable
    }

    /// Returns whether the buffer is shifted as soon as the decoder cannot tell the next frame's
    /// size after some bytes were consumed.
    pub fn early_shift(&self) -> (r: bool)
        ensures
            r == self@.early_shift,
    {
        self.early_shift
    }

    /// Returns whether an error occurred while decoding a frame or reading from the underlying source.
    pub fn has_errored(&self) -> (r: bool)
        ensures
            r == self@.has_errored,
    {
        self.has_errored
    }

    /// Returns the total number of bytes decoded in a framing round.
    pub fn total_consumed(&self) -> (r: usize)
        ensures
            r == self@.total_consumed,
    {
        self.total_consumed
    }

    /// Returns the size of the next frame to decode.
    pub fn frame_size(&self) -> (r: Option<usize>)
        ensures
            r matches Some(size) ==> self@.frame_size == Some(size as int),
            r is None ==> self@.frame_size is None,
    {
        self.frame_size
    }

    /// Returns a reference to the underlying buffer.
    pub fn buffer(&self) -> (r: &[u8])
        ensures
            r@ == self@.buffer,
    {
        self.buffer
    }

    /// Returns the number of bytes that can be framed.
    pub fn framable(&self) -> (r: usize)
        requires
            self.wf(),
        ensures
            r == self@.framable(),
    {
        self.index - self.total_consumed
    }

    /// Returns whether the next step needs the outcome of a read into `buffer[index..]`.
    pub fn wants_read(&self) -> (r: bool)
        requires
            self.wf(),
        ensures
            r == self@.wants_read(),
    {
        !self.is_framable && !self.eof && self.index < self.buffer.len()
    }

    /// Returns whether the stream ended and nothing is left to decode.
    pub fn is_finished(&self) -> (r: bool)
        ensures
            r == self@.finished(),
    {
        self.eof && !self.is_framable
    }

    /// Moves the unconsumed bytes to the start of the buffer.
    fn shift_buffer(&mut self)
        requires
            old(self).wf(),
        ensures
            final(self).wf(),
            final(self)@ == old(self)@.shifted(),
    {
        let ghost orig = self.buffer@;
        let n = self.buffer.len();
        let start = self.total_consumed;
        let len = self.index - self.total_consumed;
        let mut i: usize = 0;
        while i < len
            invariant
                self.wf(),
                n == orig.len(),
                start == self.total_consumed,
                len == self.index - self.total_consumed,
                self.buffer@.len() == orig.len(),
                self.eof == old(self).eof,
                self.is_framable == old(self).is_framable,
                self.has_errored == old(self).has_errored,
                self.early_shift == old(self).early_shift,
                self.frame_size == old(self).frame_size,
                0 <= i <= len,
                forall|j: int| 0 <= j < i ==> self.buffer@[j] == orig[start + j],
                forall|j: int| i <= j < n ==> self.buffer@[j] == orig[j],
            decreases len - i,
        {
            let b = self.buffer[start + i];
            self.buffer[i] = b;
            i += 1;
        }
        self.index = len;
        self.total_consumed = 0;
        assert(self.buffer@ =~= orig.subrange(start as int, start + len) + orig.subrange(
            len as int,
            n as int,
        ));
    }
}

/// A stream of frames decoded from an underlying readable source.
#[derive(Debug)]
pub struct FramedRead<'a, D, R> {
    state: ReadFrame<'a>,
    decoder: D,
    inner: R,
}

impl<'a, D, R> FramedRead<'a, D, R> {
    /// The state of the framer.
    pub closed spec fn state_view(&self) -> ReadFrameView {
        self.state@
    }

    /// The decoder of the framer.
    pub closed spec fn decoder_view(&self) -> D {
        self.decoder
    }

    /// The underlying reader of the framer.
    pub closed spec fn inner_view(&self) -> R {
        self.inner
    }

    /// The framer's state is well formed.
    pub closed spec fn wf(&self) -> bool {
        self.state.wf()
    }

    /// A well-formed framer has a consistent state.
    pub proof fn lemma_wf_view(&self)
        requires
            self.wf(),
        ensures
            self.state_view().consistent(),
    {
    }

    /// Creates a new [`FramedRead`] with the given `decoder`, `buffer`, and underlying `inner` reader.
    pub fn new(inner: R, decoder: D, buffer: &'a mut [u8]) -> (r: Self)
        ensures
            r.wf(),
            r.state_view() == (ReadFrameView {
                index: 0,
                eof: false,
                is_framable: false,
                has_errored: false,
                early_shift: false,
                total_consumed: 0,
                frame_size: None,
                buffer: old(buffer)@,
            }),
            r.decoder_view() == decoder,
            r.inner_view() == inner,
    {
        Self { state: ReadFrame::new(buffer), decoder, inner }
    }

    /// Chooses when the buffer is shifted after the decoder could not tell the next frame's
    /// size: as soon as some bytes were consumed (`true`), or only once the buffer is full
    /// (`false`, the default).
    pub fn set_early_shift(&mut self, early_shift: bool)
        ensures
            final(self).state_view() == (ReadFrameView { early_shift, ..old(self).state_view() }),
            final(self).decoder_view() == old(self).decoder_view(),
            final(self).inner_view() == old(self).inner_view(),
            old(self).wf() ==> final(self).wf(),
    {
        self.state.early_shift = early_shift;
    }

    /// Returns a reference to the internal state.
    pub fn state(&self) -> (r: &ReadFrame<'a>)
        ensures
            r@ == self.state_view(),
            self.wf() ==> r.wf(),
    {
        &self.state
    }

    /// Returns a reference to the decoder.
    pub fn decoder(&self) -> (r: &D)
        ensures
            *r == self.decoder_view(),
    {
        &self.decoder
    }

    /// Returns a reference to the underlying `inner` reader.
    pub fn inner(&self) -> (r: &R)
        ensures
            *r == self.inner_view(),
    {
        &self.inner
    }

    /// Returns a mutable reference to the underlying `inner` reader.
    pub fn inner_mut(&mut self) -> (r: &mut R)
        ensures
            *r == old(self).inner_view(),
            final(self).inner_view() == *final(r),
            final(self).state_view() == old(self).state_view(),
            final(self).decoder_view() == old(self).decoder_view(),
            old(self).wf() ==> final(self).wf(),
    {
        &mut self.inner
    }

    /// Returns the free part of the buffer, `buffer[index..]`, for the caller to read into.
    pub fn read_buffer(&mut self) -> (r: &mut [u8])
        requires
            old(self).wf(),
        ensures
            r@ == old(self).state_view().buffer.subrange(
                old(self).state_view().index,
                old(self).state_view().buffer.len() as int,
            ),
            final(self).wf(),
            final(self).state_view() == (ReadFrameView {
                buffer: old(self).state_view().buffer.subrange(0, old(self).state_view().index)
                    + final(r)@,
                ..old(self).state_view()
            }),
            final(self).decoder_view() == old(self).decoder_view(),
            final(self).inner_view() == old(self).inner_view(),
    {
        let idx = self.state.index;
        let whole: &mut [u8] = self.state.buffer;
        let (head, tail) = whole.split_at_mut(idx);
        tail
    }

    /// Returns the underlying reader together with the free part of the buffer,
    /// `buffer[index..]`, for the caller to read into before the next step.
    pub fn inner_and_read_buffer(&mut self) -> (r: (&mut R, &mut [u8]))
        requires
            old(self).wf(),
        ensures
            *r.0 == old(self).inner_view(),
            r.1@ == old(self).state_view().buffer.subrange(
                old(self).state_view().index,
                old(self).state_view().buffer.len() as int,
            ),
            final(self).wf(),
            final(self).inner_view() == *final(r.0),
            final(self).decoder_view() == old(self).decoder_view(),
            final(self).state_view() == (ReadFrameView {
                buffer: old(self).state_view().buffer.subrange(0, old(self).state_view().index)
                    + final(r.1)@,
                ..old(self).state_view()
            }),
    {
        let idx = self.state.index;
        let whole: &mut [u8] = self.state.buffer;
        let (_, tail) = whole.split_at_mut(idx);
        (&mut self.inner, tail)
    }

    /// Returns the decoder consuming the [`FramedRead`].
    pub fn into_decoder(self) -> (r: D)
        ensures
            r == self.decoder_view(),
    {
        self.decoder
    }

    /// Returns the underlying `inner` reader consuming the [`FramedRead`].
    pub fn into_inner(self) -> (r: R)
        ensures
            r == self.inner_view(),
    {
        self.inner
    }
}

impl<'a, D: Decoder, R> FramedRead<'a, D, R> {
    /// One step towards the next frame.
    ///
    /// `read` is the outcome of reading into [`FramedRead::read_buffer`] (or the buffer half of
    /// [`FramedRead::inner_and_read_buffer`]), and must be given exactly when
    /// [`ReadFrame::wants_read`] holds before the call.
    ///
    /// Returns:
    /// - `Ok(Some(frame))` if a frame was decoded.
    /// - `Ok(None)` if no frame is available yet: take the next step; or, once
    ///   [`ReadFrame::is_finished`] holds, the stream ended and there are no more frames.
    /// - `Err(error)` if an error occurred; the state is then marked as errored.
    pub fn read_next<I>(&mut self, read: Option<Result<usize, I>>) -> (r: Result<
        Option<D::Item>,
        Error<I, D::Error>,
    >)
        requires
            old(self).wf(),
            (read is Some) == old(self).state_view().wants_read(),
            read matches Some(Ok(n)) ==> old(self).state_view().index + n <= old(
                self,
            ).state_view().buffer.len(),
        ensures
            final(self).wf(),
            final(self).inner_view() == old(self).inner_view(),
            read_next_step(
                old(self).state_view(),
                old(self).decoder_view(),
                read,
                r,
                final(self).decoder_view(),
                final(self).state_view(),
            ),
    {
        let ghost s = self.state@;
        let ghost d = self.decoder;
        if self.state.is_framable {
            let tc = self.state.total_consumed;
            let idx = self.state.index;
            let eof = self.state.eof;
            let len = self.state.buffer.len();
            let whole: &mut [u8] = self.state.buffer;
            let (head, rest) = whole.split_at_mut(tc);
            let (window, tail) = rest.split_at_mut(idx - tc);
            let ghost w0 = window@;
            let ghost h1 = final(head)@;
            let ghost w1 = final(window)@;
            let ghost t1 = final(tail)@;
            let res = if eof {
                self.decoder.decode_eof(window)
            } else {
                self.decoder.decode(window)
            };
            assert(w0 == s.framable_bytes());
            assert(decoder_answered(d, eof, s.framable_bytes(), res, self.decoder, w1));
            let ghost decoded = self.state@;
            assert(decoded.buffer =~= h1 + w1 + t1);
            let ghost after = decoded.buffer.subrange(tc as int, idx as int);
            assert(after =~= w1);
            assert(h1 =~= s.buffer.subrange(0, tc as int));
            assert(t1 =~= s.buffer.subrange(idx as int, len as int));
            assert(decoded.buffer =~= s.with_framable_bytes(after).buffer);
            assert(decoded == s.with_framable_bytes(after));
            let ghost answer = res;
            match res {
                Ok(MaybeDecoded::Frame(frame)) => {
                    let size = frame.size();
                    self.state.total_consumed = tc + size;
                    if eof {
                        assert(self.state@ == ReadFrameView { total_consumed: tc + size, ..decoded });
                    } else if self.state.total_consumed == idx {
                        self.state.total_consumed = 0;
                        self.state.index = 0;
                        self.state.is_framable = false;
                        assert(self.state@ == decoded.after_frame(size as int));
                    } else {
                        assert(self.state@ == decoded.after_frame(size as int));
                    }
                    return Ok(Some(frame.into_item()));
                },
                Ok(MaybeDecoded::Incomplete(frame_size)) => {
                    if eof {
                        self.state.is_framable = false;
                        if idx != tc {
                            self.state.has_errored = true;
                            return Err(Error::BytesRemainingOnStream);
                        }
                        return Ok(None);
                    }
                    match frame_size {
                        FrameSize::Unknown => {
                            let shift = if self.state.early_shift {
                                tc > 0
                            } else {
                                idx >= len
                            };
                            if shift {
                                self.state.shift_buffer();
                            }
                            self.state.is_framable = false;
                            assert(self.state@ == decoded.after_unknown_size());
                        },
                        FrameSize::Known(size) => {
                            if size > len {
                                self.state.has_errored = true;
                                return Err(Error::BufferTooSmall);
                            }
                            if len - tc < size {
                                self.state.shift_buffer();
                            }
                            self.state.frame_size = Some(size);
                            self.state.is_framable = false;
                            assert(self.state@ == decoded.after_known_size(size as int));
                        },
                    }
                    return Ok(None);
                },
                Err(err) => {
                    self.state.has_errored = true;
                    return Err(Error::Decode(err));
                },
            }
        }
        if self.state.eof {
            return Ok(None);
        }
        if self.state.index >= self.state.buffer.len() {
            self.state.has_errored = true;
            return Err(Error::BufferTooSmall);
        }
        match read {
            None => Ok(None),
            Some(Err(err)) => {
                self.state.has_errored = true;
                Err(Error::IO(err))
            },
            Some(Ok(n)) => {
                if n == 0 {
                    self.state.eof = true;
                    match self.state.frame_size {
                        Some(_) => {
                            self.state.has_errored = true;
                            return Err(Error::BytesRemainingOnStream);
                        },
                        None => {
                            if self.state.total_consumed != self.state.index {
                                self.state.is_framable = true;
                            }
                            return Ok(None);
                        },
                    }
                }
                self.state.index = self.state.index + n;
                match self.state.frame_size {
                    Some(frame_size) => {
                        if self.state.index - self.state.total_consumed >= frame_size {
                            self.state.is_framable = true;
                            self.state.frame_size = None;
                        }
                    },
                    None => {
                        self.state.is_framable = true;
                    },
                }
                Ok(None)
            },
        }
    }
}

/// How much work a size-aware framer in state `s`, with `unread` bytes of its stream still to
/// read, has left at most before it hands out a frame or reports something: each read counts
/// for the bytes it delivers, and a pending decoding or end of the stream for a little more.
pub open spec fn work_left(s: ReadFrameView, unread: int) -> int {
    3 * unread + (if s.is_framable {
        2int
    } else {
        0
    }) + (if s.eof {
        0int
    } else {
        6
    })
}

/// What a decoder `d` answered when asked for the framable bytes at the end of the stream
/// (`eof`) or before: `res`, leaving it in state `d2` and the bytes as `after`.
pub open spec fn decoder_answered<D: Decoder>(
    d: D,
    eof: bool,
    window: Seq<u8>,
    res: Result<MaybeDecoded<D::Item>, D::Error>,
    d2: D,
    after: Seq<u8>,
) -> bool {
    if eof {
        d.decodes_eof(window, res, &d2, after)
    } else {
        d.decodes(window, res, &d2, after)
    }
}

/// How a step of [`FramedRead::read_next`] from state `s` goes on once the decoder answered
/// `res` and left the framable bytes as `after`: it answers `r` and leaves state `t`.
pub open spec fn after_decoding<T, I, E>(
    s: ReadFrameView,
    res: Result<MaybeDecoded<T>, E>,
    after: Seq<u8>,
    r: Result<Option<T>, Error<I, E>>,
    t: ReadFrameView,
) -> bool {
    let d = s.with_framable_bytes(after);
    match res {
        Ok(MaybeDecoded::Frame(f)) => r == Ok::<Option<T>, Error<I, E>>(Some(f.decoded())) && (
        if s.eof {
            t == ReadFrameView { total_consumed: s.total_consumed + f.consumed(), ..d }
        } else {
            t == d.after_frame(f.consumed() as int)
        }),
        Ok(MaybeDecoded::Incomplete(size)) => if s.eof {
            if s.framable() != 0 {
                r matches Err(Error::BytesRemainingOnStream) && t == ReadFrameView {
                    is_framable: false,
                    has_errored: true,
                    ..d
                }
            } else {
                r matches Ok(None) && t == ReadFrameView { is_framable: false, ..d }
            }
        } else {
            match size {
                FrameSize::Unknown => r matches Ok(None) && t == d.after_unknown_size(),
                FrameSize::Known(n) => if n > s.buffer.len() {
                    r matches Err(Error::BufferTooSmall) && t == ReadFrameView {
                        has_errored: true,
                        ..d
                    }
                } else {
                    r matches Ok(None) && t == d.after_known_size(n as int)
                },
            }
        },
        Err(e) => r == Err::<Option<T>, Error<I, E>>(Error::Decode(e)) && t == ReadFrameView {
            has_errored: true,
            ..d
        },
    }
}

/// One step of [`FramedRead::read_next`]: from state `s` with decoder `d`, given the outcome
/// `read` of the read the caller performed (if the step wanted one), the step answers `r` and
/// leaves state `t` and decoder `d2`.
///
/// A step on framable bytes asks the decoder for them; the decoder's answer, together with the
/// bytes it left, decides the rest ([`after_decoding`]).
pub open spec fn read_next_step<D: Decoder, I>(
    s: ReadFrameView,
    d: D,
    read: Option<Result<usize, I>>,
    r: Result<Option<D::Item>, Error<I, D::Error>>,
    d2: D,
    t: ReadFrameView,
) -> bool {
    if s.is_framable {
        exists|res: Result<MaybeDecoded<D::Item>, D::Error>, after: Seq<u8>|
            #[trigger] decoder_answered(d, s.eof, s.framable_bytes(), res, d2, after)
                && after.len() == s.framable() && (res matches Ok(MaybeDecoded::Frame(f))
                ==> 0 < f.consumed() <= s.framable()) && after_decoding(s, res, after, r, t)
    } else if s.eof {
        &&& d2 == d
        &&& r matches Ok(None)
        &&& t == s
    } else if s.index >= s.buffer.len() {
        &&& d2 == d
        &&& r matches Err(Error::BufferTooSmall)
        &&& t == ReadFrameView { has_errored: true, ..s }
    } else {
        &&& d2 == d
        &&& match read {
            None => false,
            Some(Err(e)) => r == Err::<Option<D::Item>, Error<I, D::Error>>(Error::IO(e)) && t
                == ReadFrameView { has_errored: true, ..s },
            Some(Ok(n)) => if n == 0 {
                match s.frame_size {
                    Some(_) => r matches Err(Error::BytesRemainingOnStream) && t == ReadFrameView {
                        eof: true,
                        has_errored: true,
                        ..s
                    },
                    None => r matches Ok(None) && t == ReadFrameView {
                        eof: true,
                        is_framable: s.framable() != 0,
                        ..s
                    },
                }
            } else {
                r matches Ok(None) && t == s.after_bytes(n as int)
            },
        }
    }
}

} // verus!
