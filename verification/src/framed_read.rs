//! Framed reading. Turns the bytes of a reader into a sequence of frames.
//!
//! The reader itself is driven by the caller: whenever the state asks for more bytes
//! ([`ReadFrame::wants_read`]), the caller reads into the free part of the buffer
//! ([`FramedRead::reader_and_free_buffer`]) and hands the outcome of that read to
//! [`FramedRead::read_frame`] or [`FramedRead::read_frame_owned`], which make every other
//! decision.

use vstd::prelude::*;

use crate::decode::{Decoder, DecoderOwned};

verus! {

/// An error that can occur while reading a frame from a reader.
#[derive(Debug)]
pub enum FramedReadError<I, D> {
    /// An IO error occurred while reading from the underlying source.
    IO(I),
    /// An error occurred while decoding a frame.
    Decode(D),
    /// The buffer is too small to read a frame.
    BufferTooSmall,
    /// There are bytes remaining on the stream after decoding.
    BytesRemainingOnStream,
    /// EOF was reached while decoding. The caller should stop reading.
    EOF,
}

/// The mathematical state of a [`ReadFrame`].
pub struct ReadFrameView {
    /// Number of bytes read into the buffer.
    pub index: int,
    /// EOF was reached.
    pub eof: bool,
    /// The buffer is currently framable.
    pub is_framable: bool,
    /// The buffer must be shifted before anything else happens.
    pub shift: bool,
    /// The buffer is shifted as soon as a decoder finds no frame after some bytes were
    /// consumed, rather than only once the buffer is full.
    pub early_shift: bool,
    /// Number of bytes of the buffer consumed by decoded frames.
    pub total_consumed: int,
    /// The contents of the buffer.
    pub buffer: Seq<u8>,
}

impl ReadFrameView {
    /// The bytes that were read but not yet consumed by a frame.
    pub open spec fn framable_bytes(self) -> Seq<u8> {
        self.buffer.subrange(self.total_consumed, self.index)
    }

    /// Number of bytes that were read but not yet consumed by a frame.
    pub open spec fn framable(self) -> int {
        self.index - self.total_consumed
    }

    /// The next step needs the outcome of a read into `buffer[index..]`.
    pub open spec fn wants_read(self) -> bool {
        !self.shift && !self.is_framable && self.index < self.buffer.len()
    }

    /// The state after the unconsumed bytes were moved to the start of the buffer.
    pub open spec fn shifted(self) -> Self {
        ReadFrameView {
            index: self.index - self.total_consumed,
            total_consumed: 0,
            shift: false,
            buffer: self.framable_bytes() + self.buffer.subrange(
                self.index - self.total_consumed,
                self.buffer.len() as int,
            ),
            ..self
        }
    }

    /// The state after a decoder found no frame in the framable bytes (before EOF): the
    /// buffer is to be shifted once it is full, or, shifting early, once some bytes were
    /// consumed.
    pub open spec fn without_frame(self) -> Self {
        ReadFrameView {
            shift: if self.early_shift {
                self.total_consumed > 0
            } else {
                self.index >= self.buffer.len()
            },
            is_framable: false,
            ..self
        }
    }

    /// The state after a read that returned `n` bytes (`0` meaning EOF).
    pub open spec fn after_read(self, n: int) -> Self {
        if n == 0 {
            ReadFrameView { eof: true, is_framable: true, ..self }
        } else {
            ReadFrameView { index: self.index + n, is_framable: true, ..self }
        }
    }

    /// `next` has the same buffer length as `self`, and the same bytes outside the framable
    /// bytes of `self`, which a decoder is allowed to modify.
    pub open spec fn keeps_unframable_bytes(self, next: Self) -> bool {
        &&& next.buffer.len() == self.buffer.len()
        &&& forall|i: int|
            0 <= i < self.buffer.len() && !(self.total_consumed <= i < self.index)
                ==> #[trigger] next.buffer[i] == self.buffer[i]
    }

    /// `next` is `expected` except for the framable bytes of `self`, which a decoder is
    /// allowed to modify.
    pub open spec fn decoded_as(self, next: Self, expected: Self) -> bool {
        &&& next == (ReadFrameView { buffer: next.buffer, ..expected })
        &&& self.keeps_unframable_bytes(next)
    }

    /// `next` is `self` after a decoder consumed a frame of at least one and at most all of the
    /// framable bytes.
    pub open spec fn frame_decoded(self, next: Self) -> bool {
        &&& self.total_consumed < next.total_consumed <= self.index
        &&& self.decoded_as(next, ReadFrameView { total_consumed: next.total_consumed, ..self })
    }

    /// The state is consistent: nothing is consumed that was not read, and nothing is read
    /// beyond the buffer.
    pub open spec fn consistent(self) -> bool {
        0 <= self.total_consumed <= self.index <= self.buffer.len()
    }
}

/// Shifting keeps the unconsumed bytes, now at the start of the buffer, and keeps the state
/// consistent.
pub proof fn lemma_shift_keeps_framable_bytes(s: ReadFrameView)
    requires
        s.consistent(),
    ensures
        s.shifted().consistent(),
        s.shifted().total_consumed == 0,
        s.shifted().buffer.len() == s.buffer.len(),
        s.shifted().framable_bytes() == s.framable_bytes(),
{
    assert(s.shifted().framable_bytes() =~= s.framable_bytes());
}

/// Shifting after some bytes were consumed leaves room to read more.
pub proof fn lemma_shift_frees_room(s: ReadFrameView)
    requires
        s.consistent(),
        s.total_consumed > 0,
    ensures
        s.shifted().index < s.buffer.len(),
{
}

/// A read of `n` bytes appends the bytes read into `buffer[index..index + n]` to the
/// unconsumed bytes.
pub proof fn lemma_read_appends(s: ReadFrameView, n: int)
    requires
        s.consistent(),
        0 < n,
        s.index + n <= s.buffer.len(),
    ensures
        s.after_read(n).consistent(),
        s.after_read(n).framable_bytes() == s.framable_bytes() + s.buffer.subrange(
            s.index,
            s.index + n,
        ),
{
    assert(s.after_read(n).framable_bytes() =~= s.framable_bytes() + s.buffer.subrange(
        s.index,
        s.index + n,
    ));
}

/// Every step of reading keeps the state consistent and the buffer's length.
pub proof fn lemma_step_keeps_consistent<T, I, E>(
    s: ReadFrameView,
    read: Option<Result<usize, I>>,
    r: Result<Option<T>, FramedReadError<I, E>>,
    t: ReadFrameView,
)
    requires
        s.consistent(),
        (read is Some) == s.wants_read(),
        read matches Some(Ok(n)) ==> s.index + n <= s.buffer.len(),
        read_frame_step(s, read, r, t),
    ensures
        t.consistent(),
        t.buffer.len() == s.buffer.len(),
{
}

/// The end of the stream, once reached, stays reached: no step of reading forgets it, so from
/// then on every decoding step asks the decoder for its end-of-stream answer.
pub proof fn lemma_eof_persists<T, I, E>(
    s: ReadFrameView,
    read: Option<Result<usize, I>>,
    r: Result<Option<T>, FramedReadError<I, E>>,
    t: ReadFrameView,
)
    requires
        s.eof,
        read_frame_step(s, read, r, t),
    ensures
        t.eof,
{
}

/// `states`, `reads` and `answers` are a run of `reads.len()` steps of
/// [`FramedRead::read_frame`] or [`FramedRead::read_frame_owned`]: step `i` goes from
/// `states[i]`, given `reads[i]`, answers `answers[i]` and leaves `states[i + 1]`.
pub open spec fn is_read_run<T, I, E>(
    states: Seq<ReadFrameView>,
    reads: Seq<Option<Result<usize, I>>>,
    answers: Seq<Result<Option<T>, FramedReadError<I, E>>>,
) -> bool {
    &&& states.len() == reads.len() + 1
    &&& answers.len() == reads.len()
    &&& forall|i: int|
        0 <= i < reads.len() ==> #[trigger] read_frame_step(states[i], reads[i], answers[i], states[i + 1])
}

/// The end of the stream, once reached, stays reached over a whole run: every later state has
/// it, so every later step that decodes asks the decoder for its end-of-stream answer
/// ([`decoder_step`]).
pub proof fn lemma_eof_persists_run<T, I, E>(
    states: Seq<ReadFrameView>,
    reads: Seq<Option<Result<usize, I>>>,
    answers: Seq<Result<Option<T>, FramedReadError<I, E>>>,
)
    requires
        is_read_run(states, reads, answers),
        states[0].eof,
    ensures
        forall|i: int| 0 <= i <= reads.len() ==> #[trigger] states[i].eof,
    decreases reads.len(),
{
    if reads.len() > 0 {
        let m = reads.len() - 1;
        let (s2, r2, a2) = (states.take(m + 1), reads.take(m), answers.take(m));
        assert forall|i: int| 0 <= i < r2.len() implies #[trigger] read_frame_step(
            s2[i],
            r2[i],
            a2[i],
            s2[i + 1],
        ) by {
            assert(read_frame_step(states[i], reads[i], answers[i], states[i + 1]));
        }
        lemma_eof_persists_run(s2, r2, a2);
        assert(read_frame_step(states[m], reads[m], answers[m], states[m + 1]));
        assert(s2[m] == states[m]);
        assert forall|i: int| 0 <= i <= reads.len() implies #[trigger] states[i].eof by {
            if i <= m {
                assert(s2[i] == states[i]);
            }
        }
    }
}

/// Decoding makes progress: a step that hands out a frame consumes at least one of the
/// unconsumed bytes, so that no frame is decoded twice from the same bytes.
pub proof fn lemma_frame_makes_progress<T, I, E>(
    s: ReadFrameView,
    read: Option<Result<usize, I>>,
    r: Result<Option<T>, FramedReadError<I, E>>,
    t: ReadFrameView,
)
    requires
        read_frame_step(s, read, r, t),
        r matches Ok(Some(_)),
    ensures
        s.is_framable,
        !s.shift,
        t.index == s.index,
        s.total_consumed < t.total_consumed <= s.index,
        t.framable() < s.framable(),
{
}

/// The buffer is reported too small only when it is full of bytes no frame consumed, and
/// nothing is left to decode or shift.
pub proof fn lemma_buffer_too_small_when_full<T, I, E>(
    s: ReadFrameView,
    read: Option<Result<usize, I>>,
    r: Result<Option<T>, FramedReadError<I, E>>,
    t: ReadFrameView,
)
    requires
        s.consistent(),
        (read is Some) == s.wants_read(),
        read_frame_step(s, read, r, t),
        r matches Err(FramedReadError::BufferTooSmall),
    ensures
        s.index == s.buffer.len(),
        !s.is_framable,
        !s.shift,
        t == s,
{
}

/// Internal state for reading a frame.
#[derive(Debug)]
pub struct ReadFrame<const N: usize> {
    /// The current index in the buffer.
    ///
    /// Represents the number of bytes read into the buffer.
    index: usize,
    /// EOF was reached while decoding.
    eof: bool,
    /// The buffer is currently framable.
    is_framable: bool,
    /// The buffer must be shifted before reading more bytes.
    ///
    /// Makes room for more bytes to be read into the buffer, keeping the already read bytes.
    shift: bool,
    /// Shift the buffer as soon as a decoder finds no frame after some bytes were consumed.
    early_shift: bool,
    /// Total number of bytes decoded in a framing round.
    total_consumed: usize,
    /// The underlying buffer to read into.
    buffer: [u8; N],
}

impl<const N: usize> View for ReadFrame<N> {
    type V = ReadFrameView;

    closed spec fn view(&self) -> ReadFrameView {
        ReadFrameView {
            index: self.index as int,
            eof: self.eof,
            is_framable: self.is_framable,
            shift: self.shift,
            early_shift: self.early_shift,
            total_consumed: self.total_consumed as int,
            buffer: self.buffer@,
        }
    }
}

impl<const N: usize> ReadFrame<N> {
    /// The state is consistent and its buffer has `N` bytes.
    pub closed spec fn wf(&self) -> bool {
        &&& self.total_consumed <= self.index <= N
        &&& self.buffer@.len() == N
    }

    /// A well-formed state has a consistent view whose buffer holds `N` bytes.
    pub proof fn lemma_wf_view(&self)
        requires
            self.wf(),
        ensures
            self@.consistent(),
            self@.buffer.len() == N,
    {
    }

    /// Creates a new [`ReadFrame`].
    pub fn new() -> (r: Self)
        ensures
            r.wf(),
            r@.index == 0,
            r@.total_consumed == 0,
            !r@.eof,
            !r@.is_framable,
            !r@.shift,
            !r@.early_shift,
            r@.buffer == Seq::new(N as nat, |i: int| 0u8),
    {
        let r = Self::new_with_buffer([0u8; N]);
        assert(r@.buffer =~= Seq::new(N as nat, |i: int| 0u8));
        r
    }

    /// Creates a new [`ReadFrame`] with the given `buffer`.
    pub fn new_with_buffer(buffer: [u8; N]) -> (r: Self)
        ensures
            r.wf(),
            r@.index == 0,
            r@.total_consumed == 0,
            !r@.eof,
            !r@.is_framable,
            !r@.shift,
            !r@.early_shift,
            r@.buffer == buffer@,
    {
        ReadFrame {
            index: 0,
            eof: false,
            is_framable: false,
            shift: false,
            early_shift: false,
            total_consumed: 0,
            buffer,
        }
    }

    /// Returns whether the buffer is shifted as soon as a decoder finds no frame after some
    /// bytes were consumed, rather than only once the buffer is full.
    pub fn early_shift(&self) -> (r: bool)
        ensures
            r == self@.early_shift,
    {
        self.early_shift
    }

    /// Chooses when the buffer is shifted: as soon as a decoder finds no frame after some bytes
    /// were consumed (`true`), or only once the buffer is full (`false`, the default).
    pub fn set_early_shift(&mut self, early_shift: bool)
        ensures
            final(self)@ == (ReadFrameView { early_shift, ..old(self)@ }),
            old(self).wf() ==> final(self).wf(),
    {
        self.early_shift = early_shift;
    }

    /// Returns the current index in the buffer.
    pub fn index(&self) -> (r: usize)
        ensures
            r == self@.index,
    {
        self.index
    }

    /// Returns whether EOF was reached while decoding.
    pub fn eof(&self) -> (r: bool)
        ensures
            r == self@.eof,
    {
        self.eof
    }

    /// Returns whether the buffer is currently framable.
    pub fn is_framable(&self) -> (r: bool)
        ensures
            r == self@.is_framable,
    {
        self.is_framable
    }

    /// Returns the total number of bytes decoded in a framing round.
    pub fn total_consumed(&self) -> (r: usize)
        ensures
            r == self@.total_consumed,
    {
        self.total_consumed
    }

    /// Returns the number of bytes that can be framed.
    pub fn framable(&self) -> (r: usize)
        requires
            self.wf(),
        ensures
            r == self@.framable(),
    {
        self.index - self.total_consumed
    }

    /// Returns whether the next step needs the outcome of a read into `buffer[index..]`.
    pub fn wants_read(&self) -> (r: bool)
        requires
            self.wf(),
        ensures
            r == self@.wants_read(),
    {
        !self.shift && !self.is_framable && self.index < N
    }

    /// Returns a reference to the underlying buffer.
    pub fn buffer(&self) -> (r: &[u8; N])
        ensures
            r@ == self@.buffer,
    {
        &self.buffer
    }

    /// Returns a mutable reference to the underlying buffer.
    pub fn buffer_mut(&mut self) -> (r: &mut [u8; N])
        ensures
            r@ == old(self)@.buffer,
            final(self)@ == (ReadFrameView { buffer: final(r)@, ..old(self)@ }),
            old(self).wf() ==> final(self).wf(),
    {
        &mut self.buffer
    }

    /// Moves the unconsumed bytes to the start of the buffer.
    fn shift_buffer(&mut self)
        requires
            old(self).wf(),
        ensures
            final(self).wf(),
            final(self)@ == old(self)@.shifted(),
    {
        let ghost orig = self.buffer@;
        let start = self.total_consumed;
        let len = self.index - self.total_consumed;
        let mut i: usize = 0;
        while i < len
            invariant
                self.wf(),
                start == self.total_consumed,
                len == self.index - self.total_consumed,
                self.buffer@.len() == orig.len(),
                self.eof == old(self).eof,
                self.is_framable == old(self).is_framable,
                self.early_shift == old(self).early_shift,
                0 <= i <= len,
                forall|j: int| 0 <= j < i ==> self.buffer@[j] == orig[start + j],
                forall|j: int| i <= j < N ==> self.buffer@[j] == orig[j],
            decreases len - i,
        {
            let b = self.buffer[start + i];
            self.buffer[i] = b;
            i += 1;
        }
        self.index = len;
        self.total_consumed = 0;
        self.shift = false;
        assert(self.buffer@ =~= orig.subrange(start as int, start + len) + orig.subrange(
            len as int,
            N as int,
        ));
    }
}

impl<const N: usize> Default for ReadFrame<N> {
    fn default() -> (r: Self)
        ensures
            r.wf(),
            r@.index == 0,
            r@.total_consumed == 0,
            !r@.eof,
            !r@.is_framable,
            !r@.shift,
    {
        Self::new()
    }
}

/// A framer that reads frames from a reader and decodes them using a [`Decoder`] or
/// [`DecoderOwned`].
#[derive(Debug)]
pub struct FramedRead<const N: usize, D, R> {
    state: ReadFrame<N>,
    decoder: D,
    reader: R,
}

impl<const N: usize, D, R> FramedRead<N, D, R> {
    /// The state of the framer.
    pub closed spec fn state_view(&self) -> ReadFrameView {
        self.state@
    }

    /// The decoder of the framer.
    pub closed spec fn decoder_view(&self) -> D {
        self.decoder
    }

    /// The reader of the framer.
    pub closed spec fn reader_view(&self) -> R {
        self.reader
    }

    /// The framer's parts: its internal state, decoder and reader.
    pub closed spec fn parts(&self) -> (ReadFrame<N>, D, R) {
        (self.state, self.decoder, self.reader)
    }

    /// A framer is its parts: two framers with the same parts are the same framer, so one put
    /// back together with [`FramedRead::from_parts`] from what
    /// [`FramedRead::into_parts`] returned behaves exactly as the original one.
    pub proof fn lemma_parts_determine(a: Self, b: Self)
        requires
            a.parts() == b.parts(),
        ensures
            a == b,
    {
    }

    /// The framer's state is well formed.
    pub closed spec fn wf(&self) -> bool {
        self.state.wf()
    }

    /// A well-formed framer has a consistent state whose buffer holds `N` bytes.
    pub proof fn lemma_wf_view(&self)
        requires
            self.wf(),
        ensures
            self.state_view().consistent(),
            self.state_view().buffer.len() == N,
    {
    }

    /// Creates a new [`FramedRead`] with the given `decoder` and `reader`.
    pub fn new(decoder: D, reader: R) -> (r: Self)
        ensures
            r.wf(),
            r.state_view().index == 0,
            r.state_view().total_consumed == 0,
            !r.state_view().eof,
            !r.state_view().is_framable,
            !r.state_view().shift,
            !r.state_view().early_shift,
            r.state_view().buffer == Seq::new(N as nat, |i: int| 0u8),
            r.decoder_view() == decoder,
            r.reader_view() == reader,
    {
        FramedRead { state: ReadFrame::new(), decoder, reader }
    }

    /// Creates a new [`FramedRead`] with the given `decoder`, `reader`, and `buffer`.
    pub fn new_with_buffer(decoder: D, reader: R, buffer: [u8; N]) -> (r: Self)
        ensures
            r.wf(),
            r.state_view().index == 0,
            r.state_view().total_consumed == 0,
            !r.state_view().eof,
            !r.state_view().is_framable,
            !r.state_view().shift,
            !r.state_view().early_shift,
            r.state_view().buffer == buffer@,
            r.decoder_view() == decoder,
            r.reader_view() == reader,
    {
        FramedRead { state: ReadFrame::new_with_buffer(buffer), decoder, reader }
    }

    /// Returns reference to the decoder.
    pub fn decoder(&self) -> (r: &D)
        ensures
            *r == self.decoder_view(),
    {
        &self.decoder
    }

    /// Returns mutable reference to the decoder.
    pub fn decoder_mut(&mut self) -> (r: &mut D)
        ensures
            *r == old(self).decoder_view(),
            final(self).decoder_view() == *final(r),
            final(self).state_view() == old(self).state_view(),
            final(self).reader_view() == old(self).reader_view(),
            old(self).wf() ==> final(self).wf(),
    {
        &mut self.decoder
    }

    /// Returns reference to the reader.
    pub fn reader(&self) -> (r: &R)
        ensures
            *r == self.reader_view(),
    {
        &self.reader
    }

    /// Returns mutable reference to the reader.
    pub fn reader_mut(&mut self) -> (r: &mut R)
        ensures
            *r == old(self).reader_view(),
            final(self).reader_view() == *final(r),
            final(self).state_view() == old(self).state_view(),
            final(self).decoder_view() == old(self).decoder_view(),
            old(self).wf() ==> final(self).wf(),
    {
        &mut self.reader
    }

    /// Returns reference to the internal state.
    pub fn state(&self) -> (r: &ReadFrame<N>)
        requires
            self.wf(),
        ensures
            r@ == self.state_view(),
            r.wf(),
    {
        &self.state
    }

    /// Returns mutable reference to the internal state.
    pub fn state_mut(&mut self) -> (r: &mut ReadFrame<N>)
        ensures
            r@ == old(self).state_view(),
            old(self).wf() ==> r.wf(),
            final(self).state_view() == final(r)@,
            final(self).wf() == final(r).wf(),
            final(self).decoder_view() == old(self).decoder_view(),
            final(self).reader_view() == old(self).reader_view(),
    {
        &mut self.state
    }

    /// Returns the reader together with the free part of the buffer, `buffer[index..]`, for
    /// the caller to read into before the next step.
    pub fn reader_and_free_buffer(&mut self) -> (r: (&mut R, &mut [u8]))
        requires
            old(self).wf(),
        ensures
            *r.0 == old(self).reader_view(),
            r.1@ == old(self).state_view().buffer.subrange(
                old(self).state_view().index,
                N as int,
            ),
            final(self).wf(),
            final(self).reader_view() == *final(r.0),
            final(self).decoder_view() == old(self).decoder_view(),
            final(self).state_view() == (ReadFrameView {
                buffer: old(self).state_view().buffer.subrange(0, old(self).state_view().index)
                    + final(r.1)@,
                ..old(self).state_view()
            }),
    {
        let index = self.state.index;
        let whole: &mut [u8] = &mut self.state.buffer;
        let (_, free) = whole.split_at_mut(index);
        (&mut self.reader, free)
    }

    /// Consumes the [`FramedRead`] and returns the `decoder`, `reader`, and `internal state`.
    pub fn into_parts(self) -> (r: (ReadFrame<N>, D, R))
        ensures
            r.0@ == self.state_view(),
            self.wf() ==> r.0.wf(),
            r.1 == self.decoder_view(),
            r.2 == self.reader_view(),
            r == self.parts(),
    {
        (self.state, self.decoder, self.reader)
    }

    /// Creates a new [`FramedRead`] from the given `decoder`, `reader`, and `internal state`.
    pub fn from_parts(state: ReadFrame<N>, decoder: D, reader: R) -> (r: Self)
        ensures
            r.state_view() == state@,
            r.wf() == state.wf(),
            r.decoder_view() == decoder,
            r.reader_view() == reader,
            r.parts() == (state, decoder, reader),
    {
        FramedRead { state, decoder, reader }
    }
}

impl<const N: usize, D, R> FramedRead<N, D, R> {
    /// Tries to read a frame.
    ///
    /// `read` is the outcome of reading into the free part of the buffer (see
    /// [`FramedRead::reader_and_free_buffer`]), and must be given exactly when
    /// [`ReadFrame::wants_read`] holds before the call. What the decoder answers is described
    /// by its own specification ([`decoder_step`], [`decoder_step_owned`]).
    ///
    /// Returns:
    /// - `Ok(None)` if the buffer is not framable. Call `read_frame` again to read more bytes.
    /// - `Ok(Some(frame))` if a frame was successfully decoded. Call `read_frame` again to read more bytes.
    /// - `Err(error)` if an error occurred. The caller should stop reading.
    pub fn read_frame<'this, I>(&'this mut self, read: Option<Result<usize, I>>) -> (r: Result<
        Option<D::Item>,
        FramedReadError<I, D::Error>,
    >) where D: Decoder<'this>
        requires
            old(self).wf(),
            (read is Some) == old(self).state_view().wants_read(),
            read matches Some(Ok(n)) ==> old(self).state_view().index + n <= N,
        ensures
            final(self).wf(),
            final(self).reader_view() == old(self).reader_view(),
            read_frame_step(old(self).state_view(), read, r, final(self).state_view()),
            decoder_step(
                old(self).state_view(),
                old(self).decoder_view(),
                r,
                final(self).decoder_view(),
                final(self).state_view(),
            ),
    {
        if self.state.shift {
            self.state.shift_buffer();
            return Ok(None);
        }
        if self.state.is_framable {
            let tc = self.state.total_consumed;
            let idx = self.state.index;
            let eof = self.state.eof;
            let ghost s = self.state@;
            let ghost d = self.decoder;
            let buf: &'this mut [u8; N] = &mut self.state.buffer;
            let whole: &'this mut [u8] = buf;
            let (head, rest) = whole.split_at_mut(tc);
            let (window, tail) = rest.split_at_mut(idx - tc);
            let ghost w0 = window@;
            let ghost w1 = final(window)@;
            let res = if eof {
                self.decoder.decode_eof(window)
            } else {
                self.decoder.decode(window)
            };
            assert(decoder_answered(d, eof, w0, res, self.decoder, w1));
            let ghost after = after_borrow(*buf)@.subrange(tc as int, idx as int);
            assert(w1 =~= after);
            assert(w0 == s.framable_bytes());
            match res {
                Ok(Some((item, size))) => {
                    self.state.total_consumed = tc + size;
                    return Ok(Some(item));
                },
                Ok(None) => {
                    self.state.is_framable = false;
                    if eof {
                        if idx != tc {
                            return Err(FramedReadError::BytesRemainingOnStream);
                        }
                        return Err(FramedReadError::EOF);
                    }
                    self.state.shift = if self.state.early_shift {
                        tc > 0
                    } else {
                        idx >= N
                    };
                    return Ok(None);
                },
                Err(err) => {
                    return Err(FramedReadError::Decode(err));
                },
            }
        }
        match read {
            None => Err(FramedReadError::BufferTooSmall),
            Some(Err(err)) => Err(FramedReadError::IO(err)),
            Some(Ok(n)) => {
                if n == 0 {
                    self.state.eof = true;
                } else {
                    self.state.index = self.state.index + n;
                }
                self.state.is_framable = true;
                Ok(None)
            },
        }
    }
}

impl<const N: usize, D, R> FramedRead<N, D, R> {
    /// One step of reading an owned frame.
    ///
    /// `read` is the outcome of reading into the free part of the buffer (see
    /// [`FramedRead::reader_and_free_buffer`]), and must be given exactly when
    /// [`ReadFrame::wants_read`] holds before the call. What the decoder answers is described
    /// by its own specification ([`decoder_step`], [`decoder_step_owned`]).
    ///
    /// Returns:
    /// - `Ok(Some(frame))` if a frame was successfully decoded.
    /// - `Ok(None)` if no frame is available yet: take the next step.
    /// - `Err(error)` if an error occurred. The caller should stop reading.
    pub fn read_frame_owned<I>(&mut self, read: Option<Result<usize, I>>) -> (r: Result<
        Option<D::Item>,
        FramedReadError<I, D::Error>,
    >) where D: DecoderOwned
        requires
            old(self).wf(),
            (read is Some) == old(self).state_view().wants_read(),
            read matches Some(Ok(n)) ==> old(self).state_view().index + n <= N,
        ensures
            final(self).wf(),
            final(self).reader_view() == old(self).reader_view(),
            read_frame_step(old(self).state_view(), read, r, final(self).state_view()),
            decoder_step_owned(
                old(self).state_view(),
                old(self).decoder_view(),
                r,
                final(self).decoder_view(),
                final(self).state_view(),
            ),
    {
        if self.state.shift {
            self.state.shift_buffer();
            return Ok(None);
        }
        if self.state.is_framable {
            let tc = self.state.total_consumed;
            let idx = self.state.index;
            let eof = self.state.eof;
            let ghost s = self.state@;
            let ghost d = self.decoder;
            let whole: &mut [u8] = &mut self.state.buffer;
            let (head, rest) = whole.split_at_mut(tc);
            let (window, tail) = rest.split_at_mut(idx - tc);
            let ghost w0 = window@;
            let res = if eof {
                self.decoder.decode_eof_owned(window)
            } else {
                self.decoder.decode_owned(window)
            };
            let ghost w1 = window@;
            assert(decoder_answered_owned(d, eof, w0, res, self.decoder, w1));
            let ghost after = self.state.buffer@.subrange(tc as int, idx as int);
            assert(w0 == s.framable_bytes());
            assert(w1 == after);
            assert(decoder_answered_owned(d, eof, s.framable_bytes(), res, self.decoder, after));
            match res {
                Ok(Some((item, size))) => {
                    self.state.total_consumed = tc + size;
                    assert(self.state@.total_consumed - s.total_consumed == size);
                    return Ok(Some(item));
                },
                Ok(None) => {
                    self.state.is_framable = false;
                    if eof {
                        if idx != tc {
                            return Err(FramedReadError::BytesRemainingOnStream);
                        }
                        return Err(FramedReadError::EOF);
                    }
                    self.state.shift = if self.state.early_shift {
                        tc > 0
                    } else {
                        idx >= N
                    };
                    return Ok(None);
                },
                Err(err) => {
                    return Err(FramedReadError::Decode(err));
                },
            }
        }
        match read {
            None => Err(FramedReadError::BufferTooSmall),
            Some(Err(err)) => Err(FramedReadError::IO(err)),
            Some(Ok(n)) => {
                if n == 0 {
                    self.state.eof = true;
                } else {
                    self.state.index = self.state.index + n;
                }
                self.state.is_framable = true;
                Ok(None)
            },
        }
    }
}

/// What a decoder `d` answered when asked for the framable bytes at the end of the stream
/// (`eof`) or before: `res`, leaving it in state `d2` and the bytes as `after`.
pub open spec fn decoder_answered<'buf, D: Decoder<'buf>>(
    d: D,
    eof: bool,
    window: Seq<u8>,
    res: Result<Option<(D::Item, usize)>, D::Error>,
    d2: D,
    after: Seq<u8>,
) -> bool {
    if eof {
        d.decodes_eof(window, res, &d2, after)
    } else {
        d.decodes(window, res, &d2, after)
    }
}

/// The decoder's part in one step of [`FramedRead::read_frame`] from state `s` to state `t`,
/// answering `r`: a step that decodes asks the decoder `d` for the framable bytes of `s`, and
/// the decoder's answer is the item returned (with the bytes it consumed), the decode error
/// returned, or no frame, leaving the decoder as `d2`; any other step leaves the decoder alone.
pub open spec fn decoder_step<'buf, D: Decoder<'buf>, I>(
    s: ReadFrameView,
    d: D,
    r: Result<Option<D::Item>, FramedReadError<I, D::Error>>,
    d2: D,
    t: ReadFrameView,
) -> bool {
    let window = s.framable_bytes();
    let after = t.buffer.subrange(s.total_consumed, s.index);
    if s.shift || !s.is_framable {
        d2 == d
    } else {
        match r {
            Ok(Some(item)) => decoder_answered(
                d,
                s.eof,
                window,
                Ok(Some((item, (t.total_consumed - s.total_consumed) as usize))),
                d2,
                after,
            ),
            Err(FramedReadError::Decode(e)) => decoder_answered(d, s.eof, window, Err(e), d2, after),
            _ => decoder_answered(d, s.eof, window, Ok(None), d2, after),
        }
    }
}

/// What an owned decoder `d` answered when asked for the framable bytes at the end of the
/// stream (`eof`) or before: `res`, leaving it in state `d2` and the bytes as `after`.
pub open spec fn decoder_answered_owned<D: DecoderOwned>(
    d: D,
    eof: bool,
    window: Seq<u8>,
    res: Result<Option<(D::Item, usize)>, D::Error>,
    d2: D,
    after: Seq<u8>,
) -> bool {
    if eof {
        d.decodes_eof_owned(window, res, &d2, after)
    } else {
        d.decodes_owned(window, res, &d2, after)
    }
}

/// The decoder's part in one step of [`FramedRead::read_frame_owned`] from state `s` to state
/// `t`, answering `r`: a step that decodes asks the decoder `d` for the framable bytes of `s`,
/// and the decoder's answer is the item returned (with the bytes it consumed), the decode error
/// returned, or no frame, leaving the decoder as `d2`; any other step leaves the decoder alone.
pub open spec fn decoder_step_owned<D: DecoderOwned, I>(
    s: ReadFrameView,
    d: D,
    r: Result<Option<D::Item>, FramedReadError<I, D::Error>>,
    d2: D,
    t: ReadFrameView,
) -> bool {
    let window = s.framable_bytes();
    let after = t.buffer.subrange(s.total_consumed, s.index);
    if s.shift || !s.is_framable {
        d2 == d
    } else {
        match r {
            Ok(Some(item)) => decoder_answered_owned(
                d,
                s.eof,
                window,
                Ok(Some((item, (t.total_consumed - s.total_consumed) as usize))),
                d2,
                after,
            ),
            Err(FramedReadError::Decode(e)) => decoder_answered_owned(
                d,
                s.eof,
                window,
                Err(e),
                d2,
                after,
            ),
            _ => decoder_answered_owned(d, s.eof, window, Ok(None), d2, after),
        }
    }
}

/// What is left unread of the stream's bytes `unread` after a step that was given the outcome
/// `read` of a read that delivered the next bytes of the stream.
pub open spec fn unread_after<I>(unread: Seq<u8>, read: Option<Result<usize, I>>) -> Seq<u8> {
    match read {
        Some(Ok(n)) => unread.subrange(n as int, unread.len() as int),
        _ => unread,
    }
}

/// How much work a framer in state `s`, with `unread` bytes of its stream still to read, has
/// left at most before it hands out a frame or reports something: each read counts for the
/// bytes it delivers, and a pending decoding, shift or end of the stream for a little more.
pub open spec fn work_left(s: ReadFrameView, unread: int) -> int {
    3 * unread + (if s.is_framable {
        2int
    } else {
        0
    }) + (if s.shift {
        1int
    } else {
        0
    }) + (if s.eof {
        0int
    } else {
        6
    })
}

/// One step of [`FramedRead::read_frame`] or [`FramedRead::read_frame_owned`]: from state `s`,
/// given the outcome `read` of the read the caller performed (if the step wanted one), the
/// step answers `r` and leaves state `t`.
pub open spec fn read_frame_step<T, I, E>(
    s: ReadFrameView,
    read: Option<Result<usize, I>>,
    r: Result<Option<T>, FramedReadError<I, E>>,
    t: ReadFrameView,
) -> bool {
    if s.shift {
        r matches Ok(None) && t == s.shifted()
    } else if s.is_framable {
        if s.eof {
            match r {
                Ok(Some(_)) => s.frame_decoded(t),
                Err(FramedReadError::EOF) => s.framable() == 0 && s.decoded_as(
                    t,
                    ReadFrameView { is_framable: false, ..s },
                ),
                Err(FramedReadError::BytesRemainingOnStream) => s.framable() != 0 && s.decoded_as(
                    t,
                    ReadFrameView { is_framable: false, ..s },
                ),
                Err(FramedReadError::Decode(_)) => s.decoded_as(t, s),
                _ => false,
            }
        } else {
            match r {
                Ok(Some(_)) => s.frame_decoded(t),
                Ok(None) => s.decoded_as(t, s.without_frame()),
                Err(FramedReadError::Decode(_)) => s.decoded_as(t, s),
                _ => false,
            }
        }
    } else {
        match read {
            None => r matches Err(FramedReadError::BufferTooSmall) && t == s,
            Some(Err(e)) => r == Err::<Option<T>, FramedReadError<I, E>>(FramedReadError::IO(e))
                && t == s,
            Some(Ok(n)) => r matches Ok(None) && t == s.after_read(n as int),
        }
    }
}

} // verus!
