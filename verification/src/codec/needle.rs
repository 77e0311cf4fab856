//! Needle codec for the size-aware framer.

use vstd::prelude::*;

use crate::buf::{bytes_occur_at, occurs_at};
use crate::decode::{
    decoder::Decoder,
    frame::Frame,
    maybe_decoded::{FrameSize, MaybeDecoded},
};

verus! {

/// Position of the first occurrence of `needle` in `src` that starts at or after `from`
/// (and before the end of `src`).
pub open spec fn first_needle_from(src: Seq<u8>, needle: Seq<u8>, from: int) -> Option<int>
    decreases src.len() - from,
{
    if from < 0 || from >= src.len() {
        None
    } else if occurs_at(src, needle, from) {
        Some(from)
    } else {
        first_needle_from(src, needle, from + 1)
    }
}

/// A found needle starts inside the buffer, at or after where the scan started, and fits in
/// the buffer.
pub proof fn lemma_first_needle_bounds(src: Seq<u8>, needle: Seq<u8>, from: int)
    ensures
        first_needle_from(src, needle, from) matches Some(p) ==> from <= p < src.len()
            && occurs_at(src, needle, p),
    decreases src.len() - from,
{
    if 0 <= from < src.len() && !occurs_at(src, needle, from) {
        lemma_first_needle_bounds(src, needle, from + 1);
    }
}

/// A codec that searches for a needle in a haystack.
///
/// Decodes the haystack into a sequence of bytes that comes before the needle, discarding the
/// needle. Decoded sequences hold at most `N` bytes.
#[derive(Debug, Clone, Copy)]
pub struct NeedleCodec<'a, const N: usize> {
    /// The needle to search for.
    needle: &'a [u8],
    /// The number of bytes of the slice that have been seen so far.
    seen: usize,
}

impl<'a, const N: usize> NeedleCodec<'a, N> {
    /// The needle is never empty: an empty needle would be found before the first byte and end
    /// a frame of no bytes, over and over.
    #[verifier::type_invariant]
    closed spec fn needle_not_empty(self) -> bool {
        self.needle@.len() > 0
    }
}

impl<'a, const N: usize> View for NeedleCodec<'a, N> {
    /// The needle and the number of bytes of the buffer already scanned.
    type V = (Seq<u8>, int);

    closed spec fn view(&self) -> (Seq<u8>, int) {
        (self.needle@, self.seen as int)
    }
}

/// An error that can occur while decoding with a [`NeedleCodec`].
#[derive(Debug)]
pub enum NeedleDecoderError {
    /// The decoded sequence of bytes is too large to fit into the return buffer.
    OutputBufferTooSmall,
}

impl<'a, const N: usize> NeedleCodec<'a, N> {
    /// Creates a new [`NeedleCodec`] with the given needle, which must not be empty.
    pub fn new(needle: &'a [u8]) -> (r: Self)
        requires
            needle@.len() > 0,
        ensures
            r@ == (needle@, 0int),
    {
        Self { needle, seen: 0 }
    }

    /// Returns the needle.
    pub fn needle(&self) -> (r: &'a [u8])
        ensures
            r@ == self@.0,
    {
        self.needle
    }

    /// Returns the number of bytes of the slice that have been seen so far.
    pub fn seen(&self) -> (r: usize)
        ensures
            r == self@.1,
    {
        self.seen
    }
}

/// Scanning goes on from one position to the next past a position where no needle starts.
proof fn lemma_first_needle_step(src: Seq<u8>, needle: Seq<u8>, from: int)
    requires
        0 <= from < src.len(),
        !occurs_at(src, needle, from),
    ensures
        first_needle_from(src, needle, from) == first_needle_from(src, needle, from + 1),
{
}

impl<'a, const N: usize> Decoder for NeedleCodec<'a, N> {
    type Item = Vec<u8>;

    type Error = NeedleDecoderError;

    open spec fn decodes(
        &self,
        src: Seq<u8>,
        r: Result<MaybeDecoded<Vec<u8>>, NeedleDecoderError>,
        next: &Self,
        after: Seq<u8>,
    ) -> bool {
        &&& after == src
        &&& next@.0 == self@.0
        &&& match first_needle_from(src, self@.0, self@.1) {
            Some(p) => if p <= N {
                r matches Ok(MaybeDecoded::Frame(f)) && f.decoded()@ == src.subrange(0, p)
                    && f.consumed() == p + self@.0.len() && next@.1 == 0
            } else {
                r matches Err(NeedleDecoderError::OutputBufferTooSmall) && next@.1 == p
            },
            None => r matches Ok(MaybeDecoded::Incomplete(FrameSize::Unknown)) && next@.1
                == if self@.1 < src.len() {
                src.len() as int
            } else {
                self@.1
            },
        }
    }

    fn decode(&mut self, buf: &mut [u8]) -> Result<MaybeDecoded<Self::Item>, Self::Error> {
        proof {
            use_type_invariant(&*self);
        }
        let ghost orig = buf@;
        let src: &[u8] = buf;
        let len = src.len();
        assert(src@ == orig);
        while self.seen < len
            invariant
                len == src@.len(),
                src@ == orig,
                orig == old(buf)@,
                self.needle == old(self).needle,
                self.needle@.len() > 0,
                old(self)@.1 <= self@.1,
                old(self)@.1 < len ==> self@.1 <= len,
                old(self)@.1 >= len ==> self@.1 == old(self)@.1,
                first_needle_from(src@, self.needle@, old(self)@.1) == first_needle_from(
                    src@,
                    self.needle@,
                    self@.1,
                ),
            decreases len - self.seen,
        {
            let p = self.seen;
            if bytes_occur_at(src, self.needle, p) {
                proof {
                    lemma_first_needle_bounds(src@, self.needle@, p as int);
                }
                if p > N {
                    return Err(NeedleDecoderError::OutputBufferTooSmall);
                }
                let item = vstd::slice::slice_to_vec(&src[0..p]);
                let frame = Frame::new(p + self.needle.len(), item);
                self.seen = 0;
                return Ok(MaybeDecoded::Frame(frame));
            }
            proof {
                lemma_first_needle_step(src@, self.needle@, p as int);
            }
            self.seen += 1;
        }
        Ok(MaybeDecoded::Incomplete(FrameSize::Unknown))
    }

    fn decode_eof(&mut self, buf: &mut [u8]) -> Result<MaybeDecoded<Self::Item>, Self::Error> {
        self.decode(buf)
    }
}

/// Scanning from `from` finds the needle at `at` when it starts there and nowhere in between.
proof fn lemma_first_needle_at(src: Seq<u8>, needle: Seq<u8>, from: int, at: int)
    requires
        0 <= from <= at < src.len(),
        occurs_at(src, needle, at),
        forall|q: int| from <= q < at ==> !#[trigger] occurs_at(src, needle, q),
    ensures
        first_needle_from(src, needle, from) == Some(at),
    decreases at - from,
{
    if from < at {
        lemma_first_needle_at(src, needle, from + 1, at);
    }
}

/// The needle found by a scan from `from` starts nowhere between `from` and where it was found.
proof fn lemma_first_needle_is_first(src: Seq<u8>, needle: Seq<u8>, from: int)
    ensures
        first_needle_from(src, needle, from) matches Some(p) ==> forall|q: int|
            from <= q < p ==> !#[trigger] occurs_at(src, needle, q),
    decreases src.len() - from,
{
    if 0 <= from < src.len() && !occurs_at(src, needle, from) {
        lemma_first_needle_is_first(src, needle, from + 1);
    }
}

/// An item of at most `N` bytes, followed by the needle and any bytes, decodes back to the
/// item, consuming the item and the needle, whatever part of the item was already scanned,
/// provided the needle starts nowhere earlier in those bytes; the codec then starts its next
/// scan afresh.
pub proof fn lemma_needle_item_round_trip<'a, const N: usize>(
    c: NeedleCodec<'a, N>,
    item: Seq<u8>,
    rest: Seq<u8>,
    r: Result<MaybeDecoded<Vec<u8>>, NeedleDecoderError>,
    next: NeedleCodec<'a, N>,
    after: Seq<u8>,
)
    requires
        c@.0.len() > 0,
        0 <= c@.1 <= item.len(),
        item.len() <= N,
        forall|p: int| 0 <= p < item.len() ==> !#[trigger] occurs_at(item + c@.0, c@.0, p),
        c.decodes(item + c@.0 + rest, r, &next, after),
    ensures
        r matches Ok(MaybeDecoded::Frame(f)) && f.decoded()@ == item && f.consumed() == item.len()
            + c@.0.len(),
        next@.1 == 0,
{
    let needle = c@.0;
    let src = item + needle + rest;
    let at = item.len() as int;
    assert(src.subrange(at, at + needle.len()) =~= needle);
    assert forall|q: int| c@.1 <= q < at implies !#[trigger] occurs_at(src, needle, q) by {
        assert(src.subrange(q, q + needle.len()) =~= (item + needle).subrange(q, q + needle.len()));
        assert(!occurs_at(item + needle, needle, q));
    }
    lemma_first_needle_at(src, needle, c@.1, at);
    assert(src.subrange(0, at) =~= item);
}

/// A [`NeedleCodec`] reports an item too large for its output only when the needle it found
/// starts after more than `N` bytes: the needle starts at some position beyond `N`, and nowhere
/// from where the scan resumed up to position `N`. It leaves the bytes as they were.
pub proof fn lemma_needle_refuses_only_large<'a, const N: usize>(
    c: NeedleCodec<'a, N>,
    src: Seq<u8>,
    r: Result<MaybeDecoded<Vec<u8>>, NeedleDecoderError>,
    next: NeedleCodec<'a, N>,
    after: Seq<u8>,
)
    requires
        c.decodes(src, r, &next, after),
    ensures
        after == src,
        r is Err ==> (exists|p: int| N < p && #[trigger] occurs_at(src, c@.0, p)) && forall|q: int|
            c@.1 <= q <= N ==> !#[trigger] occurs_at(src, c@.0, q),
        r matches Ok(MaybeDecoded::Frame(f)) ==> f.consumed() >= c@.0.len() && f.decoded()@.len()
            <= N && f.decoded()@ == src.subrange(0, f.consumed() - c@.0.len()) && occurs_at(
            src,
            c@.0,
            f.consumed() - c@.0.len(),
        ),
{
    lemma_first_needle_bounds(src, c@.0, c@.1);
    lemma_first_needle_is_first(src, c@.0, c@.1);
}

} // verus!
