//! Small verified operations on byte slices shared by the codecs and framers.

use vstd::prelude::*;

verus! {

/// `dst` after `src` has been written into it starting at `at`.
pub open spec fn spliced(dst: Seq<u8>, at: int, src: Seq<u8>) -> Seq<u8> {
    dst.subrange(0, at) + src + dst.subrange(at + src.len(), dst.len() as int)
}

/// Copies `src` into `dst` starting at position `at`, leaving every other byte of `dst` as it was.
pub fn copy_into(dst: &mut [u8], at: usize, src: &[u8])
    requires
        at + src@.len() <= old(dst)@.len(),
    ensures
        final(dst)@ == spliced(old(dst)@, at as int, src@),
{
    let ghost orig = dst@;
    let n = dst.len();
    let mut i: usize = 0;
    while i < src.len()
        invariant
            n == orig.len(),
            at + src@.len() <= orig.len(),
            dst@.len() == orig.len(),
            0 <= i <= src@.len(),
            forall|j: int| 0 <= j < at ==> dst@[j] == orig[j],
            forall|j: int| at + src@.len() <= j < orig.len() ==> dst@[j] == orig[j],
            forall|j: int| 0 <= j < i ==> dst@[at + j] == src@[j],
        decreases src@.len() - i,
    {
        dst[at + i] = src[i];
        i += 1;
    }
    assert(dst@ =~= spliced(orig, at as int, src@));
}

/// Writing `src` at the start of `dst` leaves `src` first, followed by the rest of `dst`; so
/// the bytes an encoder reports as written are exactly the encoded bytes.
pub proof fn lemma_spliced_at_start(dst: Seq<u8>, src: Seq<u8>)
    requires
        src.len() <= dst.len(),
    ensures
        spliced(dst, 0, src) == src + dst.subrange(src.len() as int, dst.len() as int),
        spliced(dst, 0, src).subrange(0, src.len() as int) == src,
        spliced(dst, 0, src).len() == dst.len(),
        spliced(dst, 0, src).subrange(src.len() as int, dst.len() as int) == dst.subrange(
            src.len() as int,
            dst.len() as int,
        ),
{
    assert(spliced(dst, 0, src).subrange(src.len() as int, dst.len() as int) =~= dst.subrange(
        src.len() as int,
        dst.len() as int,
    ));
    assert(spliced(dst, 0, src) =~= src + dst.subrange(src.len() as int, dst.len() as int));
    assert(spliced(dst, 0, src).subrange(0, src.len() as int) =~= src);
}

/// Whether `window` occurs in `src` ending just before position `end`.
pub open spec fn occurs_ending_at(src: Seq<u8>, window: Seq<u8>, end: int) -> bool {
    &&& window.len() <= end <= src.len()
    &&& src.subrange(end - window.len(), end) =~= window
}

/// Whether `window` occurs in `src` starting at position `start`.
pub open spec fn occurs_at(src: Seq<u8>, window: Seq<u8>, start: int) -> bool {
    &&& 0 <= start
    &&& start + window.len() <= src.len()
    &&& src.subrange(start, start + window.len()) =~= window
}

/// Tells whether `window` occurs in `src` starting at position `start`.
pub fn bytes_occur_at(src: &[u8], window: &[u8], start: usize) -> (r: bool)
    ensures
        r == occurs_at(src@, window@, start as int),
{
    if start > src.len() || window.len() > src.len() - start {
        return false;
    }
    let n = src.len();
    let mut i: usize = 0;
    while i < window.len()
        invariant
            n == src@.len(),
            start + window@.len() <= src@.len(),
            0 <= i <= window@.len(),
            forall|j: int| 0 <= j < i ==> src@[start + j] == window@[j],
        decreases window@.len() - i,
    {
        if src[start + i] != window[i] {
            assert(src@.subrange(start as int, start + window@.len())[i as int] != window@[i as int]);
            return false;
        }
        i += 1;
    }
    assert(src@.subrange(start as int, start + window@.len()) =~= window@);
    true
}

} // verus!
