//! Compatibility wrapper for futures-io's AsyncRead or AsyncWrite.
//!
//! The wrapper holds the inner reader or writer; the read and write traits are implemented
//! for it where the I/O runs.

use vstd::prelude::*;

verus! {

/// Compatibility wrapper for futures-io's AsyncRead or AsyncWrite.
#[derive(Debug)]
pub struct Compat<R>(R);

impl<R> View for Compat<R> {
    /// The wrapped reader or writer.
    type V = R;

    closed spec fn view(&self) -> R {
        self.0
    }
}

impl<R> Compat<R> {
    /// Creates a new [`Compat`] wrapping `inner`.
    pub fn new(inner: R) -> (r: Self)
        ensures
            r@ == inner,
    {
        Compat(inner)
    }

    /// Returns a reference to the inner reader or writer.
    pub fn inner(&self) -> (r: &R)
        ensures
            *r == self@,
    {
        &self.0
    }

    /// Returns a mutable reference to the inner reader or writer.
    pub fn inner_mut(&mut self) -> (r: &mut R)
        ensures
            *r == old(self)@,
            final(self)@ == *final(r),
    {
        &mut self.0
    }

    /// Returns the inner reader or writer, consuming this [`Compat`].
    pub fn into_inner(self) -> (r: R)
        ensures
            r == self@,
    {
        self.0
    }
}

impl<R> core::borrow::Borrow<R> for Compat<R> {
    fn borrow(&self) -> &R
        returns
            &self@,
    {
        self.inner()
    }
}

impl<R> core::borrow::BorrowMut<R> for Compat<R> {
    fn borrow_mut(&mut self) -> &mut R {
        self.inner_mut()
    }
}

impl<R> AsRef<R> for Compat<R> {
    fn as_ref(&self) -> (r: &R)
        ensures
            *r == self@,
    {
        &self.0
    }
}

impl<R> AsMut<R> for Compat<R> {
    fn as_mut(&mut self) -> (r: &mut R)
        ensures
            *r == old(self)@,
            final(self)@ == *final(r),
    {
        &mut self.0
    }
}

impl<R> From<R> for Compat<R> {
    fn from(inner: R) -> (r: Self)
        ensures
            r@ == inner,
    {
        Self::new(inner)
    }
}

impl<R> vstd::std_specs::convert::FromSpecImpl<R> for Compat<R> {
    open spec fn obeys_from_spec() -> bool {
        true
    }

    closed spec fn from_spec(inner: R) -> Self {
        Compat(inner)
    }
}

} // verus!
