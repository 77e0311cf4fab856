use std::borrow::{Borrow, BorrowMut};

use cody_c::embedded_io_async::Compat as EmbeddedCompat;
use cody_c::futures_io::Compat as FuturesCompat;
use cody_c::tokio::Compat as TokioCompat;

#[test]
fn tokio_compat_wraps_inner() {
    let mut compat = TokioCompat::new(1u8);
    assert_eq!(*compat.inner(), 1);
    *compat.inner_mut() = 2;
    assert_eq!(*compat.as_ref(), 2);
    *compat.as_mut() = 3;
    let inner: &u8 = compat.borrow();
    assert_eq!(*inner, 3);
    let inner: &mut u8 = compat.borrow_mut();
    *inner = 4;
    assert_eq!(compat.into_inner(), 4);
    assert_eq!(TokioCompat::from(5u8).into_inner(), 5);
}

#[test]
fn futures_compat_wraps_inner() {
    let mut compat = FuturesCompat::from(vec![1u8]);
    compat.inner_mut().push(2);
    assert_eq!(compat.inner(), &vec![1, 2]);
    assert_eq!(compat.into_inner(), vec![1, 2]);
}

#[test]
fn embedded_compat_wraps_inner() {
    let mut compat = EmbeddedCompat::new(String::from("a"));
    compat.inner_mut().push('b');
    assert_eq!(compat.as_ref(), "ab");
    assert_eq!(FuturesCompat::new(0u8).into_inner(), 0);
    assert_eq!(compat.into_inner(), "ab");
}
