//! The packet codec's state.

use vstd::prelude::*;

verus! {

/// A codec for [`Packet`](super::packet::Packet)s. It holds no state: every packet is
/// framed on its own.
#[derive(Debug)]
pub struct PacketCodec {}

impl PacketCodec {
    /// Creates a new [`PacketCodec`].
    pub fn new() -> (r: Self)
        ensures
            r == (PacketCodec {  }),
    {
        Self {  }
    }
}

impl Default for PacketCodec {
    fn default() -> (r: Self)
        ensures
            r == (PacketCodec {  }),
    {
        Self::new()
    }
}

} // verus!
