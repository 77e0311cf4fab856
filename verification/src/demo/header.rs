//! The packet header: packet length, payload kind and checksum, in big-endian order.

use vstd::prelude::*;

use crate::codec::length::{be_bytes, be_u32, lemma_be_bytes_round_trip};

use super::{payload::Payload, payload_type::PayloadType};

verus! {

/// One bit step of the CRC-32 (IEEE) register: it is shifted right by one bit, and where a one
/// was shifted out, the reflected polynomial `0xEDB88320` is added.
pub open spec fn crc32_bit_step(c: u32) -> u32 {
    if c & 1u32 == 1u32 {
        (c >> 1u32) ^ 0xEDB8_8320u32
    } else {
        c >> 1u32
    }
}

/// The CRC-32 (IEEE) register `c` after `k` bit steps.
pub open spec fn crc32_bit_steps(c: u32, k: nat) -> u32
    decreases k,
{
    if k == 0 {
        c
    } else {
        crc32_bit_steps(crc32_bit_step(c), (k - 1) as nat)
    }
}

/// The CRC-32 (IEEE) register `c` after taking in the bytes of `data`, first to last: each
/// byte is added to the register's low byte, followed by eight bit steps.
pub open spec fn crc32_register(c: u32, data: Seq<u8>) -> u32
    decreases data.len(),
{
    if data.len() == 0 {
        c
    } else {
        crc32_register(
            crc32_bit_steps(c ^ (data[0] as u32), 8),
            data.subrange(1, data.len() as int),
        )
    }
}

/// The CRC-32 (IEEE) checksum of `data`: the register starts with all bits set, takes in the
/// bytes of `data`, and is inverted at the end.
pub open spec fn crc32(data: Seq<u8>) -> u32 {
    !crc32_register(0xFFFF_FFFFu32, data)
}

/// The mathematical value of a [`Header`].
pub struct HeaderView {
    /// Length of the whole packet, header included.
    pub packet_length: u16,
    /// The number of the payload's kind.
    pub raw_payload_type: u16,
    /// Checksum of the packet, computed while this field was zero.
    pub checksum: u32,
}

/// The two big-endian bytes of `n`.
pub open spec fn be_u16_bytes(n: u16) -> Seq<u8> {
    seq![(n / 256) as u8, (n % 256) as u8]
}

/// The eight bytes of a header.
pub open spec fn header_bytes(h: HeaderView) -> Seq<u8> {
    be_u16_bytes(h.packet_length) + be_u16_bytes(h.raw_payload_type) + be_bytes(h.checksum as int)
}

/// The header that the first eight bytes of `src` hold.
pub open spec fn parsed_header(src: Seq<u8>) -> HeaderView
    recommends
        src.len() >= 8,
{
    HeaderView {
        packet_length: (src[0] * 256 + src[1]) as u16,
        raw_payload_type: (src[2] * 256 + src[3]) as u16,
        checksum: be_u32(src[4], src[5], src[6], src[7]) as u32,
    }
}

/// Reading the bytes of a header, followed by anything, gives back that header.
pub proof fn lemma_header_round_trip(h: HeaderView, rest: Seq<u8>)
    ensures
        parsed_header(header_bytes(h) + rest) == h,
        (header_bytes(h) + rest).subrange(0, 8) == header_bytes(h),
{
    let src = header_bytes(h) + rest;
    let pl = h.packet_length;
    let t = h.raw_payload_type;
    assert(((pl / 256) as u8) * 256 + ((pl % 256) as u8) == pl) by (bit_vector);
    assert(((t / 256) as u8) * 256 + ((t % 256) as u8) == t) by (bit_vector);
    lemma_be_bytes_round_trip(h.checksum as int);
    assert(src[0] == be_u16_bytes(pl)[0]);
    assert(src[1] == be_u16_bytes(pl)[1]);
    assert(src[2] == be_u16_bytes(t)[0]);
    assert(src[3] == be_u16_bytes(t)[1]);
    assert(src[4] == be_bytes(h.checksum as int)[0]);
    assert(src[5] == be_bytes(h.checksum as int)[1]);
    assert(src[6] == be_bytes(h.checksum as int)[2]);
    assert(src[7] == be_bytes(h.checksum as int)[3]);
    assert(src.subrange(0, 8) =~= header_bytes(h));
}

/// A packet header.
#[derive(Debug, Clone)]
pub struct Header {
    packet_length: u16,
    raw_payload_type: u16,
    checksum: u32,
}

impl View for Header {
    type V = HeaderView;

    closed spec fn view(&self) -> HeaderView {
        HeaderView {
            packet_length: self.packet_length,
            raw_payload_type: self.raw_payload_type,
            checksum: self.checksum,
        }
    }
}

impl Header {
    /// The size of a header in bytes.
    pub fn size() -> (r: usize)
        ensures
            r == 8,
    {
        8
    }

    /// Computes the CRC-32 (IEEE) checksum of `data` with `crc32fast::hash`, which the crate
    /// documents as the CRC-32 (IEEE) checksum of the slice: the contract states it as
    /// [`crc32`].
    #[verifier::external_body]
    pub fn calculate_checksum(data: &[u8]) -> (r: u32)
        ensures
            r == crc32(data@),
    {
        crc32fast::hash(data)
    }

    /// Returns the length of the whole packet.
    pub fn packet_length(&self) -> (r: u16)
        ensures
            r == self@.packet_length,
    {
        self.packet_length
    }

    /// Returns the length of the whole packet as a `usize`.
    pub fn packet_length_usize(&self) -> (r: usize)
        ensures
            r == self@.packet_length,
    {
        self.packet_length as usize
    }

    /// Sets the length of the whole packet.
    pub fn set_packet_length(&mut self, length: u16)
        ensures
            final(self)@ == (HeaderView { packet_length: length, ..old(self)@ }),
    {
        self.packet_length = length;
    }

    /// Returns the number of the payload's kind.
    pub fn raw_payload_type(&self) -> (r: u16)
        ensures
            r == self@.raw_payload_type,
    {
        self.raw_payload_type
    }

    /// Returns the payload's kind, or `None` if its number is unknown.
    pub fn payload_type(&self) -> (r: Option<PayloadType>)
        ensures
            r == PayloadType::of_code(self@.raw_payload_type),
    {
        PayloadType::from_u16(self.raw_payload_type)
    }

    /// Sets the number of the payload's kind.
    pub fn set_raw_payload_type(&mut self, raw_payload_type: u16)
        ensures
            final(self)@ == (HeaderView { raw_payload_type, ..old(self)@ }),
    {
        self.raw_payload_type = raw_payload_type;
    }

    /// Theoretical payload length. Calculated from [`Self::packet_length`] and [`Self::size`].
    pub fn payload_length(&self) -> (r: usize)
        requires
            self@.packet_length >= 8,
        ensures
            r == self@.packet_length - 8,
    {
        self.packet_length as usize - Self::size()
    }

    /// Returns the checksum.
    pub fn checksum(&self) -> (r: u32)
        ensures
            r == self@.checksum,
    {
        self.checksum
    }

    /// Sets the checksum to zero, as it is while the checksum is computed.
    pub fn clear_checksum(&mut self)
        ensures
            final(self)@ == (HeaderView { checksum: 0, ..old(self)@ }),
    {
        self.checksum = 0;
    }

    /// Sets the checksum.
    pub fn set_checksum(&mut self, checksum: u32)
        ensures
            final(self)@ == (HeaderView { checksum, ..old(self)@ }),
    {
        self.checksum = checksum;
    }

    /// Fills in the header of a packet whose payload `payload` was written in
    /// `payload_length` bytes, with a zero checksum. The packet length is a `u16`: a longer
    /// payload length is taken modulo 2^16.
    pub fn make_ready_for_checksum(&mut self, payload: &Payload<'_>, payload_length: usize)
        requires
            8 + (payload_length as u16) <= u16::MAX,
        ensures
            final(self)@ == (HeaderView {
                packet_length: (8 + (payload_length as u16)) as u16,
                raw_payload_type: payload.content.kind().code(),
                checksum: 0,
            }),
    {
        self.set_packet_length(Self::size() as u16 + payload_length as u16);
        self.set_raw_payload_type(payload.payload_type().as_u16());
        self.clear_checksum();
    }

    /// Reads the header at the start of `src`, if `src` holds one.
    pub(crate) fn read_from_prefix(src: &[u8]) -> (r: Option<Self>)
        ensures
            src@.len() < 8 ==> r is None,
            src@.len() >= 8 ==> (r matches Some(h) && h@ == parsed_header(src@)),
    {
        if src.len() < 8 {
            return None;
        }
        let packet_length: u16 = (src[0] as u16) * 256 + (src[1] as u16);
        let raw_payload_type: u16 = (src[2] as u16) * 256 + (src[3] as u16);
        let checksum: u32 = (src[4] as u32) * 16777216 + (src[5] as u32) * 65536 + (src[6] as u32)
            * 256 + (src[7] as u32);
        Some(Header { packet_length, raw_payload_type, checksum })
    }

    /// Reads the header at the start of `src`, if `src` holds one, and returns it together with
    /// the bytes that follow it. Changes to the returned header reach `src` through
    /// [`Header::write_to_prefix`].
    pub fn maybe_mut_header_from_prefix(src: &mut [u8]) -> (r: Option<(Self, &mut [u8])>)
        ensures
            old(src)@.len() < 8 ==> r is None,
            old(src)@.len() >= 8 ==> r is Some,
            r matches Some((h, rest)) ==> old(src)@.len() >= 8 && h@ == parsed_header(old(src)@)
                && rest@ == old(src)@.subrange(8, old(src)@.len() as int) && final(src)@ == old(
                src,
            )@.subrange(0, 8) + final(rest)@,
            r is None ==> final(src)@ == old(src)@,
    {
        match Self::read_from_prefix(src) {
            None => None,
            Some(header) => {
                let (_, rest) = src.split_at_mut(8);
                Some((header, rest))
            },
        }
    }

    /// Writes the header's eight bytes at the start of `dst`.
    pub fn write_to_prefix(&self, dst: &mut [u8])
        requires
            old(dst)@.len() >= 8,
        ensures
            final(dst)@ == header_bytes(self@) + old(dst)@.subrange(8, old(dst)@.len() as int),
    {
        let pl = self.packet_length;
        let t = self.raw_payload_type;
        let c = self.checksum;
        dst[0] = (pl / 256) as u8;
        dst[1] = (pl % 256) as u8;
        dst[2] = (t / 256) as u8;
        dst[3] = (t % 256) as u8;
        dst[4] = ((c / 16777216) % 256) as u8;
        dst[5] = ((c / 65536) % 256) as u8;
        dst[6] = ((c / 256) % 256) as u8;
        dst[7] = (c % 256) as u8;
        assert(dst@ =~= header_bytes(self@) + old(dst)@.subrange(8, old(dst)@.len() as int));
    }
}

} // verus!
