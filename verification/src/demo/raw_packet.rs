//! Raw packets: a header followed by payload bytes, protected by a checksum.

use vstd::prelude::*;

use crate::buf::spliced;

use super::{
    header::{crc32, header_bytes, lemma_header_round_trip, parsed_header, Header, HeaderView},
    payload::{Payload, PayloadWriteError},
    payload_type::PayloadType,
};

verus! {

/// The mathematical value of a [`RawPacket`].
pub struct RawPacketView {
    /// The packet's header.
    pub header: HeaderView,
    /// The bytes after the header; they may hold more than the payload.
    pub raw_payload: Seq<u8>,
}

/// The packet length written for a payload of `n` bytes: the header's eight bytes plus `n`,
/// as a `u16` (so `n` counts modulo 2^16).
pub open spec fn packet_length_for(n: int) -> u16 {
    (8 + (n as u16)) as u16
}

/// The header written for a payload of kind `payload_type` and `n` bytes, before its checksum
/// is filled in.
pub open spec fn unchecked_header(payload_type: PayloadType, n: int) -> HeaderView {
    HeaderView {
        packet_length: packet_length_for(n),
        raw_payload_type: payload_type.code(),
        checksum: 0,
    }
}

/// The bytes [`RawPacket::write_to`] writes for `payload`: the header, whose checksum covers
/// the first `packet_length` bytes of the packet written with a zero checksum, then the
/// payload.
pub open spec fn raw_packet_bytes(payload_type: PayloadType, payload: Seq<u8>) -> Seq<u8> {
    let h = unchecked_header(payload_type, payload.len() as int);
    let checksum = crc32((header_bytes(h) + payload).subrange(0, h.packet_length as int));
    header_bytes(HeaderView { checksum, ..h }) + payload
}

/// `src` with the four checksum bytes of its header set to zero.
pub open spec fn cleared_checksum(src: Seq<u8>) -> Seq<u8> {
    src.subrange(0, 4) + seq![0u8, 0u8, 0u8, 0u8] + src.subrange(8, src.len() as int)
}

/// `src` holds a header and the whole packet it announces.
pub open spec fn complete_packet(src: Seq<u8>) -> bool {
    src.len() >= 8 && src.len() >= parsed_header(src).packet_length
}

/// The checksum in the header of `src` is the checksum of its packet with a zero checksum.
pub open spec fn checksum_matches(src: Seq<u8>) -> bool {
    parsed_header(src).checksum == crc32(
        cleared_checksum(src).subrange(0, parsed_header(src).packet_length as int),
    )
}

/// The raw packet read from `src` once its checksum was cleared.
pub open spec fn decoded_raw_packet(src: Seq<u8>) -> RawPacketView {
    RawPacketView {
        header: HeaderView { checksum: 0, ..parsed_header(src) },
        raw_payload: src.subrange(8, src.len() as int),
    }
}

/// A raw packet: a header and the bytes that follow it.
#[derive(Debug)]
pub struct RawPacket<'a> {
    header: Header,
    /// Might contain less or more bytes than the actual payload.
    raw_payload: &'a [u8],
}

impl<'a> View for RawPacket<'a> {
    type V = RawPacketView;

    closed spec fn view(&self) -> RawPacketView {
        RawPacketView { header: self.header@, raw_payload: self.raw_payload@ }
    }
}

/// Error returned by [`RawPacket::write_to`].
#[derive(Debug)]
pub enum RawPacketWriteError {
    /// Failed to write header.
    HeaderWrite,
    /// Failed to write payload.
    PayloadWrite,
}

/// Error returned by [`RawPacket::maybe_raw_packet_from_prefix`].
#[derive(Debug)]
pub enum RawPacketFromSliceError {
    /// Invalid checksum.
    Checksum,
}

impl<'a> RawPacket<'a> {
    /// The header announces a packet length of at least the header and the payload bytes hold
    /// the payload it announces.
    pub open spec fn wf(&self) -> bool {
        &&& self@.header.packet_length >= 8
        &&& self@.header.packet_length - 8 <= self@.raw_payload.len()
    }

    /// Returns the packet's header.
    pub fn header(&self) -> (r: &Header)
        ensures
            r@ == self@.header,
    {
        &self.header
    }

    /// Returns the bytes after the header.
    pub fn raw_payload(&self) -> (r: &'a [u8])
        ensures
            r@ == self@.raw_payload,
    {
        self.raw_payload
    }

    /// Returns the payload bytes the header announces.
    pub fn payload_bytes(&self) -> (r: &'a [u8])
        requires
            self.wf(),
        ensures
            r@ == self@.raw_payload.subrange(0, self@.header.packet_length - 8),
    {
        let n = self.header.payload_length();
        &self.raw_payload[0..n]
    }

    /// Theoretical payload length as per the header.
    pub fn payload_length(&self) -> (r: usize)
        requires
            self@.header.packet_length >= 8,
        ensures
            r == self@.header.packet_length - 8,
    {
        self.header.packet_length() as usize - Header::size()
    }

    /// Completes the packet for `payload` at the start of `dst`, once its JSON was serialized
    /// in place after the header: `serialized` is the number of bytes the serializer wrote at
    /// `dst[8..]`, or its error. Returns the packet length.
    ///
    /// The header comes first, then the payload bytes; the header's checksum covers the first
    /// packet length bytes of the packet written with a zero checksum. When `dst` cannot hold
    /// a header, or the serializer failed, nothing more is written: what the serializer wrote
    /// stays as it is.
    pub fn write_to(
        payload: &Payload<'_>,
        serialized: Result<usize, PayloadWriteError>,
        dst: &mut [u8],
    ) -> (r: Result<usize, RawPacketWriteError>)
        requires
            old(dst)@.len() >= 8 ==> (serialized matches Ok(n) ==> 8 + n <= old(dst)@.len() && 8
                + (n as u16) <= u16::MAX),
        ensures
            if old(dst)@.len() < 8 {
                r matches Err(RawPacketWriteError::HeaderWrite) && final(dst)@ == old(dst)@
            } else {
                match serialized {
                    Err(_) => r matches Err(RawPacketWriteError::PayloadWrite) && final(dst)@
                        == old(dst)@,
                    Ok(n) => r matches Ok(m) && m == packet_length_for(n as int) && final(dst)@
                        == spliced(
                        old(dst)@,
                        0,
                        raw_packet_bytes(
                            payload.content.kind(),
                            old(dst)@.subrange(8, 8 + n as int),
                        ),
                    ),
                }
            },
    {
        let ghost orig = dst@;
        if dst.len() < Header::size() {
            return Err(RawPacketWriteError::HeaderWrite);
        }
        let mut header = match Header::read_from_prefix(dst) {
            None => return Err(RawPacketWriteError::HeaderWrite),
            Some(header) => header,
        };
        let n = match serialized {
            Err(_) => return Err(RawPacketWriteError::PayloadWrite),
            Ok(n) => n,
        };
        let ghost bytes = orig.subrange(8, 8 + n as int);
        header.make_ready_for_checksum(payload, n);
        let ghost h0 = header@;
        header.write_to_prefix(dst);
        let ghost unchecked = dst@;
        assert(unchecked =~= header_bytes(h0) + bytes + orig.subrange(8 + n, orig.len() as int));
        let packet_length = header.packet_length_usize();
        assert((n as u16) as int <= n) by (bit_vector);
        let checksum = Header::calculate_checksum(&dst[0..packet_length]);
        assert(unchecked.subrange(0, packet_length as int) =~= (header_bytes(h0)
            + bytes).subrange(0, packet_length as int));
        header.set_checksum(checksum);
        header.write_to_prefix(dst);
        assert(dst@ =~= spliced(orig, 0, raw_packet_bytes(payload.content.kind(), bytes)));
        Ok(packet_length)
    }

    /// Checks the checksum read from the header of `src` against the one computed for the
    /// packet, and reads the raw packet from `src` when they match.
    pub fn check_checksum(src: &'a [u8], received: u32, calculated: u32) -> (r: Result<
        Self,
        RawPacketFromSliceError,
    >)
        requires
            complete_packet(src@),
            parsed_header(src@).packet_length >= 8,
        ensures
            received != calculated ==> r matches Err(RawPacketFromSliceError::Checksum),
            received == calculated ==> (r matches Ok(p) && p@ == (RawPacketView {
                header: parsed_header(src@),
                raw_payload: src@.subrange(8, src@.len() as int),
            }) && p.wf()),
    {
        if received != calculated {
            return Err(RawPacketFromSliceError::Checksum);
        }
        match Header::read_from_prefix(src) {
            Some(header) => Ok(RawPacket { header, raw_payload: &src[8..src.len()] }),
            None => Err(RawPacketFromSliceError::Checksum),
        }
    }

    /// Reads the raw packet at the start of `src`.
    ///
    /// Returns `Ok(None)` while `src` does not hold the whole packet its header announces.
    /// Otherwise the header's checksum bytes in `src` are set to zero, as they were when the
    /// checksum was computed, and the packet is returned if the checksums match.
    pub fn maybe_raw_packet_from_prefix(src: &'a mut [u8]) -> (r: Result<
        Option<Self>,
        RawPacketFromSliceError,
    >)
        requires
            old(src)@.len() >= 8 ==> parsed_header(old(src)@).packet_length >= 8,
        ensures
            if !complete_packet(old(src)@) {
                r matches Ok(None) && final(src)@ == old(src)@
            } else {
                &&& final(src)@ == cleared_checksum(old(src)@)
                &&& checksum_matches(old(src)@) ==> (r matches Ok(Some(p)) && p@
                    == decoded_raw_packet(old(src)@) && p.wf())
                &&& !checksum_matches(old(src)@) ==> r matches Err(
                    RawPacketFromSliceError::Checksum,
                )
            },
    {
        let ghost orig = src@;
        let mut header = match Header::read_from_prefix(src) {
            None => return Ok(None),
            Some(header) => header,
        };
        let packet_length = header.packet_length_usize();
        let payload_length = header.payload_length();
        if src.len() - Header::size() < payload_length {
            return Ok(None);
        }
        let received = header.checksum();
        header.clear_checksum();
        header.write_to_prefix(src);
        proof {
            lemma_clearing_rewrites_prefix(orig);
        }
        let calculated = Header::calculate_checksum(&src[0..packet_length]);
        let bytes: &'a [u8] = src;
        proof {
            lemma_cleared_header(orig);
        }
        match Self::check_checksum(bytes, received, calculated) {
            Ok(packet) => Ok(Some(packet)),
            Err(err) => Err(err),
        }
    }
}

/// Writing the header read from `src`, with a zero checksum, over the start of `src` clears
/// the checksum bytes of `src`.
proof fn lemma_clearing_rewrites_prefix(src: Seq<u8>)
    requires
        src.len() >= 8,
    ensures
        header_bytes(HeaderView { checksum: 0, ..parsed_header(src) }) + src.subrange(
            8,
            src.len() as int,
        ) == cleared_checksum(src),
{
    lemma_header_bytes_of_parsed(src);
    let h = header_bytes(HeaderView { checksum: 0, ..parsed_header(src) });
    assert(h[0] == src[0] && h[1] == src[1] && h[2] == src[2] && h[3] == src[3]);
    assert(h + src.subrange(8, src.len() as int) =~= cleared_checksum(src));
}

/// The first four bytes of a header read from `src` are those of `src`.
proof fn lemma_header_bytes_of_parsed(src: Seq<u8>)
    requires
        src.len() >= 8,
    ensures
        header_bytes(HeaderView { checksum: 0, ..parsed_header(src) }).subrange(0, 4) =~= src.subrange(
            0,
            4,
        ),
{
    let a = src[0];
    let b = src[1];
    let c = src[2];
    let d = src[3];
    assert((((a * 256 + b) as u16) / 256) as u8 == a) by (bit_vector);
    assert((((a * 256 + b) as u16) % 256) as u8 == b) by (bit_vector);
    assert((((c * 256 + d) as u16) / 256) as u8 == c) by (bit_vector);
    assert((((c * 256 + d) as u16) % 256) as u8 == d) by (bit_vector);
}

/// Clearing the checksum of a header leaves a header that reads as the same one with a zero
/// checksum.
proof fn lemma_cleared_header(src: Seq<u8>)
    requires
        src.len() >= 8,
    ensures
        parsed_header(cleared_checksum(src)) == (HeaderView { checksum: 0, ..parsed_header(src) }),
        cleared_checksum(src).subrange(8, src.len() as int) == src.subrange(8, src.len() as int),
{
    let s = cleared_checksum(src);
    assert(s[0] == src[0] && s[1] == src[1] && s[2] == src[2] && s[3] == src[3]);
    assert(s[4] == 0 && s[5] == 0 && s[6] == 0 && s[7] == 0);
    assert(s.subrange(8, src.len() as int) =~= src.subrange(8, src.len() as int));
}


/// A payload of at most 65527 bytes, written as a raw packet and followed by any bytes, is
/// read back: the packet is complete, its checksum matches, its header announces the
/// payload's kind and the packet's length, and the payload bytes it announces are the payload.
pub proof fn lemma_raw_packet_round_trip(payload_type: PayloadType, payload: Seq<u8>, rest: Seq<u8>)
    requires
        8 + payload.len() <= u16::MAX,
    ensures
        unchecked_header(payload_type, payload.len() as int).packet_length == 8 + payload.len(),
        complete_packet(raw_packet_bytes(payload_type, payload) + rest),
        checksum_matches(raw_packet_bytes(payload_type, payload) + rest),
        decoded_raw_packet(raw_packet_bytes(payload_type, payload) + rest).header
            == unchecked_header(payload_type, payload.len() as int),
        decoded_raw_packet(raw_packet_bytes(payload_type, payload) + rest).raw_payload.subrange(
            0,
            payload.len() as int,
        ) == payload,
{
    let n = payload.len() as int;
    let h0 = unchecked_header(payload_type, n);
    let pl = h0.packet_length as int;
    assert(pl == 8 + n);
    let checksum = crc32((header_bytes(h0) + payload).subrange(0, pl));
    let h = HeaderView { checksum, ..h0 };
    let src = raw_packet_bytes(payload_type, payload) + rest;
    assert(src =~= header_bytes(h) + (payload + rest));
    lemma_header_round_trip(h, payload + rest);
    lemma_clearing_rewrites_prefix(src);
    assert(src.subrange(8, src.len() as int) =~= payload + rest);
    assert(cleared_checksum(src) =~= header_bytes(h0) + (payload + rest));
    assert(cleared_checksum(src).subrange(0, pl) =~= (header_bytes(h0) + payload).subrange(0, pl));
    assert((payload + rest).subrange(0, n) =~= payload);
}

} // verus!
