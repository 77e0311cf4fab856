//! Packets: a payload framed as a raw packet.
//!
//! Writing a packet takes the JSON bytes of its payload; reading one gives the payload's kind
//! and JSON bytes, which are parsed into a [`Payload`] and handed to [`Packet::from_payload`].

use vstd::prelude::*;

use super::{
    header::parsed_header,
    payload::{Payload, PayloadFromSliceError, PayloadWriteError},
    payload_type::{lemma_payload_type_code_round_trip, PayloadType},
    raw_packet::{
        checksum_matches, cleared_checksum, complete_packet, decoded_raw_packet,
        lemma_raw_packet_round_trip, packet_length_for, raw_packet_bytes, RawPacket,
        RawPacketFromSliceError, RawPacketWriteError,
    },
};
use crate::buf::spliced;

verus! {

/// Error returned by [`Packet::write_to`].
#[derive(Debug)]
pub enum PacketWriteError {
    /// Failed to write raw packet.
    RawPacket(RawPacketWriteError),
}

impl From<RawPacketWriteError> for PacketWriteError {
    fn from(err: RawPacketWriteError) -> (r: Self)
        ensures
            r == PacketWriteError::RawPacket(err),
    {
        PacketWriteError::RawPacket(err)
    }
}

impl vstd::std_specs::convert::FromSpecImpl<RawPacketWriteError> for PacketWriteError {
    open spec fn obeys_from_spec() -> bool {
        true
    }

    open spec fn from_spec(err: RawPacketWriteError) -> Self {
        PacketWriteError::RawPacket(err)
    }
}

/// Error returned while reading a packet.
#[derive(Debug)]
pub enum PacketFromSliceError {
    /// Invalid raw packet.
    RawPacket(RawPacketFromSliceError),
    /// Unknown payload type.
    UnknownPayloadType,
    /// Invalid payload.
    Payload(PayloadFromSliceError),
}

impl From<RawPacketFromSliceError> for PacketFromSliceError {
    fn from(err: RawPacketFromSliceError) -> (r: Self)
        ensures
            r == PacketFromSliceError::RawPacket(err),
    {
        PacketFromSliceError::RawPacket(err)
    }
}

impl vstd::std_specs::convert::FromSpecImpl<RawPacketFromSliceError> for PacketFromSliceError {
    open spec fn obeys_from_spec() -> bool {
        true
    }

    open spec fn from_spec(err: RawPacketFromSliceError) -> Self {
        PacketFromSliceError::RawPacket(err)
    }
}

impl From<PayloadFromSliceError> for PacketFromSliceError {
    fn from(err: PayloadFromSliceError) -> (r: Self)
        ensures
            r == PacketFromSliceError::Payload(err),
    {
        PacketFromSliceError::Payload(err)
    }
}

impl vstd::std_specs::convert::FromSpecImpl<PayloadFromSliceError> for PacketFromSliceError {
    open spec fn obeys_from_spec() -> bool {
        true
    }

    open spec fn from_spec(err: PayloadFromSliceError) -> Self {
        PacketFromSliceError::Payload(err)
    }
}

/// A packet.
#[derive(Debug, PartialEq)]
pub struct Packet<'a> {
    payload: Payload<'a>,
}

impl<'a> View for Packet<'a> {
    /// The packet's payload.
    type V = Payload<'a>;

    closed spec fn view(&self) -> Payload<'a> {
        self.payload
    }
}

impl<'a> Packet<'a> {
    /// Creates a new [`Packet`] carrying `payload`.
    pub fn new(payload: Payload<'a>) -> (r: Self)
        ensures
            r@ == payload,
    {
        Self { payload }
    }

    /// Returns the packet's payload.
    pub fn payload(&self) -> (r: &Payload<'a>)
        ensures
            *r == self@,
    {
        &self.payload
    }

    /// Completes the packet at the start of `dst`, once its payload's JSON was serialized in
    /// place after the header: `serialized` is the number of bytes the serializer wrote at
    /// `dst[8..]`, or its error. Returns the packet length; see [`RawPacket::write_to`].
    pub fn write_to(&self, serialized: Result<usize, PayloadWriteError>, dst: &mut [u8]) -> (r:
        Result<usize, PacketWriteError>)
        requires
            old(dst)@.len() >= 8 ==> (serialized matches Ok(n) ==> 8 + n <= old(dst)@.len() && 8
                + (n as u16) <= u16::MAX),
        ensures
            if old(dst)@.len() < 8 {
                r matches Err(PacketWriteError::RawPacket(RawPacketWriteError::HeaderWrite))
                    && final(dst)@ == old(dst)@
            } else {
                match serialized {
                    Err(_) => r matches Err(
                        PacketWriteError::RawPacket(RawPacketWriteError::PayloadWrite),
                    ) && final(dst)@ == old(dst)@,
                    Ok(n) => r matches Ok(m) && m == packet_length_for(n as int) && final(dst)@
                        == spliced(
                        old(dst)@,
                        0,
                        raw_packet_bytes(self@.content.kind(), old(dst)@.subrange(8, 8 + n as int)),
                    ),
                }
            },
    {
        match RawPacket::write_to(&self.payload, serialized, dst) {
            Ok(n) => Ok(n),
            Err(err) => Err(PacketWriteError::RawPacket(err)),
        }
    }

    /// Reads the raw packet at the start of `src` and returns the kind of its payload and the
    /// payload's JSON bytes.
    ///
    /// Returns `Ok(None)` while `src` does not hold the whole packet its header announces.
    /// Otherwise the header's checksum bytes in `src` are set to zero, as they were when the
    /// checksum was computed.
    pub fn maybe_payload_bytes_from_prefix(src: &'a mut [u8]) -> (r: Result<
        Option<(PayloadType, &'a [u8])>,
        PacketFromSliceError,
    >)
        requires
            old(src)@.len() >= 8 ==> parsed_header(old(src)@).packet_length >= 8,
        ensures
            if !complete_packet(old(src)@) {
                r matches Ok(None) && final(src)@ == old(src)@
            } else {
                &&& final(src)@ == cleared_checksum(old(src)@)
                &&& if !checksum_matches(old(src)@) {
                    r matches Err(
                        PacketFromSliceError::RawPacket(RawPacketFromSliceError::Checksum),
                    )
                } else {
                    match PayloadType::of_code(parsed_header(old(src)@).raw_payload_type) {
                        None => r matches Err(PacketFromSliceError::UnknownPayloadType),
                        Some(t) => r matches Ok(Some((u, bytes))) && u == t && bytes@ == old(
                            src,
                        )@.subrange(8, parsed_header(old(src)@).packet_length as int),
                    }
                }
            },
    {
        let ghost orig = src@;
        match RawPacket::maybe_raw_packet_from_prefix(src) {
            Err(err) => Err(PacketFromSliceError::RawPacket(err)),
            Ok(None) => Ok(None),
            Ok(Some(raw_packet)) => {
                let payload_type = match raw_packet.header().payload_type() {
                    Some(payload_type) => payload_type,
                    None => return Err(PacketFromSliceError::UnknownPayloadType),
                };
                let bytes = raw_packet.payload_bytes();
                assert(decoded_raw_packet(orig).raw_payload.subrange(
                    0,
                    parsed_header(orig).packet_length - 8,
                ) =~= orig.subrange(8, parsed_header(orig).packet_length as int));
                Ok(Some((payload_type, bytes)))
            },
        }
    }

    /// The packet carrying `payload`, read from JSON bytes of which it used `payload_size`,
    /// together with the packet's length.
    pub fn from_payload(payload: Payload<'a>, payload_size: usize) -> (r: (Self, usize))
        requires
            payload_size + 8 <= usize::MAX,
        ensures
            r.0@ == payload,
            r.1 == 8 + payload_size,
    {
        (Packet { payload }, 8 + payload_size)
    }
}

/// A packet whose payload's JSON bytes number at most 65527, written and followed by any
/// bytes, is read back as the payload's kind and the same JSON bytes.
pub proof fn lemma_packet_round_trip(payload: Payload, serialized: Seq<u8>, rest: Seq<u8>)
    requires
        8 + serialized.len() <= u16::MAX,
    ensures
        complete_packet(raw_packet_bytes(payload.content.kind(), serialized) + rest),
        checksum_matches(raw_packet_bytes(payload.content.kind(), serialized) + rest),
        PayloadType::of_code(
            parsed_header(raw_packet_bytes(payload.content.kind(), serialized) + rest).raw_payload_type,
        ) == Some(payload.content.kind()),
        (raw_packet_bytes(payload.content.kind(), serialized) + rest).subrange(
            8,
            parsed_header(raw_packet_bytes(payload.content.kind(), serialized) + rest).packet_length as int,
        ) == serialized,
{
    let t = payload.content.kind();
    let src = raw_packet_bytes(t, serialized) + rest;
    lemma_raw_packet_round_trip(t, serialized, rest);
    lemma_payload_type_code_round_trip(t, 0);
    assert(src.subrange(8, 8 + serialized.len() as int) =~= decoded_raw_packet(src).raw_payload.subrange(
        0,
        serialized.len() as int,
    ));
}

} // verus!
