use std::fmt;

use cody_c::demo::codec::PacketCodec;
use cody_c::demo::header::Header;
use cody_c::demo::packet::{Packet, PacketFromSliceError, PacketWriteError};
use cody_c::demo::payload::{Payload, PayloadWriteError};
use cody_c::demo::payload_content::{
    DeviceConfig, DeviceConfigAck, Heartbeat, HeartbeatAck, Init, InitAck, PayloadContent,
};
use cody_c::demo::payload_type::PayloadType;
use cody_c::demo::raw_packet::{RawPacket, RawPacketFromSliceError, RawPacketWriteError};
use serde::de::{Error as _, MapAccess, Visitor};
use serde::ser::SerializeStruct;

/// The JSON form of a device configuration, as the demo protocol writes it.
struct DeviceConfigJson<'a> {
    sequence_number: u32,
    config: &'a str,
}

impl<'a> From<&DeviceConfig<'a>> for DeviceConfigJson<'a> {
    fn from(config: &DeviceConfig<'a>) -> Self {
        Self { sequence_number: config.sequence_number, config: config.config }
    }
}

impl<'a> From<DeviceConfigJson<'a>> for DeviceConfig<'a> {
    fn from(json: DeviceConfigJson<'a>) -> Self {
        Self { sequence_number: json.sequence_number, config: json.config }
    }
}

impl<'a> serde::Serialize for DeviceConfigJson<'a> {
    fn serialize<S: serde::Serializer>(&self, serializer: S) -> Result<S::Ok, S::Error> {
        let mut state = serializer.serialize_struct("DeviceConfig", 2)?;
        state.serialize_field("sequence_number", &self.sequence_number)?;
        state.serialize_field("config", self.config)?;
        state.end()
    }
}

struct DeviceConfigVisitor;

impl<'de> Visitor<'de> for DeviceConfigVisitor {
    type Value = DeviceConfigJson<'de>;

    fn expecting(&self, f: &mut fmt::Formatter) -> fmt::Result {
        f.write_str("a device configuration")
    }

    fn visit_map<A: MapAccess<'de>>(self, mut map: A) -> Result<Self::Value, A::Error> {
        let mut sequence_number = None;
        let mut config = None;
        while let Some(key) = map.next_key::<&'de str>()? {
            match key {
                "sequence_number" => sequence_number = Some(map.next_value::<u32>()?),
                "config" => config = Some(map.next_value::<&'de str>()?),
                _ => {
                    map.next_value::<serde::de::IgnoredAny>()?;
                }
            }
        }
        Ok(DeviceConfigJson {
            sequence_number: sequence_number.ok_or_else(|| A::Error::missing_field("sequence_number"))?,
            config: config.ok_or_else(|| A::Error::missing_field("config"))?,
        })
    }
}

impl<'de> serde::Deserialize<'de> for DeviceConfigJson<'de> {
    fn deserialize<D: serde::Deserializer<'de>>(deserializer: D) -> Result<Self, D::Error> {
        deserializer.deserialize_struct(
            "DeviceConfig",
            &["sequence_number", "config"],
            DeviceConfigVisitor,
        )
    }
}

fn device_config_json<'b>(payload: &Payload<'_>, scratch: &'b mut [u8]) -> &'b [u8] {
    match &payload.content {
        PayloadContent::DeviceConfig(config) => {
            let n = serde_json_core::to_slice(&DeviceConfigJson::from(config), scratch)
                .expect("Must serialize");
            &scratch[..n]
        }
        _ => panic!("only device configurations are written here"),
    }
}

#[test]
fn payload_encode_decode() {
    let buf = &mut [0; 100];

    let payload = Payload::new(PayloadContent::DeviceConfig(DeviceConfig {
        sequence_number: 12,
        config: "config",
    }));

    let written = match &payload.content {
        PayloadContent::DeviceConfig(config) => {
            serde_json_core::to_slice(&DeviceConfigJson::from(config), buf).expect("Must be ok")
        }
        _ => unreachable!(),
    };
    assert_eq!(payload.payload_type(), PayloadType::DeviceConfig);

    let (json, read) = serde_json_core::from_slice::<DeviceConfigJson>(&buf[..written])
        .expect("Must be ok");
    let reconstructed = Payload::new(PayloadContent::DeviceConfig(json.into()));

    assert_eq!(written, read);
    assert_eq!(reconstructed, payload);
}

/// Writes `json` after the header's eight bytes of `dst`, as the serializer does, and returns
/// the outcome the packet writer expects.
fn serialized_in_place(dst: &mut [u8], json: &[u8]) -> Result<usize, PayloadWriteError> {
    if dst.len() < 8 + json.len() {
        return Err(PayloadWriteError::Serialize(serde_json_core::ser::Error::BufferFull));
    }
    dst[8..8 + json.len()].copy_from_slice(json);
    Ok(json.len())
}

#[test]
fn packet_encode_decode() {
    let buf = &mut [0; 100];

    let packet = Packet::new(Payload::new(PayloadContent::DeviceConfig(DeviceConfig {
        sequence_number: 12,
        config: "config",
    })));

    let json_len = device_config_json(packet.payload(), &mut buf[8..]).len();
    let written = packet.write_to(Ok(json_len), buf).expect("Must be ok");

    let (payload_type, bytes) = Packet::maybe_payload_bytes_from_prefix(buf)
        .expect("Must be ok")
        .expect("Must be some");
    assert_eq!(payload_type, PayloadType::DeviceConfig);
    let (config, size) =
        serde_json_core::from_slice::<DeviceConfigJson>(bytes).expect("Must be ok");
    let (reconstructed, read) = Packet::from_payload(
        Payload::new(PayloadContent::DeviceConfig(config.into())),
        size,
    );

    assert_eq!(written, read);
    assert_eq!(reconstructed, packet);
}

#[test]
fn checksum_is_crc32() {
    assert_eq!(Header::calculate_checksum(b"123456789"), 0xCBF4_3926);
    assert_eq!(Header::calculate_checksum(b""), 0);
}

#[test]
fn raw_packet_layout() {
    let payload = Payload::new(PayloadContent::Heartbeat(Heartbeat { sequence_number: 1 }));
    let mut dst = [0xaau8; 16];
    let size = RawPacket::write_to(&payload, serialized_in_place(&mut dst, b"{}"), &mut dst).unwrap();
    assert_eq!(size, 10);
    assert_eq!(&dst[..4], &[0, 10, 0, 2]);
    let mut cleared = dst[..10].to_vec();
    cleared[4..8].copy_from_slice(&[0, 0, 0, 0]);
    let checksum = Header::calculate_checksum(&cleared);
    assert_eq!(&dst[4..8], &checksum.to_be_bytes());
    assert_eq!(&dst[8..10], b"{}");
    assert_eq!(&dst[10..], &[0xaa; 6]);
}

#[test]
fn raw_packet_round_trip_and_accessors() {
    let payload = Payload::new(PayloadContent::HeartbeatAck(HeartbeatAck { sequence_number: 3 }));
    let mut dst = [0u8; 32];
    let size = RawPacket::write_to(&payload, serialized_in_place(&mut dst, b"{\"a\":1}"), &mut dst).unwrap();
    assert_eq!(size, 15);
    let raw = RawPacket::maybe_raw_packet_from_prefix(&mut dst).unwrap().unwrap();
    assert_eq!(raw.header().packet_length(), 15);
    assert_eq!(raw.header().packet_length_usize(), 15);
    assert_eq!(raw.header().raw_payload_type(), 3);
    assert_eq!(raw.header().payload_type(), Some(PayloadType::HeartbeatAck));
    assert_eq!(raw.header().checksum(), 0);
    assert_eq!(raw.header().payload_length(), 7);
    assert_eq!(raw.payload_length(), 7);
    assert_eq!(raw.payload_bytes(), b"{\"a\":1}");
    assert_eq!(raw.raw_payload().len(), 24);
}

#[test]
fn raw_packet_write_errors() {
    let payload = Payload::new(PayloadContent::Init(Init { sequence_number: 0, version: "1" }));
    let mut tiny = [0u8; 7];
    assert!(matches!(
        RawPacket::write_to(&payload, serialized_in_place(&mut tiny, b"{}"), &mut tiny),
        Err(RawPacketWriteError::HeaderWrite)
    ));
    let mut small = [0u8; 9];
    assert!(matches!(
        RawPacket::write_to(&payload, serialized_in_place(&mut small, b"{}"), &mut small),
        Err(RawPacketWriteError::PayloadWrite)
    ));
    let failed = Err(PayloadWriteError::Serialize(serde_json_core::ser::Error::BufferFull));
    // What the serializer wrote before it failed stays in the buffer, and no header is written.
    let mut dst = [0u8; 32];
    dst[8..14].copy_from_slice(b"{\"sequ");
    assert!(matches!(
        RawPacket::write_to(&payload, failed, &mut dst),
        Err(RawPacketWriteError::PayloadWrite)
    ));
    assert_eq!(&dst[..8], &[0u8; 8]);
    assert_eq!(&dst[8..14], b"{\"sequ");
    let packet = Packet::new(payload.clone());
    assert!(matches!(
        packet.write_to(Ok(0), &mut tiny),
        Err(PacketWriteError::RawPacket(RawPacketWriteError::HeaderWrite))
    ));
}

#[test]
fn raw_packet_incomplete_and_corrupted() {
    let payload = Payload::new(PayloadContent::InitAck(InitAck { sequence_number: 0, version: "1" }));
    let mut dst = [0u8; 16];
    let size = RawPacket::write_to(&payload, serialized_in_place(&mut dst, b"{}"), &mut dst).unwrap();
    let mut partial = dst[..size - 1].to_vec();
    assert!(matches!(RawPacket::maybe_raw_packet_from_prefix(&mut partial), Ok(None)));
    let mut short = [0u8; 4];
    assert!(matches!(RawPacket::maybe_raw_packet_from_prefix(&mut short), Ok(None)));
    let mut corrupted = dst[..size].to_vec();
    corrupted[9] ^= 1;
    assert!(matches!(
        RawPacket::maybe_raw_packet_from_prefix(&mut corrupted),
        Err(RawPacketFromSliceError::Checksum)
    ));
    assert_eq!(&corrupted[4..8], &[0, 0, 0, 0]);
}

#[test]
fn packet_with_unknown_payload_type() {
    let payload = Payload::new(PayloadContent::DeviceConfigAck(DeviceConfigAck { sequence_number: 4 }));
    let mut dst = [0u8; 16];
    let size = RawPacket::write_to(&payload, serialized_in_place(&mut dst, b"{}"), &mut dst).unwrap();
    let (mut header, _) = Header::maybe_mut_header_from_prefix(&mut dst).unwrap();
    assert_eq!(header.payload_type(), Some(PayloadType::DeviceConfigAck));
    header.set_raw_payload_type(9);
    header.clear_checksum();
    header.write_to_prefix(&mut dst);
    let checksum = Header::calculate_checksum(&dst[..size]);
    header.set_checksum(checksum);
    header.write_to_prefix(&mut dst);
    assert!(matches!(
        Packet::maybe_payload_bytes_from_prefix(&mut dst),
        Err(PacketFromSliceError::UnknownPayloadType)
    ));
}

#[test]
fn header_setters_and_ready_for_checksum() {
    let mut bytes = [0u8; 8];
    let (mut header, rest) = Header::maybe_mut_header_from_prefix(&mut bytes).unwrap();
    assert!(rest.is_empty());
    header.set_packet_length(20);
    header.set_checksum(7);
    assert_eq!(header.packet_length(), 20);
    assert_eq!(header.checksum(), 7);
    let payload = Payload::new(PayloadContent::Init(Init { sequence_number: 1, version: "v" }));
    header.make_ready_for_checksum(&payload, 5);
    assert_eq!(header.packet_length(), 13);
    assert_eq!(header.raw_payload_type(), 0);
    assert_eq!(header.checksum(), 0);
    assert_eq!(Header::size(), 8);
    let mut short = [0u8; 7];
    assert!(Header::maybe_mut_header_from_prefix(&mut short).is_none());
}

#[test]
fn payload_types_and_contents() {
    let kinds = [
        PayloadType::Init,
        PayloadType::InitAck,
        PayloadType::Heartbeat,
        PayloadType::HeartbeatAck,
        PayloadType::DeviceConfig,
        PayloadType::DeviceConfigAck,
    ];
    for (code, kind) in kinds.iter().enumerate() {
        assert_eq!(kind.as_u16(), code as u16);
        assert_eq!(PayloadType::from_u16(code as u16), Some(*kind));
    }
    assert_eq!(PayloadType::from_u16(6), None);
    let contents: Vec<PayloadContent> = vec![
        Init { sequence_number: 0, version: "1.0.0" }.into(),
        InitAck { sequence_number: 0, version: "1.0.0" }.into(),
        Heartbeat { sequence_number: 1 }.into(),
        HeartbeatAck { sequence_number: 1 }.into(),
        DeviceConfig { sequence_number: 2, config: "very-important-config" }.into(),
        DeviceConfigAck { sequence_number: 2 }.into(),
    ];
    for (content, kind) in contents.iter().zip(kinds.iter()) {
        assert_eq!(content.payload_type(), *kind);
    }
    let _codec = PacketCodec::new();
    let _default = PacketCodec::default();
}
