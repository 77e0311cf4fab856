//! The kinds of payload a packet can carry.

use vstd::prelude::*;

verus! {

/// The kind of a payload, carried in the packet header as a number.
#[derive(Debug, Clone, Copy, PartialEq, Eq, Structural)]
pub enum PayloadType {
    /// An [`Init`](super::payload_content::Init) payload.
    Init,
    /// An [`InitAck`](super::payload_content::InitAck) payload.
    InitAck,
    /// A [`Heartbeat`](super::payload_content::Heartbeat) payload.
    Heartbeat,
    /// A [`HeartbeatAck`](super::payload_content::HeartbeatAck) payload.
    HeartbeatAck,
    /// A [`DeviceConfig`](super::payload_content::DeviceConfig) payload.
    DeviceConfig,
    /// A [`DeviceConfigAck`](super::payload_content::DeviceConfigAck) payload.
    DeviceConfigAck,
}

impl PayloadType {
    /// The number that stands for this kind in a header: its position in the list of kinds.
    pub open spec fn code(self) -> u16 {
        match self {
            PayloadType::Init => 0,
            PayloadType::InitAck => 1,
            PayloadType::Heartbeat => 2,
            PayloadType::HeartbeatAck => 3,
            PayloadType::DeviceConfig => 4,
            PayloadType::DeviceConfigAck => 5,
        }
    }

    /// The kind a header number stands for, if any.
    pub open spec fn of_code(value: u16) -> Option<PayloadType> {
        if value == 0 {
            Some(PayloadType::Init)
        } else if value == 1 {
            Some(PayloadType::InitAck)
        } else if value == 2 {
            Some(PayloadType::Heartbeat)
        } else if value == 3 {
            Some(PayloadType::HeartbeatAck)
        } else if value == 4 {
            Some(PayloadType::DeviceConfig)
        } else if value == 5 {
            Some(PayloadType::DeviceConfigAck)
        } else {
            None
        }
    }

    /// Returns the number that stands for this kind in a header.
    pub fn as_u16(self) -> (r: u16)
        ensures
            r == self.code(),
    {
        match self {
            PayloadType::Init => 0,
            PayloadType::InitAck => 1,
            PayloadType::Heartbeat => 2,
            PayloadType::HeartbeatAck => 3,
            PayloadType::DeviceConfig => 4,
            PayloadType::DeviceConfigAck => 5,
        }
    }

    /// Returns the kind a header number stands for, or `None` for an unknown number.
    pub fn from_u16(value: u16) -> (r: Option<Self>)
        ensures
            r == Self::of_code(value),
    {
        match value {
            0 => Some(PayloadType::Init),
            1 => Some(PayloadType::InitAck),
            2 => Some(PayloadType::Heartbeat),
            3 => Some(PayloadType::HeartbeatAck),
            4 => Some(PayloadType::DeviceConfig),
            5 => Some(PayloadType::DeviceConfigAck),
            _ => None,
        }
    }
}

/// Every kind is read back from its number, and a known number is the number of the kind it
/// is read as.
pub proof fn lemma_payload_type_code_round_trip(t: PayloadType, value: u16)
    ensures
        PayloadType::of_code(t.code()) == Some(t),
        PayloadType::of_code(value) matches Some(u) ==> u.code() == value,
        PayloadType::of_code(value) is None <==> value > 5,
{
}

} // verus!
