//! The contents a payload can carry.

use vstd::prelude::*;

use super::payload_type::PayloadType;

verus! {

/// The content of a payload.
#[derive(Debug, Clone, PartialEq)]
pub enum PayloadContent<'a> {
    /// An init message.
    Init(Init<'a>),
    /// An init acknowledgement.
    InitAck(InitAck<'a>),
    /// A heartbeat.
    Heartbeat(Heartbeat),
    /// A heartbeat acknowledgement.
    HeartbeatAck(HeartbeatAck),
    /// A device configuration.
    DeviceConfig(DeviceConfig<'a>),
    /// A device configuration acknowledgement.
    DeviceConfigAck(DeviceConfigAck),
}

/// An init message.
#[derive(Debug, Clone, PartialEq)]
pub struct Init<'a> {
    /// The message's sequence number.
    pub sequence_number: u32,
    /// The sender's version.
    pub version: &'a str,
}

/// An init acknowledgement.
#[derive(Debug, Clone, PartialEq)]
pub struct InitAck<'a> {
    /// The message's sequence number.
    pub sequence_number: u32,
    /// The sender's version.
    pub version: &'a str,
}

/// A heartbeat.
#[derive(Debug, Clone, PartialEq)]
pub struct Heartbeat {
    /// The message's sequence number.
    pub sequence_number: u32,
}

/// A heartbeat acknowledgement.
#[derive(Debug, Clone, PartialEq)]
pub struct HeartbeatAck {
    /// The message's sequence number.
    pub sequence_number: u32,
}

/// A device configuration.
#[derive(Debug, Clone, PartialEq)]
pub struct DeviceConfig<'a> {
    /// The message's sequence number.
    pub sequence_number: u32,
    /// The configuration.
    pub config: &'a str,
}

/// A device configuration acknowledgement.
#[derive(Debug, Clone, PartialEq)]
pub struct DeviceConfigAck {
    /// The message's sequence number.
    pub sequence_number: u32,
}

impl<'a> PayloadContent<'a> {
    /// The kind of this content.
    pub open spec fn kind(&self) -> PayloadType {
        match self {
            PayloadContent::Init(_) => PayloadType::Init,
            PayloadContent::InitAck(_) => PayloadType::InitAck,
            PayloadContent::Heartbeat(_) => PayloadType::Heartbeat,
            PayloadContent::HeartbeatAck(_) => PayloadType::HeartbeatAck,
            PayloadContent::DeviceConfig(_) => PayloadType::DeviceConfig,
            PayloadContent::DeviceConfigAck(_) => PayloadType::DeviceConfigAck,
        }
    }

    /// Returns the kind of this content.
    pub fn payload_type(&self) -> (r: PayloadType)
        ensures
            r == self.kind(),
    {
        match self {
            PayloadContent::Init(_) => PayloadType::Init,
            PayloadContent::InitAck(_) => PayloadType::InitAck,
            PayloadContent::Heartbeat(_) => PayloadType::Heartbeat,
            PayloadContent::HeartbeatAck(_) => PayloadType::HeartbeatAck,
            PayloadContent::DeviceConfig(_) => PayloadType::DeviceConfig,
            PayloadContent::DeviceConfigAck(_) => PayloadType::DeviceConfigAck,
        }
    }
}

impl<'a> From<Init<'a>> for PayloadContent<'a> {
    fn from(value: Init<'a>) -> (r: Self)
        ensures
            r == PayloadContent::Init(value),
    {
        PayloadContent::Init(value)
    }
}

impl<'a> vstd::std_specs::convert::FromSpecImpl<Init<'a>> for PayloadContent<'a> {
    open spec fn obeys_from_spec() -> bool {
        true
    }

    open spec fn from_spec(value: Init<'a>) -> Self {
        PayloadContent::Init(value)
    }
}

impl<'a> From<InitAck<'a>> for PayloadContent<'a> {
    fn from(value: InitAck<'a>) -> (r: Self)
        ensures
            r == PayloadContent::InitAck(value),
    {
        PayloadContent::InitAck(value)
    }
}

impl<'a> vstd::std_specs::convert::FromSpecImpl<InitAck<'a>> for PayloadContent<'a> {
    open spec fn obeys_from_spec() -> bool {
        true
    }

    open spec fn from_spec(value: InitAck<'a>) -> Self {
        PayloadContent::InitAck(value)
    }
}

impl<'a> From<Heartbeat> for PayloadContent<'a> {
    fn from(value: Heartbeat) -> (r: Self)
        ensures
            r == PayloadContent::Heartbeat(value),
    {
        PayloadContent::Heartbeat(value)
    }
}

impl<'a> vstd::std_specs::convert::FromSpecImpl<Heartbeat> for PayloadContent<'a> {
    open spec fn obeys_from_spec() -> bool {
        true
    }

    open spec fn from_spec(value: Heartbeat) -> Self {
        PayloadContent::Heartbeat(value)
    }
}

impl<'a> From<HeartbeatAck> for PayloadContent<'a> {
    fn from(value: HeartbeatAck) -> (r: Self)
        ensures
            r == PayloadContent::HeartbeatAck(value),
    {
        PayloadContent::HeartbeatAck(value)
    }
}

impl<'a> vstd::std_specs::convert::FromSpecImpl<HeartbeatAck> for PayloadContent<'a> {
    open spec fn obeys_from_spec() -> bool {
        true
    }

    open spec fn from_spec(value: HeartbeatAck) -> Self {
        PayloadContent::HeartbeatAck(value)
    }
}

impl<'a> From<DeviceConfig<'a>> for PayloadContent<'a> {
    fn from(value: DeviceConfig<'a>) -> (r: Self)
        ensures
            r == PayloadContent::DeviceConfig(value),
    {
        PayloadContent::DeviceConfig(value)
    }
}

impl<'a> vstd::std_specs::convert::FromSpecImpl<DeviceConfig<'a>> for PayloadContent<'a> {
    open spec fn obeys_from_spec() -> bool {
        true
    }

    open spec fn from_spec(value: DeviceConfig<'a>) -> Self {
        PayloadContent::DeviceConfig(value)
    }
}

impl<'a> From<DeviceConfigAck> for PayloadContent<'a> {
    fn from(value: DeviceConfigAck) -> (r: Self)
        ensures
            r == PayloadContent::DeviceConfigAck(value),
    {
        PayloadContent::DeviceConfigAck(value)
    }
}

impl<'a> vstd::std_specs::convert::FromSpecImpl<DeviceConfigAck> for PayloadContent<'a> {
    open spec fn obeys_from_spec() -> bool {
        true
    }

    open spec fn from_spec(value: DeviceConfigAck) -> Self {
        PayloadContent::DeviceConfigAck(value)
    }
}

} // verus!
