//! Payloads and the errors of turning them into JSON and back.

use vstd::prelude::*;

use super::{payload_content::PayloadContent, payload_type::PayloadType};
use serde_json_core::de::Error as JsonDeserializeError;
use serde_json_core::ser::Error as JsonSerializeError;

verus! {

#[verifier::external_type_specification]
#[verifier::external_body]
pub struct ExJsonSerializeError(JsonSerializeError);

#[verifier::external_type_specification]
#[verifier::external_body]
pub struct ExJsonDeserializeError(JsonDeserializeError);

/// A payload: the content a packet carries.
#[derive(Debug, Clone, PartialEq)]
pub struct Payload<'a> {
    /// The content.
    pub content: PayloadContent<'a>,
}

impl<'a> Payload<'a> {
    /// Creates a new [`Payload`] with the given `content`.
    pub fn new(content: PayloadContent<'a>) -> (r: Self)
        ensures
            r.content == content,
    {
        Self { content }
    }

    /// Returns the kind of the payload's content.
    pub fn payload_type(&self) -> (r: PayloadType)
        ensures
            r == self.content.kind(),
    {
        self.content.payload_type()
    }
}

/// The payload could not be written as JSON.
#[derive(Debug)]
pub enum PayloadWriteError {
    /// The JSON serializer failed.
    Serialize(JsonSerializeError),
}

impl From<JsonSerializeError> for PayloadWriteError {
    fn from(err: JsonSerializeError) -> (r: Self)
        ensures
            r == PayloadWriteError::Serialize(err),
    {
        PayloadWriteError::Serialize(err)
    }
}

impl vstd::std_specs::convert::FromSpecImpl<JsonSerializeError> for PayloadWriteError {
    open spec fn obeys_from_spec() -> bool {
        true
    }

    open spec fn from_spec(err: JsonSerializeError) -> Self {
        PayloadWriteError::Serialize(err)
    }
}

/// The payload could not be read from JSON.
#[derive(Debug)]
pub enum PayloadFromSliceError {
    /// The JSON deserializer failed.
    Deserialize(JsonDeserializeError),
}

impl From<JsonDeserializeError> for PayloadFromSliceError {
    fn from(err: JsonDeserializeError) -> (r: Self)
        ensures
            r == PayloadFromSliceError::Deserialize(err),
    {
        PayloadFromSliceError::Deserialize(err)
    }
}

impl vstd::std_specs::convert::FromSpecImpl<JsonDeserializeError> for PayloadFromSliceError {
    open spec fn obeys_from_spec() -> bool {
        true
    }

    open spec fn from_spec(err: JsonDeserializeError) -> Self {
        PayloadFromSliceError::Deserialize(err)
    }
}

} // verus!
