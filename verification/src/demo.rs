//! A demo protocol: JSON payloads framed behind a checksummed header.
//!
//! The framing (header, lengths, checksum) is verified here; turning payloads into JSON and
//! back is done by the caller, which hands the serialized bytes in and takes the payload bytes
//! out.

pub mod codec;
pub mod header;
pub mod packet;
pub mod payload;
pub mod payload_content;
pub mod payload_type;
pub mod raw_packet;
