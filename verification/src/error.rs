//! The error taxonomy of the wire codec and the connection runtime.

use vstd::prelude::*;
use crate::ObjectId;

verus! {

/// Everything that can go wrong while framing, sending, receiving or
/// dispatching a packet.
///
/// Codec and connection failures are always returned as values of this type,
/// never swallowed.
#[derive(Clone, Debug, Eq, PartialEq)]
pub enum Error {
    /// A transport-level I/O failure, described by the transport.
    Io(String),
    /// A required environment variable is missing.
    MissingEnvVar { name: String },
    /// A packet's serialized form would exceed the 16-bit length field.
    PacketTooLong { actual: usize, maximum: usize },
    /// An incoming header declares a total size below the 8-byte header.
    PacketTooShort { actual: usize, minimum: usize },
    /// A field read would run past the end of the payload.
    FieldOutOfBounds { actual: usize, maximum: usize },
    /// A handle read would run past the end of the handle list.
    FdOutOfBounds { total: usize },
    /// A string field's NUL terminator is not exactly at the declared length.
    StringMisplacedNul { actual: Option<usize>, expected: usize },
    /// A string field's bytes are not valid UTF-8.
    StringInvalidUtf8 { data: Vec<u8> },
    /// Payload bytes or handles were left over after all declared arguments
    /// were decoded.
    IncompleteRead { read_bytes: usize, total_bytes: usize, read_fds: usize, total_fds: usize },
    /// The id zero appeared where a concrete object id is required.
    ZeroObjectId,
    /// A packet was dispatched for an object id with no registered handler.
    NoEventHandler { object_id: ObjectId },
}

impl Error {
    /// A human-readable description of the error.
    pub fn message(&self) -> String {
        match self {
            Self::Io(detail) => {
                let mut s = String::new();
                s.append("I/O error: ");
                s.append(detail.as_str());
                s
            },
            Self::MissingEnvVar { name } => {
                let mut s = String::new();
                s.append("missing environment variable ");
                s.append(name.as_str());
                s
            },
            Self::PacketTooLong { .. } => String::from_str("packet too long"),
            Self::PacketTooShort { .. } => String::from_str("packet too short"),
            Self::FieldOutOfBounds { .. } => String::from_str(
                "the requested field would be out of bounds",
            ),
            Self::FdOutOfBounds { .. } => String::from_str(
                "the requested file descriptor would be out of bounds",
            ),
            Self::StringMisplacedNul { .. } => String::from_str(
                "the string's NUL termination is misplaced",
            ),
            Self::StringInvalidUtf8 { .. } => String::from_str("string is invalid UTF-8"),
            Self::IncompleteRead { .. } => String::from_str("incomplete read"),
            Self::ZeroObjectId => String::from_str(
                "object ID was zero where a concrete object ID was expected",
            ),
            Self::NoEventHandler { .. } => String::from_str("no event handler for object ID"),
        }
    }
}

} // verus!
