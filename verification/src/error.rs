//! Error values of the wire layer and of the storage layer.

use vstd::prelude::*;
use vstd::string::StringExecFns;

verus! {

/// What can go wrong while building or decoding tables and packets.
#[derive(Debug, Clone, PartialEq, Eq)]
pub enum Error {
    /// Fewer bytes were present than the descriptor asked for.
    BufferUnderflow,
    /// A write did not fit into a bounded buffer.
    BufferOverflow,
    /// Arithmetic on an offset or a size left the range of `usize`.
    OffsetOverflow,
    /// Bytes were to be read as a typed slice at a misaligned address.
    Alignment,
    /// The bytes are present but do not form a valid value.
    InvalidComponentData,
    /// A table payload arrived whose packet id has no descriptor.
    VTableNotFound,
    /// The codec failed to encode or decode a message; the text is the
    /// codec's own description of the failure.
    Postcard(String),
    /// The framing of a packet is malformed.
    InvalidPacket,
}

/// What can go wrong while writing to an append-only store.
#[derive(Debug, Clone, Copy, PartialEq, Eq)]
pub enum StoreError {
    /// The timestamp of a push lies before the last committed timestamp.
    TimeTravel,
    /// The log cannot grow by the number of bytes asked for.
    LogOverflow,
    /// A stored log image is too short to hold its header, or its element
    /// region is not a whole number of elements.
    Truncated,
}

impl Error {
    /// What the message of this error says.
    pub open spec fn spec_message(&self) -> Seq<char> {
        match self {
            Error::BufferUnderflow => "buffer underflow"@,
            Error::BufferOverflow => "buffer overflow"@,
            Error::OffsetOverflow => "offset overflow"@,
            Error::Alignment => "incorrect aligned input"@,
            Error::InvalidComponentData => "incorrect component data"@,
            Error::VTableNotFound => "vtable not found"@,
            Error::Postcard(text) => "postcard "@ + text@,
            Error::InvalidPacket => "invalid packet"@,
        }
    }

    /// The message of this error.
    pub fn message(&self) -> (text: String)
        ensures
            text@ == self.spec_message(),
    {
        match self {
            Error::BufferUnderflow => String::from_str("buffer underflow"),
            Error::BufferOverflow => String::from_str("buffer overflow"),
            Error::OffsetOverflow => String::from_str("offset overflow"),
            Error::Alignment => String::from_str("incorrect aligned input"),
            Error::InvalidComponentData => String::from_str("incorrect component data"),
            Error::VTableNotFound => String::from_str("vtable not found"),
            Error::Postcard(text) => String::from_str("postcard ").concat(text.as_str()),
            Error::InvalidPacket => String::from_str("invalid packet"),
        }
    }
}

impl StoreError {
    /// What the message of this error says.
    pub open spec fn spec_message(&self) -> Seq<char> {
        match self {
            StoreError::TimeTravel => "time travel"@,
            StoreError::LogOverflow => "log overflow"@,
            StoreError::Truncated => "truncated log"@,
        }
    }

    /// The message of this error.
    pub fn message(&self) -> (text: String)
        ensures
            text@ == self.spec_message(),
    {
        match self {
            StoreError::TimeTravel => String::from_str("time travel"),
            StoreError::LogOverflow => String::from_str("log overflow"),
            StoreError::Truncated => String::from_str("truncated log"),
        }
    }
}

} // verus!
