//! Error taxonomy of the protocol core.
//!
//! Protocol-level faults are `DriverError`s; errors reported by the query
//! executor are `ServerError`s and are serialized as exception frames.
//! `Error::WouldBlock` is not a fault: it signals that the read buffer does
//! not yet hold a complete frame and the caller must read more bytes.
use vstd::prelude::*;

verus! {

/// ClickHouse error code reported when a packet arrives that the current
/// connection state does not allow.
pub const UNEXPECTED_PACKET_FROM_CLIENT: u32 = 101;

/// ClickHouse error code reported for a packet tag the server does not know.
pub const UNKNOWN_PACKET_FROM_CLIENT: u32 = 100;

/// A protocol-level fault: the bytes on the wire are structurally invalid.
/// Every variant is fatal to the connection.
#[derive(Clone, Copy, Debug, PartialEq, Eq, Structural)]
pub enum DriverError {
    /// A variable-length integer ran over its maximum width.
    Overflow,
    /// A packet tag outside the client vocabulary.
    UnknownPacket { packet: u64 },
    /// A packet that is legal only in another connection state.
    UnexpectedPacket,
    /// A column type string that the codec does not recognize.
    BadTypeName,
    /// A compressed frame whose checksum does not match its contents.
    BadChecksum,
    /// A compressed frame with an unsupported compression method tag.
    BadCompressionMethod,
    /// A frame whose internal lengths or fields are inconsistent.
    BadFrame,
}

/// An error reported by the query executor, serialized back to the client as
/// a `SERVER_EXCEPTION` frame.
#[derive(Clone, Debug)]
pub struct ServerError {
    pub code: u32,
    pub name: Vec<u8>,
    pub message: Vec<u8>,
    pub stack_trace: Vec<u8>,
}

/// Everything a protocol operation can report.
#[derive(Clone, Debug)]
pub enum Error {
    /// Not enough bytes buffered: read more from the socket and retry.
    WouldBlock,
    /// A protocol fault; the connection must be closed.
    Driver(DriverError),
    /// An executor failure to be reported to the client.
    Server(ServerError),
}

impl Error {
    /// True exactly on the retryable "need more bytes" signal.
    pub fn is_would_block(&self) -> (r: bool)
        ensures
            r == (self is WouldBlock),
    {
        match self {
            Error::WouldBlock => true,
            _ => false,
        }
    }
}

} // verus!
