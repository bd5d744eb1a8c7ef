//! The error kinds the protocol engine distinguishes.  Every failure
//! is surfaced to the caller; nothing is retried or recovered here.

use vstd::prelude::*;

verus! {

/// Why a protocol operation failed.
#[derive(Debug, Clone)]
pub enum ProtoError {
    /// A packet header declared a length below four: the reserved
    /// value `0003`, or a header that the lenient hex policy reads as
    /// a value too small to cover the header itself.
    BadLength,
    /// The buffer or stream ended inside a declared payload, or
    /// before a four-byte header was complete.
    Truncated,
    /// A packet kind that the current phase does not allow, such as a
    /// delimiter inside an advertisement.
    UnexpectedPacket,
    /// An advertisement line without the space that separates the
    /// object identifier from the reference name.
    MalformedLine,
    /// The caller attached a capability the negotiator refuses, one of
    /// the multi-acknowledgement family.
    ForbiddenCapability,
    /// The response to `done` was not the single `NAK` packet.
    MissingNak,
    /// The server answered `ERR` with the attached message bytes.
    RemoteFatal(Vec<u8>),
}

} // verus!
