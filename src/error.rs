use vstd::prelude::*;

verus! {

/// Why interception of a connection failed.
#[derive(Debug, Clone, Copy, PartialEq, Eq, Structural)]
pub enum ProtocolError {
    /// A varint needs a sixth byte, or the data ends before its last byte.
    Malformed,
    /// The data ends, or a packet ends, before a declared field is complete.
    Truncated,
    /// The handshake asks for a next state other than status (1) or login (2).
    UnsupportedState,
    /// The client declares login-signing data, which is not rewritten.
    UnsupportedFeature,
    /// The packet after a login handshake is not a login-start packet.
    UnexpectedPacket,
}

} // verus!
