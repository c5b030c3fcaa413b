//! Interception of the opening handshake of a length-prefixed binary protocol:
//! varint codec, packet framing, and the rewrite of handshake and login-start
//! packets that spoofs the client's identity before raw relaying begins.

pub mod error;
pub mod varint;
pub mod framing;
pub mod handshake;
pub mod login;
pub mod profile;
pub mod intercept;
pub mod relay;
