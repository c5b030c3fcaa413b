use vstd::prelude::*;

use crate::error::ProtocolError;
use crate::framing::append_range;
use crate::varint::{
    encode_spec, lemma_decode_encode, read_varint_at, varint_len, varint_len_at, varint_value, varint_value_at, write_varint,
};

verus! {

/// Packet type of a handshake, and of a login-start packet.
pub const HANDSHAKE_PACKET_ID: i32 = 0;

/// Next state asking for a status query.
pub const NEXT_STATE_STATUS: i32 = 1;

/// Next state asking for a login.
pub const NEXT_STATE_LOGIN: i32 = 2;

/// The fields of a handshake packet.
pub struct Handshake {
    pub protocol_version: i32,
    pub hostname: Vec<u8>,
    pub port: u16,
    pub next_state: i32,
}

/// Length of the protocol-version varint at the front of a handshake body `h`
/// (the bytes after the packet type).
pub open spec fn hs_version_len(h: Seq<u8>) -> nat {
    varint_len(h)
}

/// Length of the hostname-length varint.
pub open spec fn hs_host_len_len(h: Seq<u8>) -> nat {
    varint_len_at(h, hs_version_len(h) as int)
}

/// Declared length of the hostname.
pub open spec fn hs_host_len(h: Seq<u8>) -> int {
    varint_value_at(h, hs_version_len(h) as int)
}

/// Index of the first hostname byte.
pub open spec fn hs_host_start(h: Seq<u8>) -> int {
    (hs_version_len(h) + hs_host_len_len(h)) as int
}

/// Index of the first port byte, just past the hostname.
pub open spec fn hs_port_pos(h: Seq<u8>) -> int {
    hs_host_start(h) + hs_host_len(h)
}

/// Why a handshake body cannot be parsed, if it cannot.
pub open spec fn handshake_error(h: Seq<u8>) -> Option<ProtocolError> {
    if hs_version_len(h) == 0 || hs_host_len_len(h) == 0 || hs_host_len(h) < 0 {
        Some(ProtocolError::Malformed)
    } else if hs_port_pos(h) + 2 > h.len() {
        Some(ProtocolError::Truncated)
    } else if varint_len_at(h, hs_port_pos(h) + 2) == 0 {
        Some(ProtocolError::Malformed)
    } else {
        None
    }
}

/// The protocol version of a handshake body.
pub open spec fn hs_version(h: Seq<u8>) -> int {
    varint_value(h)
}

/// The hostname bytes of a handshake body.
pub open spec fn hs_hostname(h: Seq<u8>) -> Seq<u8> {
    h.subrange(hs_host_start(h), hs_port_pos(h))
}

/// The port of a handshake body, big-endian.
pub open spec fn hs_port(h: Seq<u8>) -> int {
    h[hs_port_pos(h)] * 256 + h[hs_port_pos(h) + 1]
}

/// The next state of a handshake body.
pub open spec fn hs_next_state(h: Seq<u8>) -> int {
    varint_value_at(h, hs_port_pos(h) + 2)
}

/// Big-endian bytes of a 16-bit port.
pub open spec fn port_bytes(port: int) -> Seq<u8> {
    seq![(port / 256) as u8, (port % 256) as u8]
}

/// A handshake body: the four fields, without the packet type.
pub open spec fn handshake_body(version: int, host: Seq<u8>, port: int, next_state: int) -> Seq<
    u8,
> {
    encode_spec(version) + encode_spec(host.len() as int) + host + port_bytes(port) + encode_spec(
        next_state,
    )
}

/// A handshake packet's content (type included, length prefix excluded).
pub open spec fn handshake_bytes(version: int, host: Seq<u8>, port: int, next_state: int) -> Seq<
    u8,
> {
    encode_spec(HANDSHAKE_PACKET_ID as int) + handshake_body(version, host, port, next_state)
}

/// A status handshake body written with shortest encodings parses back to its fields.
pub proof fn lemma_handshake_body(version: i32, host: Seq<u8>, port: u16)
    requires
        host.len() <= i32::MAX,
    ensures
        handshake_error(handshake_body(version as int, host, port as int, 1)) is None,
        hs_version(handshake_body(version as int, host, port as int, 1)) == version,
        hs_hostname(handshake_body(version as int, host, port as int, 1)) == host,
        hs_port(handshake_body(version as int, host, port as int, 1)) == port,
        hs_next_state(handshake_body(version as int, host, port as int, 1)) == 1,
{
    let ev = encode_spec(version as int);
    let eh = encode_spec(host.len() as int);
    let pb = port_bytes(port as int);
    let e1 = encode_spec(1);
    let x = handshake_body(version as int, host, port as int, 1);
    lemma_decode_encode(version, eh + host + pb + e1);
    assert(x =~= ev + (eh + host + pb + e1));
    lemma_decode_encode(host.len() as i32, host + pb + e1);
    assert(x.subrange(ev.len() as int, x.len() as int) =~= eh + (host + pb + e1));
    let pp = (ev.len() + eh.len() + host.len()) as int;
    lemma_decode_encode(1, Seq::empty());
    assert(x.subrange(pp + 2, x.len() as int) =~= e1 + Seq::<u8>::empty());
    assert(x[pp] == pb[0]);
    assert(x[pp + 1] == pb[1]);
    assert(hs_port(x) == port) by {
        assert(pb[0] as int == port / 256);
        assert(pb[1] as int == port % 256);
    }
    assert(hs_hostname(x) =~= host);
}

impl Handshake {
    /// Parses a handshake body: the bytes of a handshake packet after its type.
    pub fn parse(h: &[u8]) -> (r: Result<Handshake, ProtocolError>)
        ensures
            match r {
                Ok(hs) => handshake_error(h@) is None && hs.protocol_version as int == hs_version(
                    h@,
                ) && hs.hostname@ == hs_hostname(h@) && hs.port as int == hs_port(h@)
                    && hs.next_state as int == hs_next_state(h@),
                Err(e) => handshake_error(h@) == Some(e),
            },
    {
        assert(h@.subrange(0, h@.len() as int) =~= h@);
        let (c, version) = match read_varint_at(h, 0) {
            Ok(x) => x,
            Err(e) => return Err(e),
        };
        let c = c as usize;
        let (d, host_len) = match read_varint_at(h, c) {
            Ok(x) => x,
            Err(e) => return Err(e),
        };
        if host_len < 0 {
            return Err(ProtocolError::Malformed);
        }
        let total: usize = h.len();
        assert(c + d <= total);
        let host_start = c + d as usize;
        if host_len as usize > h.len() - host_start || h.len() - host_start - (host_len as usize)
            < 2 {
            return Err(ProtocolError::Truncated);
        }
        let pp = host_start + host_len as usize;
        let port: u16 = h[pp] as u16 * 256 + h[pp + 1] as u16;
        let (_e, next_state) = match read_varint_at(h, pp + 2) {
            Ok(x) => x,
            Err(e) => return Err(e),
        };
        let mut hostname: Vec<u8> = Vec::new();
        append_range(&mut hostname, h, host_start, pp);
        Ok(Handshake { protocol_version: version, hostname, port, next_state })
    }

    /// The packet content of this handshake: type, then the four fields.
    pub fn to_bytes(&self) -> (r: Vec<u8>)
        requires
            self.hostname@.len() <= i32::MAX,
        ensures
            r@ == handshake_bytes(
                self.protocol_version as int,
                self.hostname@,
                self.port as int,
                self.next_state as int,
            ),
    {
        let mut out: Vec<u8> = Vec::new();
        write_varint(&mut out, HANDSHAKE_PACKET_ID);
        write_varint(&mut out, self.protocol_version);
        write_varint(&mut out, self.hostname.len() as i32);
        append_range(&mut out, self.hostname.as_slice(), 0, self.hostname.len());
        assert(self.hostname@.subrange(0, self.hostname@.len() as int) =~= self.hostname@);
        out.push((self.port / 256) as u8);
        out.push((self.port % 256) as u8);
        write_varint(&mut out, self.next_state);
        assert(out@ =~= handshake_bytes(
            self.protocol_version as int,
            self.hostname@,
            self.port as int,
            self.next_state as int,
        ));
        out
    }
}

} // verus!
