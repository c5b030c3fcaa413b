use vstd::prelude::*;

use crate::error::ProtocolError;
use crate::framing::{append_range, frame_spec, send_prefixed_packet};
use crate::handshake::{
    handshake_bytes, handshake_error, hs_hostname, hs_next_state, hs_port, hs_version, Handshake,
    HANDSHAKE_PACKET_ID, NEXT_STATE_LOGIN, NEXT_STATE_STATUS,
};
use crate::login::{login_error, login_rewrite, rewrite_login_start};
use crate::profile::SpoofProfile;
use crate::varint::{
    encode_spec, lemma_decode_encode, lemma_encode_zero, read_varint_at, varint_len, varint_len_at,
    varint_short, varint_short_at, varint_value, varint_value_at,
};

verus! {

/// Declared length of a legacy ping's first bytes, read as a packet length.
pub const LEGACY_PING_LENGTH: i32 = 254;

/// Type of a legacy ping, read as a packet type.
pub const LEGACY_PING_ID: i32 = 0xFA;

/// Which kind of first packet the client sent.
#[derive(Debug, Clone, Copy, PartialEq, Eq, Structural)]
pub enum Phase {
    /// A handshake asking for a status query, forwarded unchanged.
    Status,
    /// A handshake asking for a login, and its login-start, both rewritten.
    Login,
    /// A legacy ping, forwarded verbatim.
    LegacyPing,
    /// Any other packet, forwarded whole without interpretation.
    Unknown,
}

/// What interception of a connection did.
pub struct Interception {
    /// The branch taken.
    pub phase: Phase,
    /// How many bytes of the client's data were consumed; what follows is relayed raw.
    pub consumed: usize,
    /// The bytes to send to the upstream server before relaying.
    pub upstream: Vec<u8>,
}

/// Result of interception on the client bytes received so far.
pub enum Outcome {
    /// More client bytes are needed before anything can be decided.
    Pending,
    /// The connection must be aborted.
    Failed(ProtocolError),
    /// Interception is complete: branch, bytes consumed, bytes to send upstream.
    Forward(Phase, nat, Seq<u8>),
}

/// The outcome an executable result stands for.
pub open spec fn outcome_of(r: Result<Option<Interception>, ProtocolError>) -> Outcome {
    match r {
        Ok(None) => Outcome::Pending,
        Ok(Some(i)) => Outcome::Forward(i.phase, i.consumed as nat, i.upstream@),
        Err(e) => Outcome::Failed(e),
    }
}

/// Outcome where the data ends before what must be read next: wait for more bytes,
/// unless the client has closed its side.
pub open spec fn short_outcome(closed: bool, e: ProtocolError) -> Outcome {
    if closed {
        Outcome::Failed(e)
    } else {
        Outcome::Pending
    }
}

/// Interception of the login-start packet that starts at index `start` of the client data `s`,
/// after a login handshake of protocol `version` and port `port`.
pub open spec fn login_outcome(
    s: Seq<u8>,
    start: int,
    closed: bool,
    p: SpoofProfile,
    version: int,
    port: int,
) -> Outcome {
    let a = varint_len_at(s, start);
    let len = varint_value_at(s, start);
    if a == 0 {
        if varint_short_at(s, start) {
            short_outcome(closed, ProtocolError::Malformed)
        } else {
            Outcome::Failed(ProtocolError::Malformed)
        }
    } else if len < 0 {
        Outcome::Failed(ProtocolError::Malformed)
    } else if start + a + len > s.len() {
        short_outcome(closed, ProtocolError::Truncated)
    } else {
        let packet = s.subrange(start + a, start + a + len);
        let b = varint_len(packet);
        let g = packet.subrange(b as int, packet.len() as int);
        if b == 0 {
            Outcome::Failed(ProtocolError::Malformed)
        } else if varint_value(packet) != HANDSHAKE_PACKET_ID {
            Outcome::Failed(ProtocolError::UnexpectedPacket)
        } else if login_error(g, version) is Some {
            Outcome::Failed(login_error(g, version)->0)
        } else {
            Outcome::Forward(
                Phase::Login,
                (start + a + len) as nat,
                frame_spec(handshake_bytes(version, p.forwarded_host(), port, 2)) + frame_spec(
                    login_rewrite(g, version, p.display_name@, p.identifier@),
                ),
            )
        }
    }
}

/// Interception of a handshake whose body (the bytes after its type) is `h` and whose
/// packet ends at index `end` of the client data `s`.
pub open spec fn handshake_outcome(
    s: Seq<u8>,
    end: int,
    h: Seq<u8>,
    closed: bool,
    p: SpoofProfile,
) -> Outcome {
    if handshake_error(h) is Some {
        Outcome::Failed(handshake_error(h)->0)
    } else if hs_next_state(h) == 1 {
        let content = handshake_bytes(hs_version(h), hs_hostname(h), hs_port(h), 1);
        if content.len() > i32::MAX {
            Outcome::Failed(ProtocolError::Malformed)
        } else {
            Outcome::Forward(Phase::Status, end as nat, frame_spec(content))
        }
    } else if hs_next_state(h) == 2 {
        login_outcome(s, end, closed, p, hs_version(h), hs_port(h))
    } else {
        Outcome::Failed(ProtocolError::UnsupportedState)
    }
}

/// Interception of the client data `s` received so far; `closed` tells whether the client
/// has ended its side, so that no more data will come.
pub open spec fn intercept_spec(s: Seq<u8>, closed: bool, p: SpoofProfile) -> Outcome {
    let a = varint_len(s);
    let len = varint_value(s);
    let b = varint_len_at(s, a as int);
    let t = varint_value_at(s, a as int);
    if a == 0 {
        if varint_short(s) {
            short_outcome(closed, ProtocolError::Malformed)
        } else {
            Outcome::Failed(ProtocolError::Malformed)
        }
    } else if b == 0 {
        if varint_short_at(s, a as int) {
            short_outcome(closed, ProtocolError::Malformed)
        } else {
            Outcome::Failed(ProtocolError::Malformed)
        }
    } else if t != HANDSHAKE_PACKET_ID && len == LEGACY_PING_LENGTH && t == LEGACY_PING_ID {
        Outcome::Forward(Phase::LegacyPing, a + b, s.take((a + b) as int))
    } else if len < b {
        Outcome::Failed(ProtocolError::Malformed)
    } else if a + len > s.len() {
        short_outcome(closed, ProtocolError::Truncated)
    } else if t == HANDSHAKE_PACKET_ID {
        handshake_outcome(s, a + len, s.subrange((a + b) as int, a + len), closed, p)
    } else {
        Outcome::Forward(Phase::Unknown, (a + len) as nat, frame_spec(s.subrange(a as int, a + len)))
    }
}

/// A status handshake written with shortest encodings, whatever follows it, is forwarded
/// upstream byte for byte, and interception consumes exactly that packet.
pub proof fn lemma_status_forwarded_unchanged(
    version: i32,
    host: Seq<u8>,
    port: u16,
    rest: Seq<u8>,
    closed: bool,
    p: SpoofProfile,
)
    requires
        handshake_bytes(version as int, host, port as int, 1).len() <= i32::MAX,
    ensures
        intercept_spec(
            frame_spec(handshake_bytes(version as int, host, port as int, 1)) + rest,
            closed,
            p,
        ) == Outcome::Forward(
            Phase::Status,
            frame_spec(handshake_bytes(version as int, host, port as int, 1)).len(),
            frame_spec(handshake_bytes(version as int, host, port as int, 1)),
        ),
{
    let c = handshake_bytes(version as int, host, port as int, 1);
    let n = c.len() as i32;
    let e0 = encode_spec(n as int);
    let s = frame_spec(c) + rest;
    lemma_decode_encode(n, c + rest);
    assert(s =~= e0 + (c + rest));
    let a = e0.len();
    lemma_encode_zero();
    let x = crate::handshake::handshake_body(version as int, host, port as int, 1);
    assert(c =~= seq![0u8] + x);
    lemma_decode_encode(0, x + rest);
    assert(s.subrange(a as int, s.len() as int) =~= encode_spec(0) + (x + rest));
    let h = s.subrange(a as int + 1, a + n as int);
    assert(h =~= x);
    crate::handshake::lemma_handshake_body(version, host, port);
}

/// A packet of any type but a handshake's, written with a shortest type encoding and not
/// shaped like a legacy ping, is forwarded upstream whole, length, type and payload alike.
pub proof fn lemma_unknown_forwarded_unchanged(
    t: i32,
    payload: Seq<u8>,
    rest: Seq<u8>,
    closed: bool,
    p: SpoofProfile,
)
    requires
        t != HANDSHAKE_PACKET_ID,
        (encode_spec(t as int) + payload).len() <= i32::MAX,
        !((encode_spec(t as int) + payload).len() == LEGACY_PING_LENGTH && t == LEGACY_PING_ID),
    ensures
        intercept_spec(frame_spec(encode_spec(t as int) + payload) + rest, closed, p)
            == Outcome::Forward(
            Phase::Unknown,
            frame_spec(encode_spec(t as int) + payload).len(),
            frame_spec(encode_spec(t as int) + payload),
        ),
{
    let c = encode_spec(t as int) + payload;
    let n = c.len() as i32;
    let e0 = encode_spec(n as int);
    let s = frame_spec(c) + rest;
    lemma_decode_encode(n, c + rest);
    assert(s =~= e0 + (c + rest));
    let a = e0.len();
    lemma_decode_encode(t, payload + rest);
    assert(s.subrange(a as int, s.len() as int) =~= encode_spec(t as int) + (payload + rest));
    assert(s.subrange(a as int, a + n as int) =~= c);
}

fn intercept_login(
    data: &[u8],
    start: usize,
    closed: bool,
    profile: &SpoofProfile,
    version: i32,
    port: u16,
) -> (r: Result<Option<Interception>, ProtocolError>)
    requires
        start <= data@.len(),
        profile.wf(),
    ensures
        outcome_of(r) == login_outcome(
            data@,
            start as int,
            closed,
            *profile,
            version as int,
            port as int,
        ),
{
    let total: usize = data.len();
    let (a, len) = match read_varint_at(data, start) {
        Ok(x) => x,
        Err(e) => {
            if total - start < 5 && !closed {
                return Ok(None);
            }
            return Err(e);
        },
    };
    if len < 0 {
        return Err(ProtocolError::Malformed);
    }
    let body_start = start + a as usize;
    if len as usize > total - body_start {
        if closed {
            return Err(ProtocolError::Truncated);
        }
        return Ok(None);
    }
    let end = body_start + len as usize;
    let mut packet: Vec<u8> = Vec::new();
    append_range(&mut packet, data, body_start, end);
    assert(packet@ =~= data@.subrange(start + a, start + a + len));
    assert(packet@.subrange(0, packet@.len() as int) =~= packet@);
    let (b, t) = match read_varint_at(packet.as_slice(), 0) {
        Ok(x) => x,
        Err(e) => return Err(e),
    };
    if t != HANDSHAKE_PACKET_ID {
        return Err(ProtocolError::UnexpectedPacket);
    }
    let mut g: Vec<u8> = Vec::new();
    append_range(&mut g, packet.as_slice(), b as usize, packet.len());
    let login = match rewrite_login_start(
        g.as_slice(),
        version,
        profile.display_name.as_slice(),
        &profile.identifier,
    ) {
        Ok(x) => x,
        Err(e) => return Err(e),
    };
    let hs = Handshake {
        protocol_version: version,
        hostname: profile.forwarded_hostname(),
        port,
        next_state: NEXT_STATE_LOGIN,
    };
    proof {
        crate::profile::lemma_hex_len(profile.identifier@);
        lemma_decode_encode(0, Seq::empty());
        lemma_decode_encode(version, Seq::empty());
        lemma_decode_encode(hs.hostname@.len() as i32, Seq::empty());
        lemma_decode_encode(2, Seq::empty());
        lemma_decode_encode(profile.display_name@.len() as i32, Seq::empty());
    }
    let content = hs.to_bytes();
    let mut upstream: Vec<u8> = Vec::new();
    send_prefixed_packet(&mut upstream, content.as_slice());
    send_prefixed_packet(&mut upstream, login.as_slice());
    Ok(Some(Interception { phase: Phase::Login, consumed: end, upstream }))
}

fn intercept_handshake(
    data: &[u8],
    end: usize,
    h: &[u8],
    closed: bool,
    profile: &SpoofProfile,
) -> (r: Result<Option<Interception>, ProtocolError>)
    requires
        end <= data@.len(),
        profile.wf(),
    ensures
        outcome_of(r) == handshake_outcome(data@, end as int, h@, closed, *profile),
{
    let hs = match Handshake::parse(h) {
        Ok(x) => x,
        Err(e) => return Err(e),
    };
    if hs.next_state == NEXT_STATE_STATUS {
        if hs.hostname.len() > i32::MAX as usize {
            return Err(ProtocolError::Malformed);
        }
        let content = hs.to_bytes();
        if content.len() > i32::MAX as usize {
            return Err(ProtocolError::Malformed);
        }
        let mut upstream: Vec<u8> = Vec::new();
        send_prefixed_packet(&mut upstream, content.as_slice());
        Ok(Some(Interception { phase: Phase::Status, consumed: end, upstream }))
    } else if hs.next_state == NEXT_STATE_LOGIN {
        intercept_login(data, end, closed, profile, hs.protocol_version, hs.port)
    } else {
        Err(ProtocolError::UnsupportedState)
    }
}

/// Intercepts the opening of a connection, given the client bytes received so far and whether
/// the client has closed its side. Returns `Ok(None)` while more bytes are needed; otherwise
/// the bytes to send upstream and how many client bytes they replace.
pub fn intercept(data: &[u8], closed: bool, profile: &SpoofProfile) -> (r: Result<
    Option<Interception>,
    ProtocolError,
>)
    requires
        profile.wf(),
    ensures
        outcome_of(r) == intercept_spec(data@, closed, *profile),
{
    let total: usize = data.len();
    assert(data@.subrange(0, data@.len() as int) =~= data@);
    let (a, len) = match read_varint_at(data, 0) {
        Ok(x) => x,
        Err(e) => {
            if total < 5 && !closed {
                return Ok(None);
            }
            return Err(e);
        },
    };
    let a = a as usize;
    let (b, t) = match read_varint_at(data, a) {
        Ok(x) => x,
        Err(e) => {
            if total - a < 5 && !closed {
                return Ok(None);
            }
            return Err(e);
        },
    };
    let b = b as usize;
    if t != HANDSHAKE_PACKET_ID && len == LEGACY_PING_LENGTH && t == LEGACY_PING_ID {
        let mut upstream: Vec<u8> = Vec::new();
        append_range(&mut upstream, data, 0, a + b);
        assert(upstream@ =~= data@.take(a + b));
        return Ok(Some(Interception { phase: Phase::LegacyPing, consumed: a + b, upstream }));
    }
    if len < 0 || (len as usize) < b {
        return Err(ProtocolError::Malformed);
    }
    if len as usize > total - a {
        if closed {
            return Err(ProtocolError::Truncated);
        }
        return Ok(None);
    }
    let end = a + len as usize;
    if t == HANDSHAKE_PACKET_ID {
        let mut h: Vec<u8> = Vec::new();
        append_range(&mut h, data, a + b, end);
        intercept_handshake(data, end, h.as_slice(), closed, profile)
    } else {
        let mut upstream: Vec<u8> = Vec::new();
        let mut packet: Vec<u8> = Vec::new();
        append_range(&mut packet, data, a, end);
        send_prefixed_packet(&mut upstream, packet.as_slice());
        Ok(Some(Interception { phase: Phase::Unknown, consumed: end, upstream }))
    }
}

} // verus!
