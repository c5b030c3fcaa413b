use vstd::prelude::*;

use crate::error::ProtocolError;
use crate::framing::append_range;
use crate::varint::{encode_spec, read_varint_at, varint_len, varint_value, write_varint};

verus! {

/// First protocol version whose login-start carries a signing-data flag.
pub const SIGNED_LOGIN_FIRST: i32 = 759;

/// Last protocol version whose login-start carries a signing-data flag.
pub const SIGNED_LOGIN_LAST: i32 = 760;

/// First protocol version whose login-start carries an identifier flag.
pub const LOGIN_IDENTIFIER_FIRST: i32 = 759;

/// The login-start of `version` carries a signing-data flag.
pub open spec fn has_signing_flag(version: int) -> bool {
    version == SIGNED_LOGIN_FIRST || version == SIGNED_LOGIN_LAST
}

/// The login-start of `version` carries an identifier flag.
pub open spec fn has_identifier_flag(version: int) -> bool {
    version >= LOGIN_IDENTIFIER_FIRST
}

/// Index just past the player name of a login-start body `g` (the bytes after the type).
pub open spec fn ls_name_end(g: Seq<u8>) -> int {
    varint_len(g) + varint_value(g)
}

/// Index of the identifier flag of a login-start body.
pub open spec fn ls_flag_pos(g: Seq<u8>, version: int) -> int {
    ls_name_end(g) + if has_signing_flag(version) {
        1int
    } else {
        0int
    }
}

/// The client declares an identifier: the flag is present and equals 1.
pub open spec fn ls_has_identifier(g: Seq<u8>, version: int) -> bool {
    has_identifier_flag(version) && g[ls_flag_pos(g, version)] == 1
}

/// Why a login-start body cannot be rewritten, if it cannot.
pub open spec fn login_error(g: Seq<u8>, version: int) -> Option<ProtocolError> {
    if varint_len(g) == 0 || varint_value(g) < 0 {
        Some(ProtocolError::Malformed)
    } else if ls_name_end(g) > g.len() {
        Some(ProtocolError::Truncated)
    } else if has_signing_flag(version) && ls_name_end(g) >= g.len() {
        Some(ProtocolError::Truncated)
    } else if has_signing_flag(version) && g[ls_name_end(g)] != 0 {
        Some(ProtocolError::UnsupportedFeature)
    } else if has_identifier_flag(version) && ls_flag_pos(g, version) >= g.len() {
        Some(ProtocolError::Truncated)
    } else if ls_has_identifier(g, version) && ls_flag_pos(g, version) + 17 > g.len() {
        Some(ProtocolError::Truncated)
    } else {
        None
    }
}

/// The rewritten login-start content (type included): the configured name, no signing data,
/// the client's identifier flag, and the configured identifier where the flag is set.
pub open spec fn login_rewrite(g: Seq<u8>, version: int, name: Seq<u8>, id: Seq<u8>) -> Seq<u8> {
    seq![0u8] + encode_spec(name.len() as int) + name + (if has_signing_flag(version) {
        seq![0u8]
    } else {
        Seq::empty()
    }) + (if has_identifier_flag(version) {
        seq![g[ls_flag_pos(g, version)]] + if ls_has_identifier(g, version) {
            id
        } else {
            Seq::empty()
        }
    } else {
        Seq::empty()
    })
}

/// Rewrites a login-start body (the bytes after the packet type) for `version`: the client's
/// name and identifier are dropped and `name` and `id` are written in their place.
pub fn rewrite_login_start(g: &[u8], version: i32, name: &[u8], id: &[u8; 16]) -> (r: Result<
    Vec<u8>,
    ProtocolError,
>)
    requires
        name@.len() <= i32::MAX,
    ensures
        match r {
            Ok(out) => login_error(g@, version as int) is None && out@ == login_rewrite(
                g@,
                version as int,
                name@,
                id@,
            ),
            Err(e) => login_error(g@, version as int) == Some(e),
        },
{
    assert(g@.subrange(0, g@.len() as int) =~= g@);
    let (c, name_len) = match read_varint_at(g, 0) {
        Ok(x) => x,
        Err(e) => return Err(e),
    };
    if name_len < 0 {
        return Err(ProtocolError::Malformed);
    }
    let total: usize = g.len();
    let c = c as usize;
    if name_len as usize > total - c {
        return Err(ProtocolError::Truncated);
    }
    let mut pos: usize = c + name_len as usize;
    let mut out: Vec<u8> = Vec::new();
    out.push(0u8);
    write_varint(&mut out, name.len() as i32);
    append_range(&mut out, name, 0, name.len());
    assert(name@.subrange(0, name@.len() as int) =~= name@);
    if version == SIGNED_LOGIN_FIRST || version == SIGNED_LOGIN_LAST {
        if pos >= total {
            return Err(ProtocolError::Truncated);
        }
        if g[pos] != 0 {
            return Err(ProtocolError::UnsupportedFeature);
        }
        out.push(0u8);
        pos = pos + 1;
    }
    if version >= LOGIN_IDENTIFIER_FIRST {
        if pos >= total {
            return Err(ProtocolError::Truncated);
        }
        let flag = g[pos];
        if flag == 1 && total - pos < 17 {
            return Err(ProtocolError::Truncated);
        }
        out.push(flag);
        if flag == 1 {
            append_range(&mut out, id, 0, 16);
            assert(id@.subrange(0, 16) =~= id@);
        }
    }
    assert(out@ =~= login_rewrite(g@, version as int, name@, id@));
    Ok(out)
}

} // verus!
