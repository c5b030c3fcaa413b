use vstd::prelude::*;

use crate::error::ProtocolError;
use crate::varint::{
    encode_spec, lemma_decode_encode, read_varint_at, varint_len, varint_value,
    write_varint,
};

verus! {

/// A payload preceded by its length as a varint.
pub open spec fn frame_spec(p: Seq<u8>) -> Seq<u8> {
    encode_spec(p.len() as int) + p
}

/// Why the packet at the front of `s` cannot be read, if it cannot.
pub open spec fn packet_error(s: Seq<u8>) -> Option<ProtocolError> {
    if varint_len(s) == 0 || varint_value(s) < 0 {
        Some(ProtocolError::Malformed)
    } else if varint_len(s) + varint_value(s) > s.len() {
        Some(ProtocolError::Truncated)
    } else {
        None
    }
}

/// Index just past the packet at the front of `s`.
pub open spec fn packet_end(s: Seq<u8>) -> int {
    varint_len(s) + varint_value(s)
}

/// Payload of the packet at the front of `s`: the declared number of bytes after the length.
pub open spec fn packet_payload(s: Seq<u8>) -> Seq<u8> {
    s.subrange(varint_len(s) as int, packet_end(s))
}

/// Appends `data[from..to]` to `out`.
pub(crate) fn append_range(out: &mut Vec<u8>, data: &[u8], from: usize, to: usize)
    requires
        from <= to <= data@.len(),
    ensures
        final(out)@ == old(out)@ + data@.subrange(from as int, to as int),
{
    let ghost start = old(out)@;
    let mut i: usize = from;
    while i < to
        invariant
            from <= i <= to <= data@.len(),
            out@ == start + data@.subrange(from as int, i as int),
        decreases to - i,
    {
        assert(data@.subrange(from as int, i as int).push(data@[i as int]) =~= data@.subrange(
            from as int,
            i as int + 1,
        ));
        out.push(data[i]);
        i = i + 1;
    }
}

/// Appends `data` to `out` as one packet: its length as a varint, then the bytes verbatim.
pub fn send_prefixed_packet(out: &mut Vec<u8>, data: &[u8])
    requires
        data@.len() <= i32::MAX,
    ensures
        final(out)@ == old(out)@ + frame_spec(data@),
{
    let ghost start = old(out)@;
    write_varint(out, data.len() as i32);
    append_range(out, data, 0, data.len());
    assert(data@.subrange(0, data@.len() as int) =~= data@);
    assert(out@ =~= start + frame_spec(data@));
}

/// Reads the packet at the front of `data`: the number of bytes it occupies, length prefix
/// included, and its payload.
pub fn read_packet(data: &[u8]) -> (r: Result<(usize, Vec<u8>), ProtocolError>)
    ensures
        match r {
            Ok((n, p)) => packet_error(data@) is None && n == packet_end(data@) && p@
                == packet_payload(data@),
            Err(e) => packet_error(data@) == Some(e),
        },
{
    assert(data@.subrange(0, data@.len() as int) =~= data@);
    let (n, len) = match read_varint_at(data, 0) {
        Ok(x) => x,
        Err(e) => return Err(e),
    };
    if len < 0 {
        return Err(ProtocolError::Malformed);
    }
    let start = n as usize;
    if len as usize > data.len() - start {
        return Err(ProtocolError::Truncated);
    }
    let end = start + len as usize;
    let mut p: Vec<u8> = Vec::new();
    append_range(&mut p, data, start, end);
    Ok((end, p))
}

/// Reading back a written packet, followed by anything, gives the payload and stops at its end.
pub proof fn lemma_frame_round_trip(p: Seq<u8>, rest: Seq<u8>)
    requires
        p.len() <= 0x20_0000,
    ensures
        packet_error(frame_spec(p) + rest) is None,
        packet_payload(frame_spec(p) + rest) == p,
        packet_end(frame_spec(p) + rest) == frame_spec(p).len(),
{
    let n = p.len() as i32;
    let e = encode_spec(n as int);
    lemma_decode_encode(n, p + rest);
    assert(frame_spec(p) + rest =~= e + (p + rest));
    assert((frame_spec(p) + rest).subrange(e.len() as int, e.len() + p.len() as int) =~= p);
}

} // verus!
