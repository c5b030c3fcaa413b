use handshake_spoof::error::ProtocolError;
use handshake_spoof::framing::{read_packet, send_prefixed_packet};
use handshake_spoof::varint::{read_varint_at, read_varint_len, write_varint};

fn encode(v: i32) -> Vec<u8> {
    let mut out = Vec::new();
    write_varint(&mut out, v);
    out
}

#[test]
fn varint_round_trip() {
    let values = [
        0, 1, 2, 127, 128, 255, 300, 16383, 16384, 2097151, 2097152, 25565, 760,
        i32::MAX, -1, -2, -128, i32::MIN, 0x1234_5678, -0x1234_5678,
    ];
    for v in values {
        let bytes = encode(v);
        assert!(bytes.len() >= 1 && bytes.len() <= 5);
        assert_eq!(read_varint_len(&bytes), Ok((bytes.len() as u32, v)));
    }
}

#[test]
fn varint_known_encodings() {
    assert_eq!(encode(0), vec![0x00]);
    assert_eq!(encode(1), vec![0x01]);
    assert_eq!(encode(127), vec![0x7f]);
    assert_eq!(encode(128), vec![0x80, 0x01]);
    assert_eq!(encode(255), vec![0xff, 0x01]);
    assert_eq!(encode(25565), vec![0xdd, 0xc7, 0x01]);
    assert_eq!(encode(2097151), vec![0xff, 0xff, 0x7f]);
    assert_eq!(encode(i32::MAX), vec![0xff, 0xff, 0xff, 0xff, 0x07]);
    assert_eq!(encode(-1), vec![0xff, 0xff, 0xff, 0xff, 0x0f]);
    assert_eq!(encode(i32::MIN), vec![0x80, 0x80, 0x80, 0x80, 0x08]);
}

#[test]
fn varint_write_appends() {
    let mut out = vec![9u8];
    write_varint(&mut out, 300);
    assert_eq!(out, vec![9, 0xac, 0x02]);
}

#[test]
fn varint_decode_stops_at_terminator() {
    assert_eq!(read_varint_len(&[0xac, 0x02, 0xff, 0xff]), Ok((2, 300)));
    assert_eq!(read_varint_at(&[0x00, 0xac, 0x02], 1), Ok((2, 300)));
}

#[test]
fn varint_fifth_byte_high_bits_dropped() {
    assert_eq!(read_varint_len(&[0xff, 0xff, 0xff, 0xff, 0x7f]), Ok((5, -1)));
}

#[test]
fn varint_overlong_rejected() {
    assert_eq!(
        read_varint_len(&[0x80, 0x80, 0x80, 0x80, 0x80, 0x00]),
        Err(ProtocolError::Malformed)
    );
    assert_eq!(
        read_varint_len(&[0xff, 0xff, 0xff, 0xff, 0xff, 0xff, 0x01]),
        Err(ProtocolError::Malformed)
    );
}

#[test]
fn varint_ending_early_rejected() {
    assert_eq!(read_varint_len(&[]), Err(ProtocolError::Malformed));
    assert_eq!(read_varint_len(&[0x80, 0x80]), Err(ProtocolError::Malformed));
}

#[test]
fn framing_round_trip() {
    for len in [0usize, 1, 127, 128, 300, 16384, 1 << 21] {
        let payload: Vec<u8> = (0..len).map(|i| (i % 251) as u8).collect();
        let mut wire = Vec::new();
        send_prefixed_packet(&mut wire, &payload);
        wire.extend_from_slice(&[7, 7, 7]);
        let (end, back) = read_packet(&wire).unwrap();
        assert_eq!(back, payload);
        assert_eq!(end, wire.len() - 3);
    }
}

#[test]
fn framing_prefix_bytes() {
    let mut wire = Vec::new();
    send_prefixed_packet(&mut wire, &[1, 2, 3]);
    assert_eq!(wire, vec![3, 1, 2, 3]);
}

#[test]
fn framing_truncated_and_malformed() {
    assert_eq!(read_packet(&[5, 1, 2]), Err(ProtocolError::Truncated));
    assert_eq!(read_packet(&[0x80]), Err(ProtocolError::Malformed));
    assert_eq!(read_packet(&[0xff, 0xff, 0xff, 0xff, 0x0f]), Err(ProtocolError::Malformed));
}
