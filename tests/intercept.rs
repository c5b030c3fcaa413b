use handshake_spoof::error::ProtocolError;
use handshake_spoof::framing::send_prefixed_packet;
use handshake_spoof::handshake::Handshake;
use handshake_spoof::intercept::{intercept, Phase};
use handshake_spoof::login::rewrite_login_start;
use handshake_spoof::profile::{ProfileError, SpoofProfile};
use handshake_spoof::varint::write_varint;

const IDENTIFIER: &str = "01020304-0506-0708-0910-111213141516";
const IDENTIFIER_BYTES: [u8; 16] = [
    0x01, 0x02, 0x03, 0x04, 0x05, 0x06, 0x07, 0x08, 0x09, 0x10, 0x11, 0x12, 0x13, 0x14, 0x15, 0x16,
];

fn profile() -> SpoofProfile {
    SpoofProfile::new(
        b"Bob".to_vec(),
        IDENTIFIER,
        b"0.0.0.0".to_vec(),
        b"192.168.0.1".to_vec(),
    )
    .unwrap()
}

fn handshake_content(version: i32, host: &[u8], port: u16, next_state: i32) -> Vec<u8> {
    let mut c = Vec::new();
    write_varint(&mut c, 0);
    write_varint(&mut c, version);
    write_varint(&mut c, host.len() as i32);
    c.extend_from_slice(host);
    c.extend_from_slice(&port.to_be_bytes());
    write_varint(&mut c, next_state);
    c
}

fn framed(content: &[u8]) -> Vec<u8> {
    let mut out = Vec::new();
    send_prefixed_packet(&mut out, content);
    out
}

fn login_start_content(name: &[u8], tail: &[u8]) -> Vec<u8> {
    let mut c = vec![0u8];
    write_varint(&mut c, name.len() as i32);
    c.extend_from_slice(name);
    c.extend_from_slice(tail);
    c
}

fn contains(hay: &[u8], needle: &[u8]) -> bool {
    hay.windows(needle.len()).any(|w| w == needle)
}

#[test]
fn status_handshake_forwarded_unchanged() {
    let data = framed(&handshake_content(760, b"play.example.com", 25565, 1));
    let r = intercept(&data, false, &profile()).unwrap().unwrap();
    assert_eq!(r.phase, Phase::Status);
    assert_eq!(r.consumed, data.len());
    assert_eq!(r.upstream, data);
}

#[test]
fn status_handshake_leaves_following_bytes() {
    let mut data = framed(&handshake_content(760, b"play.example.com", 25565, 1));
    let n = data.len();
    data.extend_from_slice(&[1, 0]);
    let r = intercept(&data, false, &profile()).unwrap().unwrap();
    assert_eq!(r.consumed, n);
    assert_eq!(r.upstream, data[..n].to_vec());
}

#[test]
fn login_handshake_hostname_spoofed() {
    let mut data = framed(&handshake_content(760, b"play.example.com", 25565, 2));
    let mut tail = vec![0u8, 1u8];
    tail.extend_from_slice(&[0xaa; 16]);
    data.extend(framed(&login_start_content(b"Alice", &tail)));
    let r = intercept(&data, false, &profile()).unwrap().unwrap();
    assert_eq!(r.phase, Phase::Login);
    assert_eq!(r.consumed, data.len());

    let host: &[u8] = b"0.0.0.0\x00192.168.0.1\x0001020304050607080910111213141516";
    let mut expected = framed(&handshake_content(760, host, 25565, 2));
    let mut login_tail = vec![0u8, 1u8];
    login_tail.extend_from_slice(&IDENTIFIER_BYTES);
    expected.extend(framed(&login_start_content(b"Bob", &login_tail)));
    assert_eq!(r.upstream, expected);

    let hs_len = r.upstream[0] as usize;
    let hs = Handshake::parse(&r.upstream[2..1 + hs_len]).unwrap();
    assert_eq!(hs.hostname, host.to_vec());
    assert_eq!(hs.port, 25565);
    assert_eq!(hs.protocol_version, 760);
    assert_eq!(hs.next_state, 2);
}

#[test]
fn login_start_name_replaced() {
    let mut data = framed(&handshake_content(760, b"play.example.com", 25565, 2));
    data.extend(framed(&login_start_content(b"Alice", &[0u8, 0u8])));
    let r = intercept(&data, true, &profile()).unwrap().unwrap();
    assert!(contains(&r.upstream, b"Bob"));
    assert!(!contains(&r.upstream, b"Alice"));
}

#[test]
fn login_start_signature_data_refused() {
    let mut data = framed(&handshake_content(760, b"play.example.com", 25565, 2));
    data.extend(framed(&login_start_content(b"Alice", &[1u8, 0u8])));
    assert_eq!(
        intercept(&data, true, &profile()).err(),
        Some(ProtocolError::UnsupportedFeature)
    );
}

#[test]
fn login_start_rewrite_by_version() {
    let id = IDENTIFIER_BYTES;
    let old = login_start_content(b"Alice", &[]);
    assert_eq!(
        rewrite_login_start(&old[1..], 758, b"Bob", &id),
        Ok(login_start_content(b"Bob", &[]))
    );
    let v759 = login_start_content(b"Alice", &[0, 0]);
    assert_eq!(
        rewrite_login_start(&v759[1..], 759, b"Bob", &id),
        Ok(login_start_content(b"Bob", &[0, 0]))
    );
    let v761 = login_start_content(b"Alice", &[0]);
    assert_eq!(
        rewrite_login_start(&v761[1..], 761, b"Bob", &id),
        Ok(login_start_content(b"Bob", &[0]))
    );
    let mut with_id = vec![1u8];
    with_id.extend_from_slice(&[0xee; 16]);
    let v761_id = login_start_content(b"Alice", &with_id);
    let mut expected_tail = vec![1u8];
    expected_tail.extend_from_slice(&id);
    assert_eq!(
        rewrite_login_start(&v761_id[1..], 761, b"Bob", &id),
        Ok(login_start_content(b"Bob", &expected_tail))
    );
    let short_id = login_start_content(b"Alice", &[1, 2, 3]);
    assert_eq!(
        rewrite_login_start(&short_id[1..], 761, b"Bob", &id),
        Err(ProtocolError::Truncated)
    );
}

#[test]
fn unknown_packet_passthrough() {
    let mut content = vec![0x05u8];
    content.extend(0u8..9);
    let data = framed(&content);
    assert_eq!(data[0], 10);
    let r = intercept(&data, false, &profile()).unwrap().unwrap();
    assert_eq!(r.phase, Phase::Unknown);
    assert_eq!(r.consumed, data.len());
    assert_eq!(r.upstream, data);
}

#[test]
fn unknown_packet_ten_byte_payload_passthrough() {
    let mut content = vec![0x05u8];
    content.extend(0u8..10);
    let data = framed(&content);
    let r = intercept(&data, false, &profile()).unwrap().unwrap();
    assert_eq!(r.upstream, data);
}

#[test]
fn legacy_ping_forwarded_verbatim() {
    let data = vec![0xfe, 0x01, 0xfa, 0x01, 0x00, 0x0b];
    let r = intercept(&data, false, &profile()).unwrap().unwrap();
    assert_eq!(r.phase, Phase::LegacyPing);
    assert_eq!(r.consumed, 4);
    assert_eq!(r.upstream, vec![0xfe, 0x01, 0xfa, 0x01]);
}

#[test]
fn partial_data_waits_or_fails() {
    let mut data = framed(&handshake_content(760, b"play.example.com", 25565, 2));
    let login = framed(&login_start_content(b"Alice", &[0u8, 0u8]));
    data.extend_from_slice(&login[..4]);
    assert!(intercept(&data, false, &profile()).unwrap().is_none());
    assert_eq!(intercept(&data, true, &profile()).err(), Some(ProtocolError::Truncated));
    assert!(intercept(&[0x80], false, &profile()).unwrap().is_none());
    assert_eq!(intercept(&[0x80], true, &profile()).err(), Some(ProtocolError::Malformed));
    assert!(intercept(&[], false, &profile()).unwrap().is_none());
}

#[test]
fn bad_next_state_refused() {
    let data = framed(&handshake_content(760, b"h", 1, 3));
    assert_eq!(
        intercept(&data, false, &profile()).err(),
        Some(ProtocolError::UnsupportedState)
    );
}

#[test]
fn login_followed_by_other_packet_refused() {
    let mut data = framed(&handshake_content(760, b"h", 1, 2));
    data.extend(framed(&[0x01, 0x00]));
    assert_eq!(
        intercept(&data, false, &profile()).err(),
        Some(ProtocolError::UnexpectedPacket)
    );
}

#[test]
fn overlong_length_refused() {
    let data = vec![0x80, 0x80, 0x80, 0x80, 0x80, 0x01];
    assert_eq!(intercept(&data, false, &profile()).err(), Some(ProtocolError::Malformed));
}

#[test]
fn handshake_truncated_inside_packet() {
    let data = framed(&[0x00, 0x01, 0x05, b'a']);
    assert_eq!(intercept(&data, false, &profile()).err(), Some(ProtocolError::Truncated));
}

#[test]
fn profile_identifier_forms() {
    let p = SpoofProfile::new(vec![], "0102030405060708090a0b0c0d0e0f10", vec![], vec![]).unwrap();
    assert_eq!(p.identifier, [1, 2, 3, 4, 5, 6, 7, 8, 9, 10, 11, 12, 13, 14, 15, 16]);
    assert_eq!(p.forwarded_hostname(), b"\x00\x000102030405060708090a0b0c0d0e0f10".to_vec());
    assert_eq!(profile().identifier, IDENTIFIER_BYTES);
}

#[test]
fn profile_errors() {
    assert_eq!(
        SpoofProfile::new(vec![], "not-a-uuid", vec![], vec![]).err(),
        Some(ProfileError::BadIdentifier)
    );
    assert_eq!(
        SpoofProfile::new(vec![0u8; 0x1000_0001], IDENTIFIER, vec![], vec![]).err(),
        Some(ProfileError::FieldTooLong)
    );
}

#[test]
fn profile_from_lookup_response() {
    let body = r#"{"name":"Bob","id":"0102030405060708090a0b0c0d0e0f10"}"#;
    let p = SpoofProfile::from_lookup(b"Bob".to_vec(), body, vec![], vec![]).unwrap();
    assert_eq!(p.identifier, [1, 2, 3, 4, 5, 6, 7, 8, 9, 10, 11, 12, 13, 14, 15, 16]);
    assert_eq!(
        SpoofProfile::from_lookup(b"Bob".to_vec(), r#"{"errorMessage":"x"}"#, vec![], vec![]).err(),
        Some(ProfileError::LookupFailed)
    );
    assert_eq!(
        SpoofProfile::from_lookup(b"Bob".to_vec(), "not json", vec![], vec![]).err(),
        Some(ProfileError::LookupFailed)
    );
    assert_eq!(
        SpoofProfile::from_lookup(b"Bob".to_vec(), r#"{"id":"zz"}"#, vec![], vec![]).err(),
        Some(ProfileError::BadIdentifier)
    );
}
