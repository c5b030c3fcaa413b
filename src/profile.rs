use vstd::prelude::*;

verus! {

/// Longest display name, spoofed hostname or spoofed client address a profile accepts.
pub const MAX_FIELD_LEN: usize = 0x1000_0000;

/// The 16 bytes that the uuid crate reads from the text `s`, or `None` where `s` is not a UUID.
pub uninterp spec fn uuid_text_bytes(s: Seq<char>) -> Option<Seq<u8>>;

/// Lowercase ASCII hexadecimal digit of a value under 16.
pub open spec fn hex_digit(n: int) -> u8 {
    if n < 10 {
        (48 + n) as u8
    } else {
        (87 + n) as u8
    }
}

/// Two lowercase hexadecimal digits per byte, high nibble first, no separators.
pub open spec fn hex_lower(b: Seq<u8>) -> Seq<u8>
    decreases b.len(),
{
    if b.len() == 0 {
        Seq::empty()
    } else {
        seq![hex_digit(b[0] as int / 16), hex_digit(b[0] as int % 16)] + hex_lower(b.drop_first())
    }
}

/// Two digits per byte.
pub proof fn lemma_hex_len(b: Seq<u8>)
    ensures
        hex_lower(b).len() == 2 * b.len(),
    decreases b.len(),
{
    if b.len() > 0 {
        lemma_hex_len(b.drop_first());
    }
}

/// Relies on uuid::Uuid::parse_str, which accepts the simple, hyphenated, braced and URN forms.
#[verifier::external_body]
fn parse_uuid(s: &str) -> (r: Option<[u8; 16]>)
    ensures
        match r {
            Some(b) => uuid_text_bytes(s@) == Some(b@),
            None => uuid_text_bytes(s@) is None,
        },
{
    uuid::Uuid::parse_str(s).ok().map(|u| *u.as_bytes())
}

/// Relies on uuid::Uuid::simple and its Display: 32 lowercase hexadecimal digits of the bytes.
#[verifier::external_body]
fn uuid_simple_hex(id: &[u8; 16]) -> (r: Vec<u8>)
    ensures
        r@ == hex_lower(id@),
{
    uuid::Uuid::from_bytes(*id).simple().to_string().into_bytes()
}

/// The string member "id" of the JSON object in `text`; `None` where `text` is not JSON or
/// holds no such string member.
pub uninterp spec fn json_id_member(text: Seq<char>) -> Option<Seq<char>>;

/// Relies on serde_json::from_str into a Value, then Value::get("id") and Value::as_str:
/// the identity lookup service answers with a JSON object whose "id" member is the identifier.
#[verifier::external_body]
fn lookup_id_member(text: &str) -> (r: Option<String>)
    ensures
        match r {
            Some(s) => json_id_member(text@) == Some(s@),
            None => json_id_member(text@) is None,
        },
{
    let v: serde_json::Value = serde_json::from_str(text).ok()?;
    v.get("id")?.as_str().map(String::from)
}

/// `r` is what building a profile from these fields gives.
pub open spec fn built_from(
    r: Result<SpoofProfile, ProfileError>,
    display_name: Seq<u8>,
    identifier: Seq<char>,
    hostname: Seq<u8>,
    client_ip: Seq<u8>,
) -> bool {
    match r {
        Ok(p) => {
            &&& p.wf()
            &&& uuid_text_bytes(identifier) == Some(p.identifier@)
            &&& p.display_name@ == display_name
            &&& p.hostname@ == hostname
            &&& p.client_ip@ == client_ip
        },
        Err(e) => e == (if uuid_text_bytes(identifier) is None {
            ProfileError::BadIdentifier
        } else {
            ProfileError::FieldTooLong
        }) && (uuid_text_bytes(identifier) is None || display_name.len() > MAX_FIELD_LEN
            || hostname.len() > MAX_FIELD_LEN || client_ip.len() > MAX_FIELD_LEN),
    }
}

/// Why a spoof profile cannot be built.
#[derive(Debug, Clone, Copy, PartialEq, Eq, Structural)]
pub enum ProfileError {
    /// The identifier text is not a UUID.
    BadIdentifier,
    /// A name or address is longer than `MAX_FIELD_LEN` bytes.
    FieldTooLong,
    /// The identity lookup's response holds no identifier.
    LookupFailed,
}

/// The identity presented to the upstream server in place of the client's.
pub struct SpoofProfile {
    /// Display name written into the login-start packet (UTF-8).
    pub display_name: Vec<u8>,
    /// Canonical 16-byte identifier.
    pub identifier: [u8; 16],
    /// Hostname written into the handshake (UTF-8).
    pub hostname: Vec<u8>,
    /// Client address written into the handshake (UTF-8).
    pub client_ip: Vec<u8>,
}

impl SpoofProfile {
    /// Every field fits in a packet with room to spare.
    pub open spec fn wf(&self) -> bool {
        &&& self.display_name@.len() <= MAX_FIELD_LEN
        &&& self.hostname@.len() <= MAX_FIELD_LEN
        &&& self.client_ip@.len() <= MAX_FIELD_LEN
    }

    /// Hostname field of a spoofed login handshake: hostname, client address and the
    /// identifier in hexadecimal, separated by NUL bytes.
    pub open spec fn forwarded_host(&self) -> Seq<u8> {
        self.hostname@ + seq![0u8] + self.client_ip@ + seq![0u8] + hex_lower(self.identifier@)
    }

    /// Builds a profile from a display name, a UUID in text, a hostname and a client address.
    pub fn new(display_name: Vec<u8>, identifier: &str, hostname: Vec<u8>, client_ip: Vec<u8>) -> (r:
        Result<SpoofProfile, ProfileError>)
        ensures
            built_from(r, display_name@, identifier@, hostname@, client_ip@),
    {
        let id = match parse_uuid(identifier) {
            Some(b) => b,
            None => return Err(ProfileError::BadIdentifier),
        };
        if display_name.len() > MAX_FIELD_LEN || hostname.len() > MAX_FIELD_LEN || client_ip.len()
            > MAX_FIELD_LEN {
            return Err(ProfileError::FieldTooLong);
        }
        Ok(SpoofProfile { display_name, identifier: id, hostname, client_ip })
    }

    /// Builds a profile whose identifier is taken from the identity lookup service's response
    /// (a JSON object with the identifier as its "id" member).
    pub fn from_lookup(
        display_name: Vec<u8>,
        response: &str,
        hostname: Vec<u8>,
        client_ip: Vec<u8>,
    ) -> (r: Result<SpoofProfile, ProfileError>)
        ensures
            match json_id_member(response@) {
                Some(t) => built_from(r, display_name@, t, hostname@, client_ip@),
                None => r is Err && r->Err_0 == ProfileError::LookupFailed,
            },
    {
        match lookup_id_member(response) {
            Some(t) => SpoofProfile::new(display_name, t.as_str(), hostname, client_ip),
            None => Err(ProfileError::LookupFailed),
        }
    }

    /// The hostname field of a spoofed login handshake.
    pub fn forwarded_hostname(&self) -> (r: Vec<u8>)
        ensures
            r@ == self.forwarded_host(),
    {
        let mut out: Vec<u8> = Vec::new();
        crate::framing::append_range(&mut out, self.hostname.as_slice(), 0, self.hostname.len());
        out.push(0u8);
        crate::framing::append_range(&mut out, self.client_ip.as_slice(), 0, self.client_ip.len());
        out.push(0u8);
        let hex = uuid_simple_hex(&self.identifier);
        crate::framing::append_range(&mut out, hex.as_slice(), 0, hex.len());
        assert(self.hostname@.subrange(0, self.hostname@.len() as int) =~= self.hostname@);
        assert(self.client_ip@.subrange(0, self.client_ip@.len() as int) =~= self.client_ip@);
        assert(hex@.subrange(0, hex@.len() as int) =~= hex@);
        assert(out@ =~= self.forwarded_host());
        out
    }
}

} // verus!
