use vstd::prelude::*;
use vstd::string::StringSliceAdditionalSpecFns;
use crate::protocol::{frame_bytes, encode_frame, spec_read_string, PacketReader};
use crate::serialization::{be_bytes, be_value};
use crate::text::utf8_lossy_of;
use crate::varint::{spec_read_varint, u32_of_i32, varint_bytes, DecodeError};

verus! {

/// The one protocol version this server accepts: Minecraft Java 1.21.7.
pub const NETWORK_VALID_PROTOCOL_VERSION: i32 = 772;

/// True of the bytes a username may hold: ASCII letters, digits, underscore.
pub open spec fn is_username_byte(b: u8) -> bool {
    ||| (0x30 <= b <= 0x39)
    ||| (0x41 <= b <= 0x5a)
    ||| (0x61 <= b <= 0x7a)
    ||| b == 0x5f
}

/// A valid username: one to sixteen bytes, all letters, digits or underscore.
pub open spec fn spec_valid_username(s: Seq<u8>) -> bool {
    &&& 1 <= s.len() <= 16
    &&& forall|i: int| 0 <= i < s.len() ==> is_username_byte(#[trigger] s[i])
}

/// Check a username: non-empty, at most sixteen bytes, only ASCII letters,
/// digits and underscores.
pub fn is_valid_username(username: &str) -> (r: bool)
    ensures
        r == spec_valid_username(username.spec_bytes()),
{
    let bytes = username.as_bytes();
    if bytes.len() == 0 || bytes.len() > 16 {
        return false;
    }
    let mut i: usize = 0;
    while i < bytes.len()
        invariant
            bytes@ == username.spec_bytes(),
            i <= bytes@.len(),
            forall|j: int| 0 <= j < i ==> is_username_byte(#[trigger] bytes@[j]),
        decreases bytes@.len() - i,
    {
        let b = bytes[i];
        let ok = (b >= 0x30 && b <= 0x39) || (b >= 0x41 && b <= 0x5a) || (b >= 0x61 && b <= 0x7a)
            || b == 0x5f;
        if !ok {
            return false;
        }
        i = i + 1;
    }
    true
}

/// The offline UUID a username derives: a function of the name alone, so
/// the same name always maps to the same UUID.
pub uninterp spec fn offline_uuid_of(name: Seq<u8>) -> u128;

/// Relies on uuid::Uuid::new_v3: the version-3 (MD5-based) UUID of the DNS
/// namespace and the byte string "OfflinePlayer:" + username. The result
/// depends on the arguments alone.
#[verifier::external_body]
fn uuid_v3_offline(username: &str) -> (r: u128)
    ensures
        r == offline_uuid_of(username.spec_bytes()),
{
    let name = format!("OfflinePlayer:{}", username);
    uuid::Uuid::new_v3(&uuid::Uuid::NAMESPACE_DNS, name.as_bytes()).as_u128()
}

/// Deriving an offline UUID is a pure function of the username: equal names
/// give equal UUIDs, in every process and on every machine.
pub proof fn lemma_offline_uuid_deterministic(a: Seq<u8>, b: Seq<u8>)
    requires
        a == b,
    ensures
        offline_uuid_of(a) == offline_uuid_of(b),
{
}

/// A logged-in player: the accepted username and its offline UUID.
#[derive(Debug)]
pub struct PlayerLogin {
    pub username: String,
    pub uuid: u128,
}

/// Log a username in offline mode: a valid name gets its derived UUID,
/// an invalid one is rejected.
pub fn offline_login(username: &str) -> (r: Option<PlayerLogin>)
    ensures
        r is Some <==> spec_valid_username(username.spec_bytes()),
        r matches Some(p) ==> p.username@ == username@ && p.uuid == offline_uuid_of(
            username.spec_bytes(),
        ),
{
    if !is_valid_username(username) {
        return None;
    }
    let uuid = uuid_v3_offline(username);
    Some(PlayerLogin { username: username.to_owned(), uuid })
}

/// One byte JSON-escaped: backslash, quote, newline, carriage return and
/// tab become two-byte escapes; everything else passes through.
pub open spec fn json_escaped_byte(b: u8) -> Seq<u8> {
    if b == 0x5c {
        seq![0x5cu8, 0x5cu8]
    } else if b == 0x22 {
        seq![0x5cu8, 0x22u8]
    } else if b == 0x0a {
        seq![0x5cu8, 0x6eu8]
    } else if b == 0x0d {
        seq![0x5cu8, 0x72u8]
    } else if b == 0x09 {
        seq![0x5cu8, 0x74u8]
    } else {
        seq![b]
    }
}

/// A byte string JSON-escaped.
pub open spec fn json_escaped(s: Seq<u8>) -> Seq<u8>
    decreases s.len(),
{
    if s.len() == 0 {
        Seq::empty()
    } else {
        json_escaped(s.drop_last()) + json_escaped_byte(s.last())
    }
}

/// Escaping at most doubles a string.
pub proof fn lemma_json_escaped_len(s: Seq<u8>)
    ensures
        json_escaped(s).len() <= 2 * s.len(),
    decreases s.len(),
{
    if s.len() > 0 {
        lemma_json_escaped_len(s.drop_last());
    }
}

/// JSON-escape a byte string.
pub fn escape_json(data: &[u8]) -> (r: Vec<u8>)
    ensures
        r@ == json_escaped(data@),
{
    let mut out: Vec<u8> = Vec::new();
    let mut i: usize = 0;
    while i < data.len()
        invariant
            i <= data@.len(),
            out@ == json_escaped(data@.take(i as int)),
        decreases data@.len() - i,
    {
        proof {
            assert(data@.take(i + 1).drop_last() =~= data@.take(i as int));
            assert(data@.take(i + 1).last() == data@[i as int]);
        }
        let b = data[i];
        if b == 0x5c {
            out.push(0x5c);
            out.push(0x5c);
        } else if b == 0x22 {
            out.push(0x5c);
            out.push(0x22);
        } else if b == 0x0a {
            out.push(0x5c);
            out.push(0x6e);
        } else if b == 0x0d {
            out.push(0x5c);
            out.push(0x72);
        } else if b == 0x09 {
            out.push(0x5c);
            out.push(0x74);
        } else {
            out.push(b);
        }
        proof {
            assert(out@ =~= json_escaped(data@.take(i + 1)));
        }
        i = i + 1;
    }
    proof {
        assert(data@.take(data@.len() as int) =~= data@);
    }
    out
}

/// The JSON text component carrying a disconnect reason:
/// `{"text":"<escaped reason>"}` as bytes.
pub open spec fn disconnect_json(reason: Seq<u8>) -> Seq<u8> {
    seq![0x7bu8, 0x22u8, 0x74u8, 0x65u8, 0x78u8, 0x74u8, 0x22u8, 0x3au8, 0x22u8] + json_escaped(
        reason,
    ) + seq![0x22u8, 0x7du8]
}

/// The Disconnect payload: the JSON component as a length-prefixed string.
pub open spec fn disconnect_payload_bytes(reason: Seq<u8>) -> Seq<u8> {
    varint_bytes(disconnect_json(reason).len()) + disconnect_json(reason)
}

/// Build the Disconnect payload for a reason.
pub fn disconnect_payload(reason: &str) -> (r: Vec<u8>)
    requires
        reason.spec_bytes().len() <= 0x3f00_0000,
    ensures
        r@ == disconnect_payload_bytes(reason.spec_bytes()),
{
    let bytes = reason.as_bytes();
    let mut json: Vec<u8> = Vec::new();
    json.push(0x7b);
    json.push(0x22);
    json.push(0x74);
    json.push(0x65);
    json.push(0x78);
    json.push(0x74);
    json.push(0x22);
    json.push(0x3a);
    json.push(0x22);
    let mut escaped = escape_json(bytes);
    proof {
        lemma_json_escaped_len(reason.spec_bytes());
    }
    json.append(&mut escaped);
    json.push(0x22);
    json.push(0x7d);
    proof {
        assert(json@ =~= disconnect_json(reason.spec_bytes()));
        assert(u32_of_i32(json@.len() as i32) == json@.len());
    }
    let mut out = crate::varint::write_varint(json.len() as i32);
    out.append(&mut json);
    out
}

/// The framed Login-state Disconnect packet (id 0x00) for a reason.
pub fn login_disconnect_frame(reason: &str) -> (r: Vec<u8>)
    requires
        reason.spec_bytes().len() <= 0x3f00_0000,
    ensures
        r@ == frame_bytes(0x00, disconnect_payload_bytes(reason.spec_bytes())),
{
    let payload = disconnect_payload(reason);
    proof {
        lemma_json_escaped_len(reason.spec_bytes());
        crate::varint::lemma_varint_bytes_len(u32_of_i32(disconnect_json(
            reason.spec_bytes(),
        ).len() as i32));
    }
    encode_frame(0x00, payload.as_slice())
}

/// The Login Success payload: the UUID's sixteen raw bytes, the username
/// as a length-prefixed string, and an empty property array.
pub open spec fn login_success_payload_bytes(uuid: u128, username: Seq<u8>) -> Seq<u8> {
    be_bytes(uuid as nat, 16) + varint_bytes(username.len()) + username + varint_bytes(0)
}

/// Build the Login Success payload.
pub fn login_success_payload(uuid: u128, username: &str) -> (r: Vec<u8>)
    requires
        username.spec_bytes().len() <= 16,
    ensures
        r@ == login_success_payload_bytes(uuid, username.spec_bytes()),
{
    let mut w = crate::protocol::PacketWriter::new();
    w.write_uuid(uuid);
    w.write_string(username);
    w.write_varint(0);
    let out = w.finish();
    proof {
        assert(u32_of_i32(0i32) == 0);
        assert(out@ =~= login_success_payload_bytes(uuid, username.spec_bytes()));
    }
    out
}

/// The framed Login Success packet (id 0x02).
pub fn login_success_frame(uuid: u128, username: &str) -> (r: Vec<u8>)
    requires
        username.spec_bytes().len() <= 16,
    ensures
        r@ == frame_bytes(0x02, login_success_payload_bytes(uuid, username.spec_bytes())),
{
    let payload = login_success_payload(uuid, username);
    proof {
        crate::varint::lemma_varint_bytes_len(username.spec_bytes().len());
        crate::varint::lemma_varint_bytes_len(0);
    }
    encode_frame(0x02, payload.as_slice())
}

/// A parsed Handshake: protocol version, server address, server port and
/// the requested next state.
pub struct Handshake {
    pub protocol_version: i32,
    pub server_address: String,
    pub server_port: u16,
    pub next_state: i32,
}

/// What parsing a Handshake packet body yields: the packet id must be 0,
/// then a varint protocol version, a string address, a two-byte port and a
/// varint next state of 1 (status) or 2 (login).
pub open spec fn spec_parse_handshake(data: Seq<u8>) -> Result<
    (i32, Seq<char>, nat, i32),
    DecodeError,
> {
    match spec_read_varint(data) {
        Err(e) => Err(e),
        Ok((id, n0)) => if id != 0 {
            Err(DecodeError::BadFrame)
        } else {
            let s1 = data.skip(n0 as int);
            match spec_read_varint(s1) {
                Err(e) => Err(e),
                Ok((pv, n1)) => {
                    let s2 = s1.skip(n1 as int);
                    match spec_read_string(s2) {
                        Err(e) => Err(e),
                        Ok((addr, n2)) => {
                            let s3 = s2.skip(n2 as int);
                            if s3.len() < 2 {
                                Err(DecodeError::UnexpectedEnd)
                            } else {
                                let port = be_value(s3.take(2));
                                match spec_read_varint(s3.skip(2)) {
                                    Err(e) => Err(e),
                                    Ok((next, _)) => if next == 1 || next == 2 {
                                        Ok((pv, addr, port, next))
                                    } else {
                                        Err(DecodeError::BadFrame)
                                    },
                                }
                            }
                        },
                    }
                },
            }
        },
    }
}

/// Parse a Handshake packet body (the bytes after the frame length).
pub fn parse_handshake(data: &[u8]) -> (r: Result<Handshake, DecodeError>)
    ensures
        match spec_parse_handshake(data@) {
            Err(e) => r == Err::<Handshake, DecodeError>(e),
            Ok((pv, addr, port, next)) => r matches Ok(h) && h.protocol_version == pv
                && h.server_address@ == addr && h.server_port == port && h.next_state == next,
        },
{
    let mut reader = PacketReader::new(data);
    proof {
        assert(reader.rest() =~= data@);
    }
    let packet_id = match reader.read_varint() {
        Ok(v) => v,
        Err(e) => {
            return Err(e);
        },
    };
    if packet_id != 0 {
        return Err(DecodeError::BadFrame);
    }
    let ghost s1 = data@.skip(reader.pos as int);
    proof {
        assert(s1 =~= reader.rest());
    }
    let protocol_version = match reader.read_varint() {
        Ok(v) => v,
        Err(e) => {
            return Err(e);
        },
    };
    let ghost s2 = data@.skip(reader.pos as int);
    proof {
        assert(s2 =~= reader.rest());
        assert(s2 =~= s1.skip(spec_read_varint(s1).unwrap().1 as int));
    }
    let server_address = match reader.read_string() {
        Ok(v) => v,
        Err(e) => {
            return Err(e);
        },
    };
    let ghost s3 = data@.skip(reader.pos as int);
    proof {
        assert(s3 =~= reader.rest());
        assert(s3 =~= s2.skip(spec_read_string(s2).unwrap().1 as int));
    }
    let server_port = match reader.read_unsigned_short() {
        Ok(v) => v,
        Err(e) => {
            return Err(e);
        },
    };
    let ghost s4 = data@.skip(reader.pos as int);
    proof {
        assert(s4 =~= reader.rest());
        assert(s4 =~= s3.skip(2));
    }
    let next_state = match reader.read_varint() {
        Ok(v) => v,
        Err(e) => {
            return Err(e);
        },
    };
    if next_state != 1 && next_state != 2 {
        return Err(DecodeError::BadFrame);
    }
    Ok(Handshake { protocol_version, server_address, server_port, next_state })
}

/// What parsing a Login Start packet body yields: the packet id must be 0,
/// then the username as a string of one to sixteen bytes.
pub open spec fn spec_parse_login_start(data: Seq<u8>) -> Result<Seq<char>, DecodeError> {
    match spec_read_varint(data) {
        Err(e) => Err(e),
        Ok((id, n0)) => if id != 0 {
            Err(DecodeError::BadFrame)
        } else {
            let s1 = data.skip(n0 as int);
            match spec_read_varint(s1) {
                Err(e) => Err(e),
                Ok((len, n1)) => if len < 1 || len > 16 {
                    Err(DecodeError::BadFrame)
                } else if n1 + len > s1.len() {
                    Err(DecodeError::UnexpectedEnd)
                } else {
                    Ok(utf8_lossy_of(s1.subrange(n1 as int, n1 + len)))
                },
            }
        },
    }
}

/// Parse a Login Start packet body: the username, rejected when empty or
/// over sixteen bytes.
pub fn parse_login_start(data: &[u8]) -> (r: Result<String, DecodeError>)
    ensures
        match spec_parse_login_start(data@) {
            Err(e) => r == Err::<String, DecodeError>(e),
            Ok(name) => r matches Ok(s) && s@ == name,
        },
{
    let mut reader = PacketReader::new(data);
    proof {
        assert(reader.rest() =~= data@);
    }
    let packet_id = match reader.read_varint() {
        Ok(v) => v,
        Err(e) => {
            return Err(e);
        },
    };
    if packet_id != 0 {
        return Err(DecodeError::BadFrame);
    }
    let ghost s1 = data@.skip(reader.pos as int);
    proof {
        assert(s1 =~= reader.rest());
    }
    let len = match reader.read_varint() {
        Ok(v) => v,
        Err(e) => {
            return Err(e);
        },
    };
    if len < 1 || len > 16 {
        return Err(DecodeError::BadFrame);
    }
    let name = match reader.read_bytes(len as usize) {
        Ok(v) => v,
        Err(_) => {
            return Err(DecodeError::UnexpectedEnd);
        },
    };
    proof {
        let n = spec_read_varint(s1).unwrap().1 as int;
        assert(name@ =~= s1.subrange(n, n + len));
    }
    Ok(crate::text::string_from_utf8_lossy(&name))
}

} // verus!
