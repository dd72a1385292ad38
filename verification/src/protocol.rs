//! Parsing of the first WebSocket packet of a VLESS, Trojan or Shadowsocks
//! session: which protocol it is, where the client wants to go, and where
//! the payload that follows the header starts.
use vstd::prelude::*;
use vstd::utf8::{decode_utf8, encode_utf8, valid_utf8};
use crate::address::{ipv4_host, ipv4_text, ipv6_host, ipv6_text};
use crate::text::{decimal_text, lower_hex_of_bytes, push_decimal, push_str, to_lower_hex};

verus! {

/// The proxy protocol recognised in a first packet.
#[derive(Debug, Clone, Copy, PartialEq, Eq, Structural)]
pub enum ProtocolKind {
    Vless,
    Trojan,
    Shadowsocks,
}

/// Where the client wants to connect.
#[derive(Debug, Clone, PartialEq, Eq)]
pub struct Destination {
    pub host: String,
    pub port: u16,
}

/// A parsed first packet.
#[derive(Debug, Clone, PartialEq, Eq)]
pub struct ProxyRequest {
    pub protocol: ProtocolKind,
    pub destination: Destination,
    /// Index in the packet of the first payload byte after the header.
    pub payload_offset: usize,
    /// Bytes to send back to the client before relaying, if the protocol has any.
    pub handshake_response: Option<Vec<u8>>,
}

/// Why a first packet was refused.
#[derive(Debug, Clone, PartialEq, Eq)]
pub enum ProtocolError {
    /// The packet ends before a field that starts at `offset`.
    Truncated { protocol: &'static str, offset: usize },
    UnsupportedCommand { protocol: &'static str, command: u8 },
    UnsupportedAddress { protocol: &'static str, atyp: u8 },
    Authentication { protocol: &'static str },
    UnknownProtocol,
}

/// How an address-type byte is read: VLESS numbers the types 1, 2, 3;
/// Trojan and Shadowsocks use the SOCKS numbers 1, 3, 4.
#[derive(Debug, Clone, Copy, PartialEq, Eq, Structural)]
pub enum AddressMapping {
    Vless,
    Socks,
}

/// The three address forms a request can carry.
#[derive(Debug, Clone, Copy, PartialEq, Eq, Structural)]
pub enum AddressKind {
    Ipv4,
    Domain,
    Ipv6,
}

impl ProtocolError {
    /// A one-line description of the error.
    pub fn message(&self) -> (s: String)
        ensures
            s@ == match self {
                ProtocolError::Truncated { protocol, offset } => "packet is too short for "@
                    + protocol@ + " at offset "@ + decimal_text(*offset as nat),
                ProtocolError::UnsupportedCommand { protocol, command } => "unsupported "@
                    + protocol@ + " command "@ + decimal_text(*command as nat),
                ProtocolError::UnsupportedAddress { protocol, atyp } => "unsupported "@ + protocol@
                    + " address type "@ + decimal_text(*atyp as nat),
                ProtocolError::Authentication { protocol } => "authentication failed for "@
                    + protocol@,
                ProtocolError::UnknownProtocol => "unknown protocol"@,
            },
    {
        let mut s = String::new();
        match self {
            ProtocolError::Truncated { protocol, offset } => {
                push_str(&mut s, "packet is too short for ");
                push_str(&mut s, protocol);
                push_str(&mut s, " at offset ");
                push_decimal(&mut s, *offset as u64);
            },
            ProtocolError::UnsupportedCommand { protocol, command } => {
                push_str(&mut s, "unsupported ");
                push_str(&mut s, protocol);
                push_str(&mut s, " command ");
                push_decimal(&mut s, *command as u64);
            },
            ProtocolError::UnsupportedAddress { protocol, atyp } => {
                push_str(&mut s, "unsupported ");
                push_str(&mut s, protocol);
                push_str(&mut s, " address type ");
                push_decimal(&mut s, *atyp as u64);
            },
            ProtocolError::Authentication { protocol } => {
                push_str(&mut s, "authentication failed for ");
                push_str(&mut s, protocol);
            },
            ProtocolError::UnknownProtocol => {
                push_str(&mut s, "unknown protocol");
            },
        }
        s
    }
}

/// The mathematical content of a [`ProxyRequest`].
pub struct RequestModel {
    pub protocol: ProtocolKind,
    pub host: Seq<char>,
    pub port: u16,
    pub payload_offset: int,
    pub handshake_response: Option<Seq<u8>>,
}

impl View for ProxyRequest {
    type V = RequestModel;

    open spec fn view(&self) -> RequestModel {
        RequestModel {
            protocol: self.protocol,
            host: self.destination.host@,
            port: self.destination.port,
            payload_offset: self.payload_offset as int,
            handshake_response: match self.handshake_response {
                Some(v) => Some(v@),
                None => None,
            },
        }
    }
}

/// The content of a parse result.
pub open spec fn result_model(r: Result<ProxyRequest, ProtocolError>) -> Result<
    RequestModel,
    ProtocolError,
> {
    match r {
        Ok(req) => Ok(req@),
        Err(e) => Err(e),
    }
}

/// Text decoded from bytes with invalid UTF-8 sequences replaced by U+FFFD,
/// as std's `String::from_utf8_lossy` produces it.
pub uninterp spec fn utf8_lossy(bytes: Seq<u8>) -> Seq<char>;

/// The SHA-224 digest of `data`.
pub uninterp spec fn sha224_digest(data: Seq<u8>) -> Seq<u8>;

/// The hyphenated lowercase text of a UUID, `xxxxxxxx-xxxx-xxxx-xxxx-xxxxxxxxxxxx`.
pub open spec fn hyphenated_text(b: Seq<u8>) -> Seq<char> {
    lower_hex_of_bytes(b.subrange(0, 4)) + seq!['-'] + lower_hex_of_bytes(b.subrange(4, 6))
        + seq!['-'] + lower_hex_of_bytes(b.subrange(6, 8)) + seq!['-'] + lower_hex_of_bytes(
        b.subrange(8, 10),
    ) + seq!['-'] + lower_hex_of_bytes(b.subrange(10, 16))
}

/// The Trojan password of a UUID: the lowercase hex SHA-224 digest of its
/// hyphenated text.
pub open spec fn trojan_hash_text(uuid: Seq<u8>) -> Seq<char> {
    lower_hex_of_bytes(sha224_digest(encode_utf8(hyphenated_text(uuid))))
}

/// Replaces invalid UTF-8 in `bytes` with U+FFFD.
///
/// Calls std's `String::from_utf8_lossy`. Its result is named by
/// [`utf8_lossy`]; std documents that valid UTF-8 is returned unchanged,
/// which is the one further fact stated here.
#[verifier::external_body]
fn lossy_text(bytes: &[u8]) -> (s: String)
    ensures
        s@ == utf8_lossy(bytes@),
        valid_utf8(bytes@) ==> s@ == decode_utf8(bytes@),
{
    String::from_utf8_lossy(bytes).into_owned()
}

/// SHA-224 of `data`.
///
/// Calls `sha2::Sha224::digest`; the digest is named by [`sha224_digest`],
/// and its length, 28 bytes, is the array's.
#[verifier::external_body]
fn sha224(data: &[u8]) -> (d: [u8; 28])
    ensures
        d@ == sha224_digest(data@),
{
    <sha2::Sha224 as sha2::Digest>::digest(data).into()
}

/// The hyphenated text of a UUID given by its sixteen bytes.
///
/// Calls `uuid::Uuid::hyphenated` (through `Uuid::from_bytes` and
/// `to_string`), which writes the bytes in order as lowercase hex in groups
/// of 8, 4, 4, 4 and 12 digits separated by hyphens.
#[verifier::external_body]
fn uuid_hyphenated(bytes: [u8; 16]) -> (s: String)
    ensures
        s@ == hyphenated_text(bytes@),
{
    uuid::Uuid::from_bytes(bytes).hyphenated().to_string()
}

/// A truncation error of `protocol` at `offset`.
pub open spec fn truncated(protocol: &'static str, offset: int) -> ProtocolError {
    ProtocolError::Truncated { protocol, offset: offset as usize }
}

/// The big-endian 16-bit number of two bytes.
pub open spec fn be_u16(hi: u8, lo: u8) -> u16 {
    (hi * 256 + lo) as u16
}

/// The offset after an optional CRLF at `offset`.
pub open spec fn skip_crlf_at(packet: Seq<u8>, offset: int) -> int {
    if 0 <= offset && offset + 2 <= packet.len() && packet[offset] == 13 && packet[offset + 1]
        == 10 {
        offset + 2
    } else {
        offset
    }
}

/// The form of address an address-type byte selects, if any.
pub open spec fn address_kind(mapping: AddressMapping, atyp: u8) -> Option<AddressKind> {
    match mapping {
        AddressMapping::Vless => if atyp == 1 {
            Some(AddressKind::Ipv4)
        } else if atyp == 2 {
            Some(AddressKind::Domain)
        } else if atyp == 3 {
            Some(AddressKind::Ipv6)
        } else {
            None
        },
        AddressMapping::Socks => if atyp == 1 {
            Some(AddressKind::Ipv4)
        } else if atyp == 3 {
            Some(AddressKind::Domain)
        } else if atyp == 4 {
            Some(AddressKind::Ipv6)
        } else {
            None
        },
    }
}

/// The text of a domain name's bytes: the bytes decoded where they are valid
/// UTF-8, and otherwise with invalid sequences replaced by U+FFFD.
pub open spec fn domain_text(bytes: Seq<u8>) -> Seq<char> {
    if valid_utf8(bytes) {
        decode_utf8(bytes)
    } else {
        utf8_lossy(bytes)
    }
}

/// Where the offset stands after a failed address read: one past the start
/// when the length byte of a domain name was read, else where it was.
pub open spec fn address_error_offset(
    packet: Seq<u8>,
    offset: int,
    atyp: u8,
    mapping: AddressMapping,
) -> int {
    if address_kind(mapping, atyp) == Some(AddressKind::Domain) && offset < packet.len() {
        offset + 1
    } else {
        offset
    }
}

/// The host text of an address starting at `offset`, and the offset after it.
pub open spec fn spec_read_address(
    packet: Seq<u8>,
    offset: int,
    protocol: &'static str,
    atyp: u8,
    mapping: AddressMapping,
) -> Result<(Seq<char>, int), ProtocolError> {
    match address_kind(mapping, atyp) {
        Some(AddressKind::Ipv4) => if offset + 4 <= packet.len() {
            Ok((ipv4_text(packet.subrange(offset, offset + 4)), offset + 4))
        } else {
            Err(truncated(protocol, offset))
        },
        Some(AddressKind::Domain) => if offset < packet.len() {
            let start = offset + 1;
            let end = start + packet[offset];
            if end <= packet.len() {
                Ok((domain_text(packet.subrange(start, end)), end))
            } else {
                Err(truncated(protocol, start))
            }
        } else {
            Err(truncated(protocol, offset))
        },
        Some(AddressKind::Ipv6) => if offset + 16 <= packet.len() {
            Ok((ipv6_text(packet.subrange(offset, offset + 16)), offset + 16))
        } else {
            Err(truncated(protocol, offset))
        },
        None => Err(ProtocolError::UnsupportedAddress { protocol, atyp }),
    }
}

/// The VLESS header: version 0, the user's UUID, an options block, command 1
/// (TCP), port, then the address.
pub open spec fn spec_parse_vless(packet: Seq<u8>, uuid: Seq<u8>) -> Result<
    RequestModel,
    ProtocolError,
> {
    if packet.len() < 18 {
        Err(truncated("VLESS", 0))
    } else if packet[0] != 0 {
        Err(ProtocolError::UnsupportedCommand { protocol: "VLESS", command: packet[0] })
    } else if packet.subrange(1, 17) != uuid {
        Err(ProtocolError::Authentication { protocol: "VLESS" })
    } else {
        let at = 18 + packet[17];
        if packet.len() < at + 4 {
            Err(truncated("VLESS", at))
        } else if packet[at] != 1 {
            Err(ProtocolError::UnsupportedCommand { protocol: "VLESS", command: packet[at] })
        } else {
            match spec_read_address(packet, at + 4, "VLESS", packet[at + 3], AddressMapping::Vless) {
                Ok((host, end)) => Ok(
                    RequestModel {
                        protocol: ProtocolKind::Vless,
                        host,
                        port: be_u16(packet[at + 1], packet[at + 2]),
                        payload_offset: end,
                        handshake_response: Some(seq![0u8, 0u8]),
                    },
                ),
                Err(e) => Err(e),
            }
        }
    }
}

/// The Trojan header: the 56-character password hash, an optional CRLF,
/// command 1, a SOCKS address, port, and an optional CRLF.
pub open spec fn spec_parse_trojan(packet: Seq<u8>, expected: Seq<u8>) -> Result<
    RequestModel,
    ProtocolError,
> {
    if packet.len() < 58 {
        Err(truncated("Trojan", 0))
    } else if packet.subrange(0, 56) != expected {
        Err(ProtocolError::Authentication { protocol: "Trojan" })
    } else {
        let o1 = skip_crlf_at(packet, 56);
        if o1 >= packet.len() {
            Err(truncated("Trojan", o1))
        } else if packet[o1] != 1 {
            Err(ProtocolError::UnsupportedCommand { protocol: "Trojan", command: packet[o1] })
        } else if o1 + 1 >= packet.len() {
            Err(truncated("Trojan", o1 + 1))
        } else {
            match spec_read_address(packet, o1 + 2, "Trojan", packet[o1 + 1], AddressMapping::Socks) {
                Ok((host, o2)) => if o2 + 2 > packet.len() {
                    Err(truncated("Trojan", o2))
                } else {
                    Ok(
                        RequestModel {
                            protocol: ProtocolKind::Trojan,
                            host,
                            port: be_u16(packet[o2], packet[o2 + 1]),
                            payload_offset: skip_crlf_at(packet, o2 + 2),
                            handshake_response: None,
                        },
                    )
                },
                Err(e) => Err(e),
            }
        }
    }
}

/// The Shadowsocks header: a SOCKS address then the port.
pub open spec fn spec_parse_shadowsocks(packet: Seq<u8>) -> Result<RequestModel, ProtocolError> {
    if packet.len() == 0 {
        Err(truncated("Shadowsocks", 0))
    } else {
        match spec_read_address(packet, 1, "Shadowsocks", packet[0], AddressMapping::Socks) {
            Ok((host, o)) => if o + 2 > packet.len() {
                Err(truncated("Shadowsocks", o))
            } else {
                Ok(
                    RequestModel {
                        protocol: ProtocolKind::Shadowsocks,
                        host,
                        port: be_u16(packet[o], packet[o + 1]),
                        payload_offset: o + 2,
                        handshake_response: None,
                    },
                )
            },
            Err(e) => Err(e),
        }
    }
}

/// Whether a packet looks like VLESS: longer than 17 bytes, version byte 0.
pub open spec fn spec_is_vless_candidate(packet: Seq<u8>) -> bool {
    packet.len() > 17 && packet[0] == 0
}

/// Whether a packet is long enough to be Trojan.
pub open spec fn spec_is_trojan_candidate(packet: Seq<u8>) -> bool {
    packet.len() >= 58
}

/// Whether a packet starts with a SOCKS address type (1, 3 or 4).
pub open spec fn spec_is_shadowsocks_candidate(packet: Seq<u8>) -> bool {
    packet.len() > 0 && (packet[0] == 1 || packet[0] == 3 || packet[0] == 4)
}

/// The parse of a first packet: VLESS is tried first, then Trojan, then
/// Shadowsocks, by the first candidate test that matches.
pub open spec fn spec_parse_first_packet(packet: Seq<u8>, uuid: Seq<u8>) -> Result<
    RequestModel,
    ProtocolError,
> {
    if spec_is_vless_candidate(packet) {
        spec_parse_vless(packet, uuid)
    } else if spec_is_trojan_candidate(packet) {
        spec_parse_trojan(packet, encode_utf8(trojan_hash_text(uuid)))
    } else if spec_is_shadowsocks_candidate(packet) {
        spec_parse_shadowsocks(packet)
    } else {
        Err(ProtocolError::UnknownProtocol)
    }
}

/// Recognises the protocol of a first packet and parses its header.
pub fn parse_first_packet(packet: &[u8], uuid: [u8; 16]) -> (r: Result<ProxyRequest, ProtocolError>)
    ensures
        result_model(r) == spec_parse_first_packet(packet@, uuid@),
{
    if is_vless_candidate(packet) {
        return parse_vless(packet, uuid);
    }
    if is_trojan_candidate(packet) {
        return parse_trojan(packet, uuid);
    }
    if is_shadowsocks_candidate(packet) {
        return parse_shadowsocks(packet);
    }
    Err(ProtocolError::UnknownProtocol)
}

/// The Trojan password of a UUID: lowercase hex of the SHA-224 digest of the
/// UUID's hyphenated text.
pub fn trojan_password_hash(uuid: [u8; 16]) -> (s: String)
    ensures
        s@ == trojan_hash_text(uuid@),
        s@.len() == 56,
{
    let text = uuid_hyphenated(uuid);
    let digest = sha224(text.as_str().as_bytes());
    to_lower_hex(digest.as_slice())
}

fn parse_vless(packet: &[u8], uuid: [u8; 16]) -> (r: Result<ProxyRequest, ProtocolError>)
    ensures
        result_model(r) == spec_parse_vless(packet@, uuid@),
{
    let protocol = "VLESS";
    require_len(packet, 18, protocol, 0)?;
    if packet[0] != 0 {
        return Err(ProtocolError::UnsupportedCommand { protocol, command: packet[0] });
    }
    let mut i: usize = 0;
    while i < 16
        invariant
            packet@.len() >= 18,
            packet@[0] == 0,
            protocol == "VLESS",
            i <= 16,
            forall|j: int| 0 <= j < i ==> packet@[1 + j] == uuid@[j],
        decreases 16 - i,
    {
        if packet[1 + i] != uuid[i] {
            assert(packet@.subrange(1, 17)[i as int] != uuid@[i as int]);
            assert(packet@.subrange(1, 17) != uuid@);
            return Err(ProtocolError::Authentication { protocol });
        }
        i += 1;
    }
    assert(packet@.subrange(1, 17) == uuid@);
    let opt_len = packet[17] as usize;
    let mut offset = 18 + opt_len;
    require_len(packet, offset + 4, protocol, offset)?;
    let command = packet[offset];
    offset += 1;
    if command != 1 {
        return Err(ProtocolError::UnsupportedCommand { protocol, command });
    }
    let port = read_port(packet, &mut offset, protocol)?;
    let atyp = read_u8(packet, &mut offset, protocol)?;
    let host = read_address(packet, &mut offset, protocol, atyp, AddressMapping::Vless)?;
    Ok(
        ProxyRequest {
            protocol: ProtocolKind::Vless,
            destination: Destination { host, port },
            payload_offset: offset,
            handshake_response: Some(vec![0, 0]),
        },
    )
}

fn parse_trojan(packet: &[u8], uuid: [u8; 16]) -> (r: Result<ProxyRequest, ProtocolError>)
    ensures
        result_model(r) == spec_parse_trojan(packet@, encode_utf8(trojan_hash_text(uuid@))),
{
    if packet.len() < 58 {
        return Err(ProtocolError::Truncated { protocol: "Trojan", offset: 0 });
    }
    let expected = trojan_password_hash(uuid);
    parse_trojan_with_hash(packet, expected.as_str().as_bytes())
}

/// Parses a Trojan header whose password hash must equal `expected`.
pub fn parse_trojan_with_hash(packet: &[u8], expected: &[u8]) -> (r: Result<
    ProxyRequest,
    ProtocolError,
>)
    ensures
        result_model(r) == spec_parse_trojan(packet@, expected@),
{
    let protocol = "Trojan";
    require_len(packet, 58, protocol, 0)?;
    if expected.len() != 56 {
        assert(packet@.subrange(0, 56).len() != expected@.len());
        return Err(ProtocolError::Authentication { protocol });
    }
    let mut i: usize = 0;
    while i < 56
        invariant
            packet@.len() >= 58,
            expected@.len() == 56,
            protocol == "Trojan",
            i <= 56,
            forall|j: int| 0 <= j < i ==> packet@[j] == expected@[j],
        decreases 56 - i,
    {
        if packet[i] != expected[i] {
            assert(packet@.subrange(0, 56)[i as int] != expected@[i as int]);
            assert(packet@.subrange(0, 56) != expected@);
            return Err(ProtocolError::Authentication { protocol });
        }
        i += 1;
    }
    assert(packet@.subrange(0, 56) == expected@);
    let mut offset: usize = 56;
    skip_crlf(packet, &mut offset);
    let command = read_u8(packet, &mut offset, protocol)?;
    if command != 1 {
        return Err(ProtocolError::UnsupportedCommand { protocol, command });
    }
    let atyp = read_u8(packet, &mut offset, protocol)?;
    let host = read_address(packet, &mut offset, protocol, atyp, AddressMapping::Socks)?;
    let port = read_port(packet, &mut offset, protocol)?;
    skip_crlf(packet, &mut offset);
    Ok(
        ProxyRequest {
            protocol: ProtocolKind::Trojan,
            destination: Destination { host, port },
            payload_offset: offset,
            handshake_response: None,
        },
    )
}

/// Parses a Shadowsocks header: a SOCKS address then the port.
pub fn parse_shadowsocks(packet: &[u8]) -> (r: Result<ProxyRequest, ProtocolError>)
    ensures
        result_model(r) == spec_parse_shadowsocks(packet@),
{
    let protocol = "Shadowsocks";
    let mut offset: usize = 0;
    let atyp = read_u8(packet, &mut offset, protocol)?;
    let host = read_address(packet, &mut offset, protocol, atyp, AddressMapping::Socks)?;
    let port = read_port(packet, &mut offset, protocol)?;
    Ok(
        ProxyRequest {
            protocol: ProtocolKind::Shadowsocks,
            destination: Destination { host, port },
            payload_offset: offset,
            handshake_response: None,
        },
    )
}

/// Whether a packet looks like VLESS.
pub fn is_vless_candidate(packet: &[u8]) -> (b: bool)
    ensures
        b == spec_is_vless_candidate(packet@),
{
    packet.len() > 17 && packet[0] == 0
}

/// Whether a packet is long enough to be Trojan.
pub fn is_trojan_candidate(packet: &[u8]) -> (b: bool)
    ensures
        b == spec_is_trojan_candidate(packet@),
{
    packet.len() >= 58
}

/// Whether a packet starts with a SOCKS address type.
pub fn is_shadowsocks_candidate(packet: &[u8]) -> (b: bool)
    ensures
        b == spec_is_shadowsocks_candidate(packet@),
{
    packet.len() > 0 && (packet[0] == 1 || packet[0] == 3 || packet[0] == 4)
}

/// Reads one byte at `offset` and advances past it.
pub fn read_u8(packet: &[u8], offset: &mut usize, protocol: &'static str) -> (r: Result<
    u8,
    ProtocolError,
>)
    ensures
        *old(offset) < packet@.len() ==> r == Ok::<u8, ProtocolError>(packet@[*old(offset) as int])
            && *final(offset) == *old(offset) + 1,
        *old(offset) >= packet@.len() ==> r == Err::<u8, ProtocolError>(
            truncated(protocol, *old(offset) as int),
        ) && *final(offset) == *old(offset),
{
    if *offset >= packet.len() {
        return Err(ProtocolError::Truncated { protocol, offset: *offset });
    }
    let value = packet[*offset];
    *offset += 1;
    Ok(value)
}

/// Reads a big-endian port at `offset` and advances past it.
pub fn read_port(packet: &[u8], offset: &mut usize, protocol: &'static str) -> (r: Result<
    u16,
    ProtocolError,
>)
    ensures
        *old(offset) + 2 <= packet@.len() ==> r == Ok::<u16, ProtocolError>(
            be_u16(packet@[*old(offset) as int], packet@[*old(offset) + 1]),
        ) && *final(offset) == *old(offset) + 2,
        *old(offset) + 2 > packet@.len() ==> r == Err::<u16, ProtocolError>(
            truncated(protocol, *old(offset) as int),
        ) && *final(offset) == *old(offset),
{
    if *offset > packet.len() || packet.len() - *offset < 2 {
        return Err(ProtocolError::Truncated { protocol, offset: *offset });
    }
    let port = (packet[*offset] as u16) * 256 + (packet[*offset + 1] as u16);
    *offset += 2;
    Ok(port)
}

/// Skips a CRLF at `offset`, if there is one.
pub fn skip_crlf(packet: &[u8], offset: &mut usize)
    ensures
        *final(offset) == skip_crlf_at(packet@, *old(offset) as int),
{
    if *offset <= packet.len() && packet.len() - *offset >= 2 && packet[*offset] == 13
        && packet[*offset + 1] == 10 {
        *offset += 2;
    }
}

fn require_len(packet: &[u8], required: usize, protocol: &'static str, offset: usize) -> (r: Result<
    (),
    ProtocolError,
>)
    ensures
        r == (if packet@.len() >= required {
            Ok::<(), ProtocolError>(())
        } else {
            Err(ProtocolError::Truncated { protocol, offset })
        }),
{
    if packet.len() >= required {
        Ok(())
    } else {
        Err(ProtocolError::Truncated { protocol, offset })
    }
}

fn read_address(
    packet: &[u8],
    offset: &mut usize,
    protocol: &'static str,
    atyp: u8,
    mapping: AddressMapping,
) -> (r: Result<String, ProtocolError>)
    ensures
        match spec_read_address(packet@, *old(offset) as int, protocol, atyp, mapping) {
            Ok((host, end)) => r matches Ok(s) && s@ == host && *final(offset) == end,
            Err(e) => r == Err::<String, ProtocolError>(e) && *final(offset) == address_error_offset(
                packet@,
                *old(offset) as int,
                atyp,
                mapping,
            ),
        },
{
    let is_v4 = match mapping {
        AddressMapping::Vless => atyp == 1,
        AddressMapping::Socks => atyp == 1,
    };
    let is_domain = match mapping {
        AddressMapping::Vless => atyp == 2,
        AddressMapping::Socks => atyp == 3,
    };
    let is_v6 = match mapping {
        AddressMapping::Vless => atyp == 3,
        AddressMapping::Socks => atyp == 4,
    };
    if is_v4 {
        if *offset > packet.len() || packet.len() - *offset < 4 {
            return Err(ProtocolError::Truncated { protocol, offset: *offset });
        }
        let host = ipv4_host(packet, *offset);
        *offset += 4;
        Ok(host)
    } else if is_domain {
        let len = read_u8(packet, offset, protocol)? as usize;
        if *offset > packet.len() || packet.len() - *offset < len {
            return Err(ProtocolError::Truncated { protocol, offset: *offset });
        }
        let host = lossy_text(&packet[*offset..*offset + len]);
        *offset += len;
        Ok(host)
    } else if is_v6 {
        if *offset > packet.len() || packet.len() - *offset < 16 {
            return Err(ProtocolError::Truncated { protocol, offset: *offset });
        }
        let host = ipv6_host(packet, *offset);
        *offset += 16;
        Ok(host)
    } else {
        Err(ProtocolError::UnsupportedAddress { protocol, atyp })
    }
}

proof fn lemma_read_address_within(
    packet: Seq<u8>,
    offset: int,
    protocol: &'static str,
    atyp: u8,
    mapping: AddressMapping,
)
    requires
        0 <= offset,
    ensures
        spec_read_address(packet, offset, protocol, atyp, mapping) matches Ok((_, end)) ==> offset
            <= end <= packet.len(),
{
}

/// On success the payload offset lies within the packet: the header never
/// claims more bytes than the packet holds.
pub proof fn law_payload_offset_within_packet(packet: Seq<u8>, uuid: Seq<u8>)
    ensures
        spec_parse_first_packet(packet, uuid) matches Ok(m) ==> 0 <= m.payload_offset
            <= packet.len(),
{
    if spec_is_vless_candidate(packet) {
        lemma_read_address_within(packet, 18 + packet[17] + 4, "VLESS", packet[18 + packet[17] + 3], AddressMapping::Vless);
    } else if spec_is_trojan_candidate(packet) {
        let o1 = skip_crlf_at(packet, 56);
        if o1 + 1 < packet.len() {
            lemma_read_address_within(packet, o1 + 2, "Trojan", packet[o1 + 1], AddressMapping::Socks);
        }
    } else if spec_is_shadowsocks_candidate(packet) {
        lemma_read_address_within(packet, 1, "Shadowsocks", packet[0], AddressMapping::Socks);
    }
}

/// The two big-endian bytes of a port.
pub open spec fn port_bytes(port: u16) -> Seq<u8> {
    seq![(port / 256) as u8, (port % 256) as u8]
}

/// A VLESS first packet: version 0, the UUID, an options block, command 1,
/// the port, a domain address, then the payload.
pub open spec fn vless_domain_packet(
    uuid: Seq<u8>,
    options: Seq<u8>,
    port: u16,
    domain: Seq<u8>,
    payload: Seq<u8>,
) -> Seq<u8> {
    seq![0u8] + uuid + seq![options.len() as u8] + options + seq![1u8] + port_bytes(port) + seq![
        2u8,
        domain.len() as u8,
    ] + domain + payload
}

/// A Trojan first packet: the password hash, CRLF, command 1, a domain
/// address, the port, CRLF, then the payload.
pub open spec fn trojan_domain_packet(
    hash: Seq<u8>,
    port: u16,
    domain: Seq<u8>,
    payload: Seq<u8>,
) -> Seq<u8> {
    hash + seq![13u8, 10u8, 1u8, 3u8, domain.len() as u8] + domain + port_bytes(port) + seq![
        13u8,
        10u8,
    ] + payload
}

/// A Shadowsocks first packet: an IPv4 address, the port, then the payload.
pub open spec fn shadowsocks_ipv4_packet(octets: Seq<u8>, port: u16, payload: Seq<u8>) -> Seq<u8> {
    seq![1u8] + octets + port_bytes(port) + payload
}

proof fn lemma_port_bytes(port: u16)
    ensures
        be_u16(port_bytes(port)[0], port_bytes(port)[1]) == port,
{
}

/// A VLESS packet written for a user, a port and a domain is read back as a
/// request for that domain and port, with the payload starting right after
/// the header and the two-byte VLESS response to send.
pub proof fn law_vless_packet_roundtrip(
    uuid: Seq<u8>,
    options: Seq<u8>,
    port: u16,
    domain: Seq<u8>,
    payload: Seq<u8>,
)
    requires
        uuid.len() == 16,
        options.len() < 256,
        domain.len() < 256,
    ensures
        spec_parse_first_packet(vless_domain_packet(uuid, options, port, domain, payload), uuid)
            == Ok::<RequestModel, ProtocolError>(
            RequestModel {
                protocol: ProtocolKind::Vless,
                host: if valid_utf8(domain) {
                    decode_utf8(domain)
                } else {
                    utf8_lossy(domain)
                },
                port,
                payload_offset: 23 + options.len() as int + domain.len() as int,
                handshake_response: Some(seq![0u8, 0u8]),
            },
        ),
{
    let p = vless_domain_packet(uuid, options, port, domain, payload);
    let at: int = 18 + options.len() as int;
    assert(p[0] == 0);
    assert(p.subrange(1, 17) == uuid);
    assert(p[17] == options.len() as u8);
    assert(p[at] == 1);
    assert(p[at + 1] == port_bytes(port)[0]);
    assert(p[at + 2] == port_bytes(port)[1]);
    assert(p[at + 3] == 2);
    assert(p[at + 4] == domain.len() as u8);
    assert(p.subrange(at + 5, at + 5 + domain.len()) == domain);
    lemma_port_bytes(port);
}

/// A Trojan packet written with the expected password hash, a port and a
/// domain is read back as a request for that domain and port, with the
/// payload starting after the closing CRLF.
pub proof fn law_trojan_packet_roundtrip(hash: Seq<u8>, port: u16, domain: Seq<u8>, payload: Seq<u8>)
    requires
        hash.len() == 56,
        domain.len() < 256,
    ensures
        spec_parse_trojan(trojan_domain_packet(hash, port, domain, payload), hash) == Ok::<
            RequestModel,
            ProtocolError,
        >(
            RequestModel {
                protocol: ProtocolKind::Trojan,
                host: if valid_utf8(domain) {
                    decode_utf8(domain)
                } else {
                    utf8_lossy(domain)
                },
                port,
                payload_offset: 65 + domain.len() as int,
                handshake_response: None,
            },
        ),
{
    let p = trojan_domain_packet(hash, port, domain, payload);
    let d: int = domain.len() as int;
    assert(p.subrange(0, 56) == hash);
    assert(p[56] == 13 && p[57] == 10);
    assert(skip_crlf_at(p, 56) == 58);
    assert(p[58] == 1 && p[59] == 3 && p[60] == d as u8);
    assert(p.subrange(61, 61 + d) == domain);
    assert(p[61 + d] == port_bytes(port)[0]);
    assert(p[62 + d] == port_bytes(port)[1]);
    assert(p[63 + d] == 13 && p[64 + d] == 10);
    assert(skip_crlf_at(p, 63 + d) == 65 + d);
    lemma_port_bytes(port);
}

/// A short Shadowsocks packet (under 58 bytes) with an IPv4 address is read
/// back as a request for that address and port. Longer packets are taken for
/// Trojan first.
pub proof fn law_shadowsocks_packet_roundtrip(octets: Seq<u8>, port: u16, payload: Seq<u8>, uuid: Seq<u8>)
    requires
        octets.len() == 4,
        7 + payload.len() < 58,
    ensures
        spec_parse_first_packet(shadowsocks_ipv4_packet(octets, port, payload), uuid) == Ok::<
            RequestModel,
            ProtocolError,
        >(
            RequestModel {
                protocol: ProtocolKind::Shadowsocks,
                host: ipv4_text(octets),
                port,
                payload_offset: 7,
                handshake_response: None,
            },
        ),
{
    let p = shadowsocks_ipv4_packet(octets, port, payload);
    assert(p[0] == 1);
    assert(p.subrange(1, 5) == octets);
    assert(p[5] == port_bytes(port)[0]);
    assert(p[6] == port_bytes(port)[1]);
    lemma_port_bytes(port);
}


/// A domain address is read whole: its host is the text of all the bytes
/// its length byte announces, decoded when they are valid UTF-8 and
/// otherwise with invalid sequences replaced, whatever the length.
pub proof fn law_domain_address_is_read_whole(
    packet: Seq<u8>,
    offset: int,
    protocol: &'static str,
    atyp: u8,
    mapping: AddressMapping,
)
    requires
        0 <= offset < packet.len(),
        address_kind(mapping, atyp) == Some(AddressKind::Domain),
        offset + 1 + packet[offset] <= packet.len(),
    ensures
        ({
            let bytes = packet.subrange(offset + 1, offset + 1 + packet[offset]);
            &&& valid_utf8(bytes) ==> spec_read_address(packet, offset, protocol, atyp, mapping)
                == Ok::<(Seq<char>, int), ProtocolError>((decode_utf8(bytes), offset + 1 + packet[offset]))
            &&& !valid_utf8(bytes) ==> spec_read_address(packet, offset, protocol, atyp, mapping)
                == Ok::<(Seq<char>, int), ProtocolError>((utf8_lossy(bytes), offset + 1 + packet[offset]))
        }),
{
}

} // verus!
