use rws::protocol::{parse_first_packet, trojan_password_hash, ProtocolError, ProtocolKind};
use sha2::Digest;
use uuid::Uuid;

fn test_uuid() -> Uuid {
    Uuid::parse_str("5efabea4-f6d4-91fd-b8f0-17e004c89c60").unwrap()
}

#[test]
fn parses_vless_domain_request_and_keeps_payload_offset() {
    let uuid = test_uuid();
    let mut packet = Vec::new();
    packet.push(0);
    packet.extend_from_slice(uuid.as_bytes());
    packet.push(0);
    packet.push(1);
    packet.extend_from_slice(&443u16.to_be_bytes());
    packet.push(2);
    packet.push(11);
    packet.extend_from_slice(b"example.com");
    packet.extend_from_slice(b"hello");

    let request = parse_first_packet(&packet, *uuid.as_bytes()).unwrap();

    assert_eq!(request.protocol, ProtocolKind::Vless);
    assert_eq!(request.destination.host, "example.com");
    assert_eq!(request.destination.port, 443);
    assert_eq!(&packet[request.payload_offset..], b"hello");
    assert_eq!(request.handshake_response.as_deref(), Some(&[0, 0][..]));
}

#[test]
fn parses_trojan_domain_request_with_crlf_markers() {
    let uuid = test_uuid();
    let hash = trojan_password_hash(*uuid.as_bytes());
    let mut packet = Vec::new();
    packet.extend_from_slice(hash.as_bytes());
    packet.extend_from_slice(b"\r\n");
    packet.push(1);
    packet.push(3);
    packet.push(11);
    packet.extend_from_slice(b"example.net");
    packet.extend_from_slice(&8443u16.to_be_bytes());
    packet.extend_from_slice(b"\r\npayload");

    let request = parse_first_packet(&packet, *uuid.as_bytes()).unwrap();

    assert_eq!(request.protocol, ProtocolKind::Trojan);
    assert_eq!(request.destination.host, "example.net");
    assert_eq!(request.destination.port, 8443);
    assert_eq!(&packet[request.payload_offset..], b"payload");
    assert!(request.handshake_response.is_none());
}

#[test]
fn parses_shadowsocks_ipv4_request() {
    let uuid = test_uuid();
    let mut packet = Vec::new();
    packet.push(1);
    packet.extend_from_slice(&[8, 8, 8, 8]);
    packet.extend_from_slice(&53u16.to_be_bytes());
    packet.extend_from_slice(b"dns-query");

    let request = parse_first_packet(&packet, *uuid.as_bytes()).unwrap();

    assert_eq!(request.protocol, ProtocolKind::Shadowsocks);
    assert_eq!(request.destination.host, "8.8.8.8");
    assert_eq!(request.destination.port, 53);
    assert_eq!(&packet[request.payload_offset..], b"dns-query");
}

#[test]
fn rejects_wrong_uuid_vless_packet() {
    let uuid = test_uuid();
    let mut packet = Vec::new();
    packet.push(0);
    packet.extend_from_slice(Uuid::new_v4().as_bytes());
    packet.push(0);
    packet.push(1);
    packet.extend_from_slice(&443u16.to_be_bytes());
    packet.push(2);
    packet.push(11);
    packet.extend_from_slice(b"example.com");

    assert!(parse_first_packet(&packet, *uuid.as_bytes()).is_err());
}

fn vless_header(uuid: &Uuid, command: u8, port: u16, atyp: u8) -> Vec<u8> {
    let mut packet = vec![0];
    packet.extend_from_slice(uuid.as_bytes());
    packet.push(0);
    packet.push(command);
    packet.extend_from_slice(&port.to_be_bytes());
    packet.push(atyp);
    packet
}

#[test]
fn trojan_password_hash_is_sha224_of_hyphenated_uuid() {
    let uuid = test_uuid();
    let expected: String = sha2::Sha224::digest(b"5efabea4-f6d4-91fd-b8f0-17e004c89c60")
        .iter()
        .map(|b| format!("{b:02x}"))
        .collect();
    let hash = trojan_password_hash(*uuid.as_bytes());
    assert_eq!(hash, expected);
    assert_eq!(hash.len(), 56);
}

#[test]
fn vless_ipv6_and_ipv4_addresses() {
    let uuid = test_uuid();
    let mut packet = vless_header(&uuid, 1, 80, 3);
    packet.extend_from_slice(&[0x20, 0x01, 0x0d, 0xb8, 0, 0, 0, 0, 0, 0, 0, 0, 0, 0, 0, 1]);
    let request = parse_first_packet(&packet, *uuid.as_bytes()).unwrap();
    assert_eq!(request.destination.host, "2001:db8::1");
    assert_eq!(request.payload_offset, packet.len());

    let mut packet = vless_header(&uuid, 1, 80, 1);
    packet.extend_from_slice(&[192, 168, 0, 10]);
    let request = parse_first_packet(&packet, *uuid.as_bytes()).unwrap();
    assert_eq!(request.destination.host, "192.168.0.10");
}

#[test]
fn vless_options_block_is_skipped() {
    let uuid = test_uuid();
    let mut packet = vec![0];
    packet.extend_from_slice(uuid.as_bytes());
    packet.push(3);
    packet.extend_from_slice(&[9, 9, 9]);
    packet.push(1);
    packet.extend_from_slice(&8080u16.to_be_bytes());
    packet.push(2);
    packet.push(1);
    packet.push(b'x');
    let request = parse_first_packet(&packet, *uuid.as_bytes()).unwrap();
    assert_eq!(request.destination.host, "x");
    assert_eq!(request.destination.port, 8080);
}

#[test]
fn vless_errors() {
    let uuid = test_uuid();
    let packet = vless_header(&uuid, 2, 80, 1);
    assert_eq!(
        parse_first_packet(&packet, *uuid.as_bytes()),
        Err(ProtocolError::UnsupportedCommand { protocol: "VLESS", command: 2 })
    );
    let packet = vless_header(&uuid, 1, 80, 9);
    assert_eq!(
        parse_first_packet(&packet, *uuid.as_bytes()),
        Err(ProtocolError::UnsupportedAddress { protocol: "VLESS", atyp: 9 })
    );
    let mut packet = vless_header(&uuid, 1, 80, 1);
    packet.extend_from_slice(&[1, 2]);
    assert_eq!(
        parse_first_packet(&packet, *uuid.as_bytes()),
        Err(ProtocolError::Truncated { protocol: "VLESS", offset: 22 })
    );
    let mut packet = vec![0];
    packet.extend_from_slice(uuid.as_bytes());
    packet.push(0);
    packet.push(1);
    assert_eq!(
        parse_first_packet(&packet, *uuid.as_bytes()),
        Err(ProtocolError::Truncated { protocol: "VLESS", offset: 18 })
    );
    let mut wrong = vless_header(&uuid, 1, 80, 1);
    wrong[5] ^= 1;
    assert_eq!(
        parse_first_packet(&wrong, *uuid.as_bytes()),
        Err(ProtocolError::Authentication { protocol: "VLESS" })
    );
}

#[test]
fn trojan_errors_and_optional_crlf() {
    let uuid = test_uuid();
    let hash = trojan_password_hash(*uuid.as_bytes());
    let mut packet = hash.as_bytes().to_vec();
    packet.extend_from_slice(&[1, 1, 10, 0, 0, 1]);
    packet.extend_from_slice(&22u16.to_be_bytes());
    let request = parse_first_packet(&packet, *uuid.as_bytes()).unwrap();
    assert_eq!(request.destination.host, "10.0.0.1");
    assert_eq!(request.destination.port, 22);
    assert_eq!(request.payload_offset, packet.len());

    let mut bad = packet.clone();
    bad[0] = if bad[0] == b'a' { b'b' } else { b'a' };
    assert_eq!(
        parse_first_packet(&bad, *uuid.as_bytes()),
        Err(ProtocolError::Authentication { protocol: "Trojan" })
    );

    let mut command = hash.as_bytes().to_vec();
    command.extend_from_slice(b"\r\n");
    command.extend_from_slice(&[3, 1]);
    assert_eq!(
        parse_first_packet(&command, *uuid.as_bytes()),
        Err(ProtocolError::UnsupportedCommand { protocol: "Trojan", command: 3 })
    );

    let mut short_port = hash.as_bytes().to_vec();
    short_port.extend_from_slice(&[1, 1, 1, 1, 1, 1, 0]);
    assert_eq!(
        parse_first_packet(&short_port, *uuid.as_bytes()),
        Err(ProtocolError::Truncated { protocol: "Trojan", offset: 62 })
    );
}

#[test]
fn shadowsocks_ipv6_domain_and_errors() {
    let uuid = test_uuid();
    let mut packet = vec![4];
    packet.extend_from_slice(&[0, 0, 0, 0, 0, 0, 0, 0, 0, 0, 0xff, 0xff, 1, 2, 3, 4]);
    packet.extend_from_slice(&443u16.to_be_bytes());
    let request = parse_first_packet(&packet, *uuid.as_bytes()).unwrap();
    assert_eq!(request.destination.host, "::ffff:1.2.3.4");

    let mut packet = vec![3, 4];
    packet.extend_from_slice(&[b'a', 0xff, b'b', b'c']);
    packet.extend_from_slice(&443u16.to_be_bytes());
    let request = parse_first_packet(&packet, *uuid.as_bytes()).unwrap();
    assert_eq!(request.destination.host, "a\u{fffd}bc");

    assert_eq!(
        parse_first_packet(&[3, 10, b'a'], *uuid.as_bytes()),
        Err(ProtocolError::Truncated { protocol: "Shadowsocks", offset: 2 })
    );
    assert_eq!(
        parse_first_packet(&[1, 8, 8, 8, 8, 0], *uuid.as_bytes()),
        Err(ProtocolError::Truncated { protocol: "Shadowsocks", offset: 5 })
    );
    assert_eq!(parse_first_packet(&[], *uuid.as_bytes()), Err(ProtocolError::UnknownProtocol));
    assert_eq!(parse_first_packet(&[7, 1, 2], *uuid.as_bytes()), Err(ProtocolError::UnknownProtocol));
}

#[test]
fn ipv6_text_follows_rfc5952() {
    let uuid = test_uuid();
    let cases: [([u8; 16], &str); 8] = [
        ([0; 16], "::"),
        ([0, 0, 0, 0, 0, 0, 0, 0, 0, 0, 0, 0, 0, 0, 0, 1], "::1"),
        ([0x20, 0x01, 0x0d, 0xb8, 0, 0, 0, 1, 0, 0, 0, 0, 0, 0, 0, 1], "2001:db8:0:1::1"),
        ([0x20, 0x01, 0x0d, 0xb8, 0, 0, 0, 0, 0, 1, 0, 0, 0, 0, 0, 1], "2001:db8::1:0:0:1"),
        ([0x20, 0x01, 0x0d, 0xb8, 0, 1, 0, 1, 0, 1, 0, 1, 0, 1, 0, 1], "2001:db8:1:1:1:1:1:1"),
        ([0x20, 0x01, 0x0d, 0xb8, 0, 0, 0, 1, 0, 1, 0, 1, 0, 1, 0, 1], "2001:db8:0:1:1:1:1:1"),
        ([0xfe, 0x80, 0, 0, 0, 0, 0, 0, 0xab, 0xcd, 0, 0, 0, 0, 0x12, 0x34], "fe80::abcd:0:0:1234"),
        ([0, 0, 0, 0, 0, 0, 0, 0, 0, 0, 0, 0, 1, 2, 3, 4], "::102:304"),
    ];
    for (octets, text) in cases {
        let mut packet = vec![4];
        packet.extend_from_slice(&octets);
        packet.extend_from_slice(&1u16.to_be_bytes());
        let request = parse_first_packet(&packet, *uuid.as_bytes()).unwrap();
        assert_eq!(request.destination.host, text);
    }
}


#[test]
fn protocol_error_messages() {
    assert_eq!(
        ProtocolError::Truncated { protocol: "VLESS", offset: 18 }.message(),
        "packet is too short for VLESS at offset 18"
    );
    assert_eq!(
        ProtocolError::UnsupportedCommand { protocol: "Trojan", command: 3 }.message(),
        "unsupported Trojan command 3"
    );
    assert_eq!(
        ProtocolError::UnsupportedAddress { protocol: "Shadowsocks", atyp: 255 }.message(),
        "unsupported Shadowsocks address type 255"
    );
    assert_eq!(
        ProtocolError::Authentication { protocol: "VLESS" }.message(),
        "authentication failed for VLESS"
    );
    assert_eq!(ProtocolError::UnknownProtocol.message(), "unknown protocol");
}
