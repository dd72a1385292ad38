use rws::policy::BlockedDomainPolicy;
use rws::protocol::{Destination, ProtocolError};
use rws::session::{
    client_frame_step, plan_session, resolved_destination, socket_address, target_read_step, ClientFrame, FirstMessage,
    ProxyError, RelayStep,
};

const UUID: [u8; 16] = [
    0x5e, 0xfa, 0xbe, 0xa4, 0xf6, 0xd4, 0x91, 0xfd, 0xb8, 0xf0, 0x17, 0xe0, 0x04, 0xc8, 0x9c, 0x60,
];

fn shadowsocks_packet(host: &str, payload: &[u8]) -> Vec<u8> {
    let mut packet = vec![3, host.len() as u8];
    packet.extend_from_slice(host.as_bytes());
    packet.extend_from_slice(&443u16.to_be_bytes());
    packet.extend_from_slice(payload);
    packet
}

#[test]
fn session_is_planned_from_first_packet() {
    let policy = BlockedDomainPolicy::default();
    let plan = plan_session(&FirstMessage::Binary(shadowsocks_packet("example.com", b"GET /")), UUID, &policy)
        .unwrap();
    assert_eq!(plan.request.destination.host, "example.com");
    assert_eq!(plan.initial_payload, b"GET /");

    let plan = plan_session(&FirstMessage::Binary(shadowsocks_packet("example.com", b"")), UUID, &policy)
        .unwrap();
    assert!(plan.initial_payload.is_empty());
}

#[test]
fn sessions_are_refused() {
    let policy = BlockedDomainPolicy::default();
    assert_eq!(
        plan_session(&FirstMessage::Binary(shadowsocks_packet("Fast.com", b"")), UUID, &policy).unwrap_err(),
        ProxyError::Blocked { host: "Fast.com".to_string() }
    );
    assert_eq!(
        plan_session(&FirstMessage::Closed, UUID, &policy).unwrap_err(),
        ProxyError::MissingFirstPacket
    );
    assert_eq!(
        plan_session(&FirstMessage::NonBinary, UUID, &policy).unwrap_err(),
        ProxyError::NonBinaryFirstPacket
    );
    assert_eq!(
        plan_session(&FirstMessage::Binary(vec![9]), UUID, &policy).unwrap_err(),
        ProxyError::Protocol { source: ProtocolError::UnknownProtocol }
    );
}

#[test]
fn relay_steps() {
    assert_eq!(client_frame_step(ClientFrame::Binary), RelayStep::Forward);
    assert_eq!(client_frame_step(ClientFrame::Close), RelayStep::Stop);
    assert_eq!(client_frame_step(ClientFrame::Text), RelayStep::Ignore);
    assert_eq!(client_frame_step(ClientFrame::Ping), RelayStep::Ignore);
    assert_eq!(client_frame_step(ClientFrame::Pong), RelayStep::Ignore);
    assert_eq!(target_read_step(0), RelayStep::Stop);
    assert_eq!(target_read_step(5), RelayStep::Forward);
}

#[test]
fn connection_address_text() {
    let destination = Destination { host: "10.0.0.1".to_string(), port: 8080 };
    assert_eq!(socket_address(&destination), "10.0.0.1:8080");
}

#[test]
fn session_connects_to_resolved_host_on_requested_port() {
    let policy = BlockedDomainPolicy::default();
    let plan = plan_session(&FirstMessage::Binary(shadowsocks_packet("example.com", b"")), UUID, &policy)
        .unwrap();
    let destination = resolved_destination(&plan.request, "93.184.216.34".to_string());
    assert_eq!(destination, Destination { host: "93.184.216.34".to_string(), port: 443 });
}
