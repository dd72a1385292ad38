//! The decisions of a proxied WebSocket session: whether its first message
//! opens a session, where the session goes, what is sent first, and how
//! each later frame is relayed.
use vstd::prelude::*;
use crate::policy::DomainPolicy;
use crate::protocol::{
    Destination, ProtocolError, ProxyRequest, law_payload_offset_within_packet,
    parse_first_packet, spec_parse_first_packet,
};
use crate::text::{decimal_text, push_decimal, push_str};

verus! {

/// The first message of a session as the WebSocket delivered it.
#[derive(Debug, Clone)]
pub enum FirstMessage {
    Binary(Vec<u8>),
    /// A text, ping, pong or close frame.
    NonBinary,
    /// The socket closed before any message.
    Closed,
}

/// Why a session was refused.
#[derive(Debug, Clone, PartialEq, Eq)]
pub enum ProxyError {
    Protocol { source: ProtocolError },
    Blocked { host: String },
    MissingFirstPacket,
    NonBinaryFirstPacket,
}

/// What an admitted session does first.
#[derive(Debug, Clone)]
pub struct SessionPlan {
    /// The parsed header of the first packet.
    pub request: ProxyRequest,
    /// The bytes of the first packet after the header, to forward to the target.
    pub initial_payload: Vec<u8>,
}

/// Whether a session is admitted by its first message, and what it does first.
pub fn plan_session<P: DomainPolicy + ?Sized>(first: &FirstMessage, uuid: [u8; 16], policy: &P) -> (r: Result<
    SessionPlan,
    ProxyError,
>)
    ensures
        first is Closed ==> r == Err::<SessionPlan, ProxyError>(ProxyError::MissingFirstPacket),
        first is NonBinary ==> r == Err::<SessionPlan, ProxyError>(
            ProxyError::NonBinaryFirstPacket,
        ),
        first matches FirstMessage::Binary(packet) ==> match spec_parse_first_packet(
            packet@,
            uuid@,
        ) {
            Err(e) => r == Err::<SessionPlan, ProxyError>(ProxyError::Protocol { source: e }),
            Ok(m) => if policy.blocks(m.host) {
                r matches Err(ProxyError::Blocked { host }) && host@ == m.host
            } else {
                r matches Ok(plan) && plan.request@ == m && plan.initial_payload@
                    == packet@.subrange(m.payload_offset, packet@.len() as int)
            },
        },
{
    match first {
        FirstMessage::Closed => Err(ProxyError::MissingFirstPacket),
        FirstMessage::NonBinary => Err(ProxyError::NonBinaryFirstPacket),
        FirstMessage::Binary(packet) => {
            let request = match parse_first_packet(packet.as_slice(), uuid) {
                Ok(req) => req,
                Err(source) => {
                    return Err(ProxyError::Protocol { source });
                },
            };
            if policy.is_blocked(request.destination.host.as_str()) {
                return Err(ProxyError::Blocked { host: request.destination.host });
            }
            proof {
                law_payload_offset_within_packet(packet@, uuid@);
            }
            let initial_payload = vstd::slice::slice_to_vec(&packet.as_slice()[request.payload_offset..packet.len()]);
            Ok(SessionPlan { request, initial_payload })
        },
    }
}

/// Where an admitted session connects: the resolved address of the
/// requested host, on the requested port.
pub fn resolved_destination(request: &ProxyRequest, resolved_host: String) -> (d: Destination)
    ensures
        d.host@ == resolved_host@,
        d.port == request.destination.port,
{
    Destination { host: resolved_host, port: request.destination.port }
}

/// The kind of a frame received from the client after the first one.
#[derive(Debug, Clone, Copy, PartialEq, Eq, Structural)]
pub enum ClientFrame {
    Binary,
    Text,
    Ping,
    Pong,
    Close,
}

/// What the relay does with a frame or a read.
#[derive(Debug, Clone, Copy, PartialEq, Eq, Structural)]
pub enum RelayStep {
    /// Pass the bytes on.
    Forward,
    /// Drop the frame and go on.
    Ignore,
    /// End this direction of the relay.
    Stop,
}

/// Client frames: binary data is forwarded to the target, a close frame ends
/// the session, and text, ping and pong frames are dropped.
pub fn client_frame_step(frame: ClientFrame) -> (s: RelayStep)
    ensures
        s == match frame {
            ClientFrame::Binary => RelayStep::Forward,
            ClientFrame::Close => RelayStep::Stop,
            _ => RelayStep::Ignore,
        },
{
    match frame {
        ClientFrame::Binary => RelayStep::Forward,
        ClientFrame::Close => RelayStep::Stop,
        ClientFrame::Text | ClientFrame::Ping | ClientFrame::Pong => RelayStep::Ignore,
    }
}

/// Reads from the target: end of stream (zero bytes) ends the session;
/// anything read is forwarded to the client.
pub fn target_read_step(n: usize) -> (s: RelayStep)
    ensures
        s == (if n == 0 {
            RelayStep::Stop
        } else {
            RelayStep::Forward
        }),
{
    if n == 0 {
        RelayStep::Stop
    } else {
        RelayStep::Forward
    }
}

/// The `host:port` text a connection to the destination is opened with.
pub fn socket_address(destination: &Destination) -> (s: String)
    ensures
        s@ == destination.host@ + ":"@ + decimal_text(destination.port as nat),
{
    let mut s = String::new();
    push_str(&mut s, destination.host.as_str());
    push_str(&mut s, ":");
    push_decimal(&mut s, destination.port as u64);
    s
}

} // verus!
