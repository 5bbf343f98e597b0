//! Events that a client session reports.
use vstd::prelude::*;

use crate::net::SocketAddr;
use crate::timing::{ClientTimestamp, Duration, Instant, SystemTime};

verus! {

/// What was observed about a datagram besides its payload.
#[derive(Debug, Clone, Copy, PartialEq, Eq, Structural)]
pub struct PacketMeta {
    pub traffic_class: Option<u8>,
    pub dscp: Option<u8>,
    pub ecn: Option<u8>,
    pub kernel_rx_timestamp: Option<SystemTime>,
}

#[derive(Debug, Clone, Copy, PartialEq, Eq, Structural)]
pub enum WarningKind {
    /// A reply to a probe that is neither in flight nor remembered.
    UntrackedReply,
    /// A packet that could not be used.
    UnusablePacket,
}

/// Why a subscription hands out no more events.
#[derive(Debug, Clone, Copy, PartialEq, Eq, Structural)]
pub enum EventSubscriptionError {
    Disconnected,
}

/// Something that happened in one session.
#[derive(Debug, PartialEq, Eq)]
#[allow(inconsistent_fields)]
pub enum ClientEvent {
    SessionStarted { remote: SocketAddr, token: u64, at: ClientTimestamp },
    NoTestCompleted { remote: SocketAddr, at: ClientTimestamp },
    EchoSent {
        seq: u32,
        remote: SocketAddr,
        scheduled_at: Instant,
        sent_at: ClientTimestamp,
        bytes: usize,
        send_call: Duration,
        timer_error: Duration,
    },
    EchoReply { seq: u32, received_at: ClientTimestamp, rtt: Duration, packet_meta: PacketMeta },
    DuplicateReply { seq: u32, received_at: ClientTimestamp },
    LateReply {
        seq: u32,
        sent_at: Option<ClientTimestamp>,
        received_at: ClientTimestamp,
        rtt: Option<Duration>,
    },
    EchoLoss { seq: u32, sent_at: ClientTimestamp, timeout_at: Instant },
    Warning { kind: WarningKind, message: String, at: ClientTimestamp },
    SessionClosed { remote: SocketAddr, token: u64, at: ClientTimestamp },
}

impl Clone for ClientEvent {
    fn clone(&self) -> (result: ClientEvent)
        ensures
            result == *self,
    {
        match self {
            ClientEvent::SessionStarted { remote, token, at } => ClientEvent::SessionStarted {
                remote: *remote,
                token: *token,
                at: *at,
            },
            ClientEvent::NoTestCompleted { remote, at } => ClientEvent::NoTestCompleted {
                remote: *remote,
                at: *at,
            },
            ClientEvent::EchoSent {
                seq,
                remote,
                scheduled_at,
                sent_at,
                bytes,
                send_call,
                timer_error,
            } => ClientEvent::EchoSent {
                seq: *seq,
                remote: *remote,
                scheduled_at: *scheduled_at,
                sent_at: *sent_at,
                bytes: *bytes,
                send_call: *send_call,
                timer_error: *timer_error,
            },
            ClientEvent::EchoReply { seq, received_at, rtt, packet_meta } => ClientEvent::EchoReply {
                seq: *seq,
                received_at: *received_at,
                rtt: *rtt,
                packet_meta: *packet_meta,
            },
            ClientEvent::DuplicateReply { seq, received_at } => ClientEvent::DuplicateReply {
                seq: *seq,
                received_at: *received_at,
            },
            ClientEvent::LateReply { seq, sent_at, received_at, rtt } => ClientEvent::LateReply {
                seq: *seq,
                sent_at: *sent_at,
                received_at: *received_at,
                rtt: *rtt,
            },
            ClientEvent::EchoLoss { seq, sent_at, timeout_at } => ClientEvent::EchoLoss {
                seq: *seq,
                sent_at: *sent_at,
                timeout_at: *timeout_at,
            },
            ClientEvent::Warning { kind, message, at } => ClientEvent::Warning {
                kind: *kind,
                message: message.clone(),
                at: *at,
            },
            ClientEvent::SessionClosed { remote, token, at } => ClientEvent::SessionClosed {
                remote: *remote,
                token: *token,
                at: *at,
            },
        }
    }
}

/// How an open handshake ended, with the event that reports it.
#[derive(Debug, PartialEq, Eq)]
pub enum OpenOutcome {
    Started { event: ClientEvent },
    NoTestCompleted { event: ClientEvent },
}

impl OpenOutcome {
    pub open spec fn event(self) -> ClientEvent {
        match self {
            OpenOutcome::Started { event } => event,
            OpenOutcome::NoTestCompleted { event } => event,
        }
    }
}

} // verus!
