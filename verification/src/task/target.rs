//! One target of the managed driver, and what can be observed of its session.
use vstd::prelude::*;

use crate::config::{ClientConfig, ClientConfigView};
use crate::counting::bumped;
use crate::error::ClientError;
use crate::event::ClientEvent;
use crate::model::{
    failure_view, EndReasonView, FailureView, InstanceView, ManagedTargetConfig,
    ManagedTargetEndReason, ManagedTargetFailure, ManagedTargetLifecycle, OutcomeView,
    TargetConfigView, TargetInstance, TargetStatusView,
};
use crate::net::SocketAddr;
use crate::timing::{Duration, Instant};

verus! {

/// What an open session says of itself, read after it was last worked on.
#[derive(Debug, Clone, Copy, PartialEq, Eq, Structural)]
pub struct ClientFacts {
    pub packets_sent: u64,
    /// Deadline of the pending probe that expires first.
    pub next_probe_timeout: Option<Instant>,
    /// Latest deadline among pending probes and timed-out ones still retained.
    pub latest_probe_timeout: Option<Instant>,
    /// When the next probe is to be sent.
    pub next_send: Option<Instant>,
    /// The negotiated interval between probes.
    pub probe_interval: Duration,
    pub peer_closed: bool,
    pub run_complete: bool,
}

/// Where one target generation stands.
#[derive(Debug)]
#[allow(inconsistent_fields)]
pub enum TargetState {
    Pending { client_config: ClientConfig },
    Connecting,
    /// `in_flight` tells whether an open request or a cleanup is under way.
    Opening { in_flight: bool },
    Active { facts: ClientFacts },
    Draining {
        facts: ClientFacts,
        drain_started_at: Instant,
        deadline: Instant,
        primary_end: ManagedTargetEndReason,
        cleanup_failure: Option<ManagedTargetFailure>,
        post_deadline_receives_remaining: usize,
    },
    Closing {
        deadline: Instant,
        primary_end: ManagedTargetEndReason,
        cleanup_failure: Option<ManagedTargetFailure>,
    },
    Terminal,
}

#[allow(inconsistent_fields)]
pub ghost enum TargetStateView {
    Pending { client_config: ClientConfigView },
    Connecting,
    Opening { in_flight: bool },
    Active { facts: ClientFacts },
    Draining {
        facts: ClientFacts,
        drain_started_at: Instant,
        deadline: Instant,
        primary_end: EndReasonView,
        cleanup_failure: Option<FailureView>,
        post_deadline_receives_remaining: usize,
    },
    Closing {
        deadline: Instant,
        primary_end: EndReasonView,
        cleanup_failure: Option<FailureView>,
    },
    Terminal,
}

impl View for TargetState {
    type V = TargetStateView;

    open spec fn view(&self) -> TargetStateView {
        match self {
            TargetState::Pending { client_config } => TargetStateView::Pending {
                client_config: client_config@,
            },
            TargetState::Connecting => TargetStateView::Connecting,
            TargetState::Opening { in_flight } => TargetStateView::Opening {
                in_flight: *in_flight,
            },
            TargetState::Active { facts } => TargetStateView::Active { facts: *facts },
            TargetState::Draining {
                facts,
                drain_started_at,
                deadline,
                primary_end,
                cleanup_failure,
                post_deadline_receives_remaining,
            } => TargetStateView::Draining {
                facts: *facts,
                drain_started_at: *drain_started_at,
                deadline: *deadline,
                primary_end: primary_end@,
                cleanup_failure: failure_view(*cleanup_failure),
                post_deadline_receives_remaining: *post_deadline_receives_remaining,
            },
            TargetState::Closing { deadline, primary_end, cleanup_failure } =>
                TargetStateView::Closing {
                deadline: *deadline,
                primary_end: primary_end@,
                cleanup_failure: failure_view(*cleanup_failure),
            },
            TargetState::Terminal => TargetStateView::Terminal,
        }
    }
}

impl TargetStateView {
    pub open spec fn lifecycle(self) -> ManagedTargetLifecycle {
        match self {
            TargetStateView::Pending { .. } => ManagedTargetLifecycle::Pending,
            TargetStateView::Connecting => ManagedTargetLifecycle::Connecting,
            TargetStateView::Opening { .. } => ManagedTargetLifecycle::Opening,
            TargetStateView::Active { .. } => ManagedTargetLifecycle::Active,
            TargetStateView::Draining { .. } => ManagedTargetLifecycle::Draining,
            TargetStateView::Closing { .. } => ManagedTargetLifecycle::Closing,
            TargetStateView::Terminal => ManagedTargetLifecycle::Terminal,
        }
    }

    /// A target in this state can be let go of at once: no session of it has
    /// work under way that must be finished or closed first.
    pub open spec fn synchronously_retireable(self) -> bool {
        match self {
            TargetStateView::Pending { .. } => true,
            TargetStateView::Connecting => true,
            TargetStateView::Terminal => true,
            TargetStateView::Opening { in_flight } => !in_flight,
            _ => false,
        }
    }
}

impl TargetState {
    pub fn lifecycle(&self) -> (result: ManagedTargetLifecycle)
        ensures
            result == self@.lifecycle(),
    {
        match self {
            TargetState::Pending { .. } => ManagedTargetLifecycle::Pending,
            TargetState::Connecting => ManagedTargetLifecycle::Connecting,
            TargetState::Opening { .. } => ManagedTargetLifecycle::Opening,
            TargetState::Active { .. } => ManagedTargetLifecycle::Active,
            TargetState::Draining { .. } => ManagedTargetLifecycle::Draining,
            TargetState::Closing { .. } => ManagedTargetLifecycle::Closing,
            TargetState::Terminal => ManagedTargetLifecycle::Terminal,
        }
    }

    pub fn is_active(&self) -> (result: bool)
        ensures
            result == (self@ is Active),
    {
        match self {
            TargetState::Active { .. } => true,
            _ => false,
        }
    }

    pub fn is_terminal(&self) -> (result: bool)
        ensures
            result == (self@ is Terminal),
    {
        match self {
            TargetState::Terminal => true,
            _ => false,
        }
    }
}

pub fn synchronously_retireable(state: &TargetState) -> (result: bool)
    ensures
        result == state@.synchronously_retireable(),
{
    match state {
        TargetState::Pending { .. } | TargetState::Connecting | TargetState::Terminal => true,
        TargetState::Opening { in_flight } => !*in_flight,
        TargetState::Active { .. } | TargetState::Draining { .. } | TargetState::Closing { .. } =>
            false,
    }
}

/// What was counted for one target generation. Each count stops at `u64::MAX`.
#[derive(Debug, Clone, Copy, PartialEq, Eq, Structural)]
pub struct TargetCounters {
    pub packets_sent: u64,
    pub replies_received: u64,
    pub duplicates: u64,
    pub late: u64,
    pub warning_events: u64,
}

impl TargetCounters {
    pub open spec fn none() -> TargetCounters {
        TargetCounters {
            packets_sent: 0,
            replies_received: 0,
            duplicates: 0,
            late: 0,
            warning_events: 0,
        }
    }

    pub fn new() -> (result: TargetCounters)
        ensures
            result == TargetCounters::none(),
    {
        TargetCounters {
            packets_sent: 0,
            replies_received: 0,
            duplicates: 0,
            late: 0,
            warning_events: 0,
        }
    }

    /// The counts after one more event. Sent packets are not counted by event.
    pub open spec fn observing(self, event: ClientEvent) -> TargetCounters {
        match event {
            ClientEvent::EchoReply { .. } => TargetCounters {
                replies_received: bumped(self.replies_received),
                ..self
            },
            ClientEvent::DuplicateReply { .. } => TargetCounters {
                duplicates: bumped(self.duplicates),
                ..self
            },
            ClientEvent::LateReply { .. } => TargetCounters { late: bumped(self.late), ..self },
            ClientEvent::Warning { .. } => TargetCounters {
                warning_events: bumped(self.warning_events),
                ..self
            },
            _ => self,
        }
    }

    pub fn observe(&mut self, event: &ClientEvent)
        ensures
            *final(self) == old(self).observing(*event),
    {
        match event {
            ClientEvent::EchoReply { .. } => {
                self.replies_received = self.replies_received.saturating_add(1);
            },
            ClientEvent::DuplicateReply { .. } => {
                self.duplicates = self.duplicates.saturating_add(1);
            },
            ClientEvent::LateReply { .. } => {
                self.late = self.late.saturating_add(1);
            },
            ClientEvent::Warning { .. } => {
                self.warning_events = self.warning_events.saturating_add(1);
            },
            _ => {},
        }
    }
}

/// One target generation.
#[derive(Debug)]
pub struct TargetRuntime {
    pub instance: TargetInstance,
    pub config: ManagedTargetConfig,
    /// Whether the target belongs to the desired set.
    pub desired: bool,
    /// Why the target is to end, once an update took it out of the desired set.
    pub retirement: Option<ManagedTargetEndReason>,
    pub remote: Option<SocketAddr>,
    pub counters: TargetCounters,
    /// Whether a send waits for the socket to become writable.
    pub send_waiting: bool,
    /// Whether the target takes part in pacing.
    pub active: bool,
    pub state: TargetState,
}

pub ghost struct TargetView {
    pub instance: InstanceView,
    pub config: TargetConfigView,
    pub desired: bool,
    pub retirement: Option<EndReasonView>,
    pub remote: Option<SocketAddr>,
    pub counters: TargetCounters,
    pub send_waiting: bool,
    pub active: bool,
    pub state: TargetStateView,
}

pub open spec fn reason_view(reason: Option<ManagedTargetEndReason>) -> Option<EndReasonView> {
    match reason {
        Some(reason) => Some(reason@),
        None => None,
    }
}

impl View for TargetRuntime {
    type V = TargetView;

    open spec fn view(&self) -> TargetView {
        TargetView {
            instance: self.instance@,
            config: self.config@,
            desired: self.desired,
            retirement: reason_view(self.retirement),
            remote: self.remote,
            counters: self.counters,
            send_waiting: self.send_waiting,
            active: self.active,
            state: self.state@,
        }
    }
}

impl TargetView {
    /// A target of a new generation that nothing was done for yet.
    pub open spec fn fresh(
        config: TargetConfigView,
        generation: u64,
        client_config: ClientConfigView,
    ) -> TargetView {
        TargetView {
            instance: InstanceView { id: config.id, generation },
            config,
            desired: true,
            retirement: None,
            remote: None,
            counters: TargetCounters::none(),
            send_waiting: false,
            active: false,
            state: TargetStateView::Pending { client_config },
        }
    }

    /// Whether sends may be scheduled for the target.
    pub open spec fn sends(self) -> bool {
        self.desired && self.retirement is None && self.state is Active
    }

    pub open spec fn status(self) -> TargetStatusView {
        TargetStatusView {
            target: self.instance,
            desired: self.desired,
            lifecycle: self.state.lifecycle(),
            server_addr: self.config.server_addr,
            remote: self.remote,
        }
    }

    pub open spec fn outcome(
        self,
        end_reason: EndReasonView,
        cleanup_failure: Option<FailureView>,
    ) -> OutcomeView {
        OutcomeView {
            target: self.instance,
            server_addr: self.config.server_addr,
            remote: self.remote,
            end_reason,
            packets_sent: self.counters.packets_sent,
            replies_received: self.counters.replies_received,
            duplicates: self.counters.duplicates,
            late: self.counters.late,
            warning_events: self.counters.warning_events,
            cleanup_failure,
        }
    }
}

/// Result of polling a connection attempt.
#[derive(Debug)]
pub enum ConnectPoll {
    Pending,
    Connected { remote: SocketAddr },
    Failed { error: ClientError },
}

/// Result of polling an open handshake.
#[derive(Debug)]
#[allow(inconsistent_fields)]
pub enum OpenPoll {
    Pending { in_flight: bool },
    Started { event: ClientEvent },
    NoTestCompleted { event: ClientEvent },
    /// `stopped` tells that the handshake ended because it was asked to stop
    /// after the current attempt.
    Failed { error: ClientError, stopped: bool },
}

/// Result of expiring the probe of an open session that is due first.
#[derive(Debug)]
pub enum TimeoutPoll {
    Expired { events: Vec<ClientEvent> },
    Failed { error: ClientError },
}

/// Result of polling an open session for a datagram.
#[derive(Debug)]
pub enum ReceivePoll {
    Pending,
    Received { events: Vec<ClientEvent> },
    Failed { error: ClientError },
}

/// Result of polling the close of a session.
#[derive(Debug)]
pub enum ClosePoll {
    Pending,
    Closed { events: Vec<ClientEvent> },
    Failed { error: ClientError },
}

/// What the driver wants polled for one target.
#[derive(Debug, Clone, Copy, PartialEq, Eq, Structural)]
pub enum TargetRequest {
    /// Nothing.
    Nothing,
    Connect,
    /// The open handshake, which is to stop after its current attempt where
    /// `stop_after_attempt` is set.
    Open { stop_after_attempt: bool },
    /// One receive of the open session.
    Receive,
    Close,
}

/// What was observed when a request was carried out.
#[derive(Debug)]
#[allow(inconsistent_fields)]
pub enum TargetPoll {
    Nothing,
    Connect { poll: ConnectPoll },
    Open { poll: OpenPoll },
    Receive { poll: ReceivePoll },
    Close { poll: ClosePoll },
}

impl TargetPoll {
    /// `self` answers `request`.
    pub open spec fn answers(self, request: TargetRequest) -> bool {
        match request {
            TargetRequest::Nothing => true,
            TargetRequest::Connect => self is Connect,
            TargetRequest::Open { .. } => self is Open,
            TargetRequest::Receive => self is Receive,
            TargetRequest::Close => self is Close,
        }
    }
}

} // verus!
