//! One target of a group.
use std::collections::TryReserveError;
use vstd::prelude::*;
use vstd::string::*;

use crate::config::ClientAuthConfig;
use crate::counting::{bumped, capped_sum, lemma_filter_empty, lemma_filter_last};
use crate::error::{ClientError, IoError};
use crate::event::{ClientEvent, OpenOutcome};
use crate::group::drain::ReceiverDrainState;
use crate::group::model::{
    auth_view, opening_failure, runtime_failure, ConfigView, EndReasonView, GroupEventView,
    ManagedGroupEvent, ManagedTargetConfig, ManagedTargetEndReason, ManagedTargetFailure,
    ManagedTargetOutcome, OutcomeView, TargetEvent, TargetId,
};
use crate::net::SocketAddr;
use crate::timing::{ClientTimestamp, Duration, Instant, MAX_INSTANT_NANOS};

verus! {

/// What a session says of itself, read after it was last worked on.
#[derive(Debug, Clone, Copy, PartialEq, Eq, Structural)]
pub struct SessionFacts {
    pub open: bool,
    pub peer_closed: bool,
    /// Whether the session has ended for good.
    pub terminal: bool,
    /// Whether no probe is in flight.
    pub pending_empty: bool,
    /// Whether timed-out probes are remembered that a late reply could match.
    pub has_timed_out: bool,
    pub packets_sent: u64,
}

/// What a target's send schedule says of itself.
#[derive(Debug, Clone, Copy, PartialEq, Eq, Structural)]
pub struct ScheduleFacts {
    pub next_send: Option<Instant>,
    pub finished: bool,
}

#[derive(Debug, Clone, Copy, PartialEq, Eq, Structural)]
pub enum TargetStatus {
    /// `attempt` open requests were sent. The next one is due at
    /// `next_send_at`, once the receiver has completed the drain named last.
    Opening { attempt: usize, next_send_at: Instant, awaiting_receiver_generation: Option<u64> },
    Active,
    Draining { deadline: Instant },
    Finished,
}

#[derive(Debug, Clone, Copy, PartialEq, Eq, Structural)]
pub struct TargetCounters {
    pub replies_received: u64,
    pub duplicates: u64,
    pub late: u64,
    pub warning_events: u64,
}

impl TargetCounters {
    pub open spec fn none() -> TargetCounters {
        TargetCounters { replies_received: 0, duplicates: 0, late: 0, warning_events: 0 }
    }

    pub open spec fn observing(self, event: ClientEvent) -> TargetCounters {
        match event {
            ClientEvent::EchoReply { .. } => TargetCounters {
                replies_received: bumped(self.replies_received),
                ..self
            },
            ClientEvent::DuplicateReply { .. } => TargetCounters {
                duplicates: bumped(self.duplicates),
                ..self
            },
            ClientEvent::LateReply { .. } => TargetCounters { late: bumped(self.late), ..self },
            ClientEvent::Warning { .. } => TargetCounters {
                warning_events: bumped(self.warning_events),
                ..self
            },
            _ => self,
        }
    }

    pub open spec fn observing_all(self, events: Seq<ClientEvent>) -> TargetCounters
        decreases events.len(),
    {
        if events.len() == 0 {
            self
        } else {
            self.observing_all(events.drop_last()).observing(events.last())
        }
    }
}

#[derive(Debug)]
pub struct TargetState {
    pub id: TargetId,
    pub remote: SocketAddr,
    pub configured_auth: Option<ClientAuthConfig>,
    pub session: SessionFacts,
    pub schedule: Option<ScheduleFacts>,
    pub status: TargetStatus,
    pub counters: TargetCounters,
    /// Position among all targets that the group ever had.
    pub order: u64,
    pub final_reason: Option<ManagedTargetEndReason>,
}

pub ghost struct TargetView {
    pub id: Seq<char>,
    pub remote: SocketAddr,
    pub auth: Option<Option<Seq<u8>>>,
    pub session: SessionFacts,
    pub schedule: Option<ScheduleFacts>,
    pub status: TargetStatus,
    pub counters: TargetCounters,
    pub order: u64,
    pub final_reason: Option<EndReasonView>,
}

pub open spec fn reason_view(reason: Option<ManagedTargetEndReason>) -> Option<EndReasonView> {
    match reason {
        Some(reason) => Some(reason@),
        None => None,
    }
}

impl View for TargetState {
    type V = TargetView;

    open spec fn view(&self) -> TargetView {
        TargetView {
            id: self.id@,
            remote: self.remote,
            auth: auth_view(self.configured_auth),
            session: self.session,
            schedule: self.schedule,
            status: self.status,
            counters: self.counters,
            order: self.order,
            final_reason: reason_view(self.final_reason),
        }
    }
}

/// What an open handshake made of a datagram.
#[derive(Debug)]
#[allow(inconsistent_fields)]
pub enum OpenInspection {
    /// Malformed, unrelated or unauthenticated.
    Ignored,
    /// The session refuses to go on.
    Untrusted { error: ClientError },
    /// The reply is trusted but not acceptable. `cleanup_close` closes what
    /// the server may hold open.
    Rejected { error: ClientError, cleanup_close: Option<Vec<u8>> },
    /// The session is open, or done where no test was asked for.
    Opened { outcome: OpenOutcome, schedule: Option<ScheduleFacts>, session: SessionFacts },
}

/// How far an attempt to close a session got.
#[derive(Debug)]
#[allow(inconsistent_fields)]
pub enum CloseAttempt {
    PrepareFailed { error: ClientError },
    ReserveFailed { source: TryReserveError },
    SendFailed { error: IoError },
    Sent { expected_bytes: usize, bytes: usize, event: ClientEvent, session: SessionFacts },
}

/// A probe that was handed to the network.
#[derive(Debug, Clone, Copy, PartialEq, Eq, Structural)]
pub struct SentProbe {
    pub seq: u32,
    pub expected_bytes: usize,
    pub bytes: usize,
    pub scheduled_at: Instant,
    pub sent_at: ClientTimestamp,
    pub send_call_start: Instant,
    pub send_finished_at: Instant,
    pub session: SessionFacts,
    pub schedule: ScheduleFacts,
}

/// How far an attempt to send a probe got.
#[derive(Debug)]
pub enum ProbeAttempt {
    /// The schedule did not permit a probe, or the session had none to send.
    Skipped,
    /// It failed before or in the send; nothing was committed.
    Failed { error: ClientError },
    Sent { probe: SentProbe },
}

/// What an open attempt that is looked at comes to.
#[derive(Debug, Clone, Copy, PartialEq, Eq, Structural)]
pub enum OpenStep {
    /// Nothing is to be done now.
    Wait,
    /// The target has failed to open.
    Failed,
    /// An open request is to be sent, to be answered by `deadline`.
    Send { deadline: Instant },
}

/// What a target that may have completed comes to.
#[derive(Debug, Clone, Copy, PartialEq, Eq, Structural)]
pub enum FinishStep {
    Nothing,
    /// The session is to be closed.
    Close,
}

/// The events of one target's session as a group reports them.
pub open spec fn client_events(id: Seq<char>, events: Seq<ClientEvent>) -> Seq<GroupEventView> {
    events.map_values(|event: ClientEvent| GroupEventView::Client { target: id, event })
}

pub open spec fn event_views(events: Seq<ManagedGroupEvent>) -> Seq<GroupEventView> {
    events.map_values(|event: ManagedGroupEvent| event@)
}

/// The distance between two instants.
pub open spec fn distance(first: Instant, second: Instant) -> Duration {
    if first.nanos >= second.nanos {
        Duration { nanos: (first.nanos - second.nanos) as u128 }
    } else {
        Duration { nanos: (second.nanos - first.nanos) as u128 }
    }
}

pub fn instant_abs_diff(first: Instant, second: Instant) -> (result: Duration)
    ensures
        result == distance(first, second),
{
    if first.nanos >= second.nanos {
        Duration { nanos: first.nanos - second.nanos }
    } else {
        Duration { nanos: second.nanos - first.nanos }
    }
}

/// The network took another number of bytes than the datagram has.
pub fn validate_datagram_length(expected: usize, actual: usize) -> (result: Result<(), ClientError>)
    ensures
        expected == actual ==> result is Ok,
        expected != actual ==> result == Err::<(), _>(
            ClientError::DatagramLengthMismatch { expected, actual },
        ),
{
    if expected != actual {
        return Err(ClientError::DatagramLengthMismatch { expected, actual });
    }
    Ok(())
}

impl SentProbe {
    /// The event that reports the send. The timer error is measured against
    /// the scheduled slot, the call duration around the send alone.
    pub open spec fn event(self, remote: SocketAddr) -> ClientEvent {
        ClientEvent::EchoSent {
            seq: self.seq,
            remote,
            scheduled_at: self.scheduled_at,
            sent_at: self.sent_at,
            bytes: self.bytes,
            send_call: self.send_finished_at.spec_saturating_duration_since(self.send_call_start),
            timer_error: distance(self.sent_at.mono, self.scheduled_at),
        }
    }

    /// What is reported of the send: its event, unless it was cut short.
    pub fn report(&self, remote: SocketAddr) -> (result: Result<ClientEvent, ClientError>)
        ensures
            result == (if self.bytes == self.expected_bytes {
                Ok(self.event(remote))
            } else {
                Err(
                    ClientError::DatagramLengthMismatch {
                        expected: self.expected_bytes,
                        actual: self.bytes,
                    },
                )
            }),
    {
        if let Err(error) = validate_datagram_length(self.expected_bytes, self.bytes) {
            return Err(error);
        }
        Ok(
            ClientEvent::EchoSent {
                seq: self.seq,
                remote,
                scheduled_at: self.scheduled_at,
                sent_at: self.sent_at,
                bytes: self.bytes,
                send_call: self.send_finished_at.saturating_duration_since(self.send_call_start),
                timer_error: instant_abs_diff(self.sent_at.mono, self.scheduled_at),
            },
        )
    }
}

impl TargetView {
    /// A target that is to open its session now.
    pub open spec fn fresh(
        config: ConfigView,
        session: SessionFacts,
        order: u64,
        now: Instant,
    ) -> TargetView {
        TargetView {
            id: config.id,
            remote: config.remote,
            auth: config.auth,
            session,
            schedule: None,
            status: TargetStatus::Opening {
                attempt: 0,
                next_send_at: now,
                awaiting_receiver_generation: None,
            },
            counters: TargetCounters::none(),
            order,
            final_reason: None,
        }
    }

    /// The target with its end decided. Only the first decision counts.
    pub open spec fn marked(self, reason: EndReasonView) -> TargetView {
        if self.final_reason is Some {
            self
        } else {
            TargetView {
                status: TargetStatus::Finished,
                final_reason: Some(reason),
                ..self
            }
        }
    }

    pub open spec fn same_config(self, config: ConfigView) -> bool {
        self.remote == config.remote && self.auth == config.auth
    }

    pub open spec fn run_complete(self) -> bool {
        self.session.terminal || (self.schedule matches Some(schedule) && schedule.finished
            && self.session.pending_empty)
    }

    pub open spec fn outcome(self, reason: EndReasonView) -> OutcomeView {
        OutcomeView {
            id: self.id,
            remote: self.remote,
            end_reason: reason,
            packets_sent: self.session.packets_sent,
            replies_received: self.counters.replies_received,
            duplicates: self.counters.duplicates,
            late: self.counters.late,
            warning_events: self.counters.warning_events,
        }
    }

    pub open spec fn observed(self, events: Seq<ClientEvent>) -> TargetView {
        TargetView { counters: self.counters.observing_all(events), ..self }
    }

    /// When the target may send next.
    pub open spec fn send_deadline(self) -> Option<Instant> {
        match (self.status, self.schedule) {
            (TargetStatus::Active, Some(schedule)) => schedule.next_send,
            _ => None,
        }
    }

    /// A datagram from the target may still answer its current open attempt:
    /// one was sent, and it was not yet given up.
    pub open spec fn expects_open_reply(self, completed: u64) -> bool {
        self.status matches TargetStatus::Opening { attempt, awaiting_receiver_generation, .. }
            && attempt > 0 && !(awaiting_receiver_generation matches Some(generation) && completed
            >= generation)
    }

    /// The target after a datagram was inspected for its open reply.
    pub open spec fn inspected(self, inspection: OpenInspection) -> TargetView {
        match inspection {
            OpenInspection::Ignored => self,
            OpenInspection::Untrusted { error } => self.marked(
                EndReasonView::OpenFailed(opening_failure(error)),
            ),
            OpenInspection::Rejected { error, .. } => self.marked(
                EndReasonView::OpenFailed(opening_failure(error)),
            ),
            OpenInspection::Opened { outcome, schedule, session } => {
                let opened = TargetView { session, schedule, ..self };
                match outcome {
                    OpenOutcome::Started { .. } => TargetView {
                        status: TargetStatus::Active,
                        ..opened
                    },
                    OpenOutcome::NoTestCompleted { event } => opened.observed(seq![event]).marked(
                        EndReasonView::NoTestComplete,
                    ),
                }
            },
        }
    }

    /// The target after a packet of its open session was processed.
    pub open spec fn processed(
        self,
        result: Result<Vec<ClientEvent>, ClientError>,
        session: SessionFacts,
    ) -> TargetView {
        match result {
            Ok(events) => {
                let observed = TargetView { session, ..self.observed(events@) };
                if session.peer_closed {
                    TargetView { schedule: None, ..observed }.marked(EndReasonView::PeerClosed)
                } else {
                    observed
                }
            },
            Err(error) => TargetView { session, ..self }.marked(
                EndReasonView::Failed(runtime_failure(error)),
            ),
        }
    }

    /// The target whose current open attempt has expired waits for the
    /// receiver to have found its queue empty.
    pub open spec fn awaits_drain(self, now: Instant) -> bool {
        self.status matches TargetStatus::Opening {
            attempt,
            next_send_at,
            awaiting_receiver_generation,
        } && awaiting_receiver_generation is None && attempt > 0 && next_send_at.nanos <= now.nanos
    }

    /// The next open attempt may be made.
    pub open spec fn open_due(self, completed: u64, now: Instant) -> bool {
        self.status matches TargetStatus::Opening {
            attempt,
            next_send_at,
            awaiting_receiver_generation,
        } && next_send_at.nanos <= now.nanos && (attempt == 0 || (
        awaiting_receiver_generation matches Some(generation) && completed >= generation))
    }

    /// What the next open attempt comes to.
    pub open spec fn open_stepped(
        self,
        completed: u64,
        now: Instant,
        sent_at: Instant,
        timeouts: Seq<Duration>,
    ) -> (TargetView, OpenStep) {
        if !self.open_due(completed, now) {
            (self, OpenStep::Wait)
        } else {
            let attempt = self.status->attempt as int;
            if attempt >= timeouts.len() {
                (
                    self.marked(
                        EndReasonView::OpenFailed(opening_failure(ClientError::OpenTimeout)),
                    ),
                    OpenStep::Failed,
                )
            } else {
                match sent_at.spec_checked_add(timeouts[attempt]) {
                    Some(deadline) => (self, OpenStep::Send { deadline }),
                    None => (
                        self.marked(
                            EndReasonView::OpenFailed(
                                opening_failure(ClientError::DurationOverflow),
                            ),
                        ),
                        OpenStep::Failed,
                    ),
                }
            }
        }
    }

    /// The target after an open request was sent, or failed to be.
    pub open spec fn open_sent(self, deadline: Instant, result: Result<(), IoError>) -> TargetView {
        match result {
            Ok(_) => TargetView {
                status: TargetStatus::Opening {
                    attempt: (self.status->attempt + 1) as usize,
                    next_send_at: deadline,
                    awaiting_receiver_generation: None,
                },
                ..self
            },
            Err(error) => self.marked(
                EndReasonView::OpenFailed(opening_failure(ClientError::Socket(error))),
            ),
        }
    }

    pub open spec fn in_session(self) -> bool {
        self.status is Active || self.status is Draining
    }

    /// The target after its due probes were expired.
    pub open spec fn expired(
        self,
        result: Result<Vec<ClientEvent>, ClientError>,
        session: SessionFacts,
    ) -> TargetView {
        match result {
            Ok(events) => TargetView { session, ..self.observed(events@) },
            Err(error) => TargetView { session, ..self }.marked(
                EndReasonView::Failed(runtime_failure(error)),
            ),
        }
    }

    /// What a target that may have completed comes to.
    pub open spec fn completion(self, now: Instant, final_drain: u128) -> (TargetView, FinishStep) {
        match self.status {
            TargetStatus::Active if self.run_complete() => if self.session.peer_closed {
                (self.marked(EndReasonView::PeerClosed), FinishStep::Nothing)
            } else if self.session.has_timed_out {
                (
                    TargetView {
                        status: TargetStatus::Draining {
                            deadline: Instant { nanos: (now.nanos + final_drain) as u128 },
                        },
                        ..self
                    },
                    FinishStep::Nothing,
                )
            } else {
                (self, FinishStep::Close)
            },
            TargetStatus::Draining { deadline } => if self.session.peer_closed {
                (self.marked(EndReasonView::PeerClosed), FinishStep::Nothing)
            } else if now.nanos >= deadline.nanos || !self.session.has_timed_out {
                (self, FinishStep::Close)
            } else {
                (self, FinishStep::Nothing)
            },
            _ => (self, FinishStep::Nothing),
        }
    }

    /// The target has completed its test and late replies could still come.
    pub open spec fn begins_drain(self) -> bool {
        self.status is Active && self.run_complete() && !self.session.peer_closed
            && self.session.has_timed_out
    }

    /// The target has a session that has to be closed.
    pub open spec fn needs_close(self) -> bool {
        self.session.open && !self.session.peer_closed
    }

    /// The target after it was closed for `reason`, and what its close reports.
    pub open spec fn closed(
        self,
        reason: EndReasonView,
        attempt: Option<CloseAttempt>,
    ) -> (TargetView, Seq<ClientEvent>) {
        match attempt {
            Some(CloseAttempt::PrepareFailed { error }) => (
                self.marked(EndReasonView::Failed(runtime_failure(error))),
                Seq::empty(),
            ),
            Some(CloseAttempt::ReserveFailed { source }) => (
                self.marked(
                    EndReasonView::Failed(
                        runtime_failure(
                            ClientError::AllocationFailed {
                                operation: "managed close event result",
                                source,
                            },
                        ),
                    ),
                ),
                Seq::empty(),
            ),
            Some(CloseAttempt::SendFailed { error }) => (
                self.marked(EndReasonView::Failed(runtime_failure(ClientError::Socket(error)))),
                Seq::empty(),
            ),
            Some(CloseAttempt::Sent { expected_bytes, bytes, event, session }) => {
                let committed = TargetView { session, schedule: None, ..self };
                if expected_bytes != bytes {
                    (
                        committed.marked(
                            EndReasonView::Failed(
                                runtime_failure(
                                    ClientError::DatagramLengthMismatch {
                                        expected: expected_bytes,
                                        actual: bytes,
                                    },
                                ),
                            ),
                        ),
                        Seq::empty(),
                    )
                } else {
                    (committed.observed(seq![event]).marked(reason), seq![event])
                }
            },
            None => (self.marked(reason), Seq::empty()),
        }
    }

    /// The target after an attempt to send a probe, and what it reports.
    pub open spec fn probed(self, attempt: ProbeAttempt) -> (TargetView, Seq<ClientEvent>) {
        if !(self.status is Active) {
            (self, Seq::empty())
        } else {
            match attempt {
                ProbeAttempt::Skipped => (self, Seq::empty()),
                ProbeAttempt::Failed { error } => (
                    self.marked(EndReasonView::Failed(runtime_failure(error))),
                    Seq::empty(),
                ),
                ProbeAttempt::Sent { probe } => {
                    let committed = TargetView {
                        session: probe.session,
                        schedule: Some(probe.schedule),
                        ..self
                    };
                    if probe.bytes == probe.expected_bytes {
                        let event = probe.event(self.remote);
                        (committed.observed(seq![event]), seq![event])
                    } else {
                        (
                            committed.marked(
                                EndReasonView::Failed(
                                    runtime_failure(
                                        ClientError::DatagramLengthMismatch {
                                            expected: probe.expected_bytes,
                                            actual: probe.bytes,
                                        },
                                    ),
                                ),
                            ),
                            Seq::empty(),
                        )
                    }
                },
            }
        }
    }
}

/// Events of one kind are counted in one place, each of them once: a count
/// grows by the number of its events, up to its limit.
pub proof fn law_target_events_are_counted(target: TargetView, events: Seq<ClientEvent>)
    ensures
        ({
            let before = target.counters;
            let after = target.observed(events);
            &&& after.counters.replies_received == capped_sum(
                before.replies_received,
                events.filter(|event: ClientEvent| event is EchoReply).len(),
            )
            &&& after.counters.duplicates == capped_sum(
                before.duplicates,
                events.filter(|event: ClientEvent| event is DuplicateReply).len(),
            )
            &&& after.counters.late == capped_sum(
                before.late,
                events.filter(|event: ClientEvent| event is LateReply).len(),
            )
            &&& after.counters.warning_events == capped_sum(
                before.warning_events,
                events.filter(|event: ClientEvent| event is Warning).len(),
            )
            &&& after == (TargetView { counters: after.counters, ..target })
        }),
    decreases events.len(),
{
    let echo = |event: ClientEvent| event is EchoReply;
    let duplicate = |event: ClientEvent| event is DuplicateReply;
    let late = |event: ClientEvent| event is LateReply;
    let warning = |event: ClientEvent| event is Warning;
    if events.len() == 0 {
        assert(events =~= Seq::empty());
        lemma_filter_empty(echo);
        lemma_filter_empty(duplicate);
        lemma_filter_empty(late);
        lemma_filter_empty(warning);
    } else {
        law_target_events_are_counted(target, events.drop_last());
        lemma_filter_last(events, echo);
        lemma_filter_last(events, duplicate);
        lemma_filter_last(events, late);
        lemma_filter_last(events, warning);
    }
}

/// The first decision about a target's end stands: nothing that happens later
/// changes it.
pub proof fn law_first_end_reason_stands(target: TargetView, reason: EndReasonView, other: EndReasonView)
    ensures
        target.marked(reason).final_reason is Some,
        target.marked(reason).marked(other) == target.marked(reason),
        target.final_reason is None ==> target.marked(reason).final_reason == Some(reason)
            && target.marked(reason).status is Finished,
        target.final_reason is Some ==> target.marked(reason) == target,
{
}

/// A peer close that was processed wins over a later send, close or expiry.
pub proof fn law_peer_close_wins(
    target: TargetView,
    events: Vec<ClientEvent>,
    session: SessionFacts,
    reason: EndReasonView,
    attempt: Option<CloseAttempt>,
    probe: ProbeAttempt,
)
    requires
        target.final_reason is None,
        session.peer_closed,
    ensures
        ({
            let after = target.processed(Ok(events), session);
            &&& after.final_reason == Some(EndReasonView::PeerClosed)
            &&& after.schedule is None
            &&& after.probed(probe).0 == after
            &&& after.closed(reason, attempt).0.final_reason == Some(EndReasonView::PeerClosed)
            &&& !after.needs_close()
        }),
{
}

/// A short close is committed before it is reported as a failure, and a close
/// that failed to be sent leaves the session as it was.
pub proof fn law_close_commits_what_was_sent(
    target: TargetView,
    reason: EndReasonView,
    attempt: CloseAttempt,
)
    requires
        target.final_reason is None,
    ensures
        ({
            let (after, reported) = target.closed(reason, Some(attempt));
            match attempt {
                CloseAttempt::Sent { expected_bytes, bytes, event, session } => {
                    &&& after.session == session
                    &&& after.schedule is None
                    &&& expected_bytes == bytes <==> reported.len() == 1
                    &&& expected_bytes == bytes ==> after.final_reason == Some(reason)
                    &&& expected_bytes != bytes ==> after.final_reason->0 is Failed
                },
                _ => {
                    &&& after.session == target.session
                    &&& after.schedule == target.schedule
                    &&& reported.len() == 0
                    &&& after.final_reason->0 is Failed
                },
            }
        }),
{
}

impl TargetState {
    pub fn new(
        target: ManagedTargetConfig,
        session: Result<SessionFacts, ClientError>,
        order: u64,
        now: Instant,
    ) -> (result: Result<TargetState, ClientError>)
        ensures
            match session {
                Ok(session) => result matches Ok(state) && state@ == TargetView::fresh(
                    target@,
                    session,
                    order,
                    now,
                ),
                Err(error) => result == Err::<TargetState, _>(error),
            },
    {
        let session = match session {
            Ok(session) => session,
            Err(error) => {
                return Err(error);
            },
        };
        Ok(
            TargetState {
                id: target.id,
                remote: target.remote,
                configured_auth: target.auth,
                session,
                schedule: None,
                status: TargetStatus::Opening {
                    attempt: 0,
                    next_send_at: now,
                    awaiting_receiver_generation: None,
                },
                counters: TargetCounters {
                    replies_received: 0,
                    duplicates: 0,
                    late: 0,
                    warning_events: 0,
                },
                order,
                final_reason: None,
            },
        )
    }

    pub fn same_config(&self, config: &ManagedTargetConfig) -> (result: bool)
        ensures
            result == self@.same_config(config@),
    {
        self.remote == config.remote && match (&self.configured_auth, &config.auth) {
            (Some(first), Some(second)) => first.same(second),
            (None, None) => true,
            _ => false,
        }
    }

    pub fn observe(&mut self, event: &ClientEvent)
        ensures
            final(self)@ == (TargetView {
                counters: old(self)@.counters.observing(*event),
                ..old(self)@
            }),
    {
        match event {
            ClientEvent::EchoReply { .. } => {
                self.counters.replies_received = self.counters.replies_received.saturating_add(1);
            },
            ClientEvent::DuplicateReply { .. } => {
                self.counters.duplicates = self.counters.duplicates.saturating_add(1);
            },
            ClientEvent::LateReply { .. } => {
                self.counters.late = self.counters.late.saturating_add(1);
            },
            ClientEvent::Warning { .. } => {
                self.counters.warning_events = self.counters.warning_events.saturating_add(1);
            },
            _ => {},
        }
    }

    pub fn mark_finished(&mut self, reason: ManagedTargetEndReason)
        ensures
            final(self)@ == old(self)@.marked(reason@),
    {
        if self.final_reason.is_some() {
            return;
        }
        self.status = TargetStatus::Finished;
        self.final_reason = Some(reason);
    }

    pub fn is_run_complete(&self) -> (result: bool)
        ensures
            result == self@.run_complete(),
    {
        self.session.terminal || match self.schedule {
            Some(schedule) => schedule.finished && self.session.pending_empty,
            None => false,
        }
    }

    pub fn outcome(&self, reason: ManagedTargetEndReason) -> (result: ManagedTargetOutcome)
        ensures
            result@ == self@.outcome(reason@),
    {
        ManagedTargetOutcome {
            id: self.id.clone(),
            remote: self.remote,
            end_reason: reason,
            packets_sent: self.session.packets_sent,
            replies_received: self.counters.replies_received,
            duplicates: self.counters.duplicates,
            late: self.counters.late,
            warning_events: self.counters.warning_events,
        }
    }

    pub fn next_send_deadline(&self) -> (result: Option<Instant>)
        ensures
            result == self@.send_deadline(),
    {
        match (self.status, self.schedule) {
            (TargetStatus::Active, Some(schedule)) => schedule.next_send,
            _ => None,
        }
    }

    /// Counts and reports events of the target's session.
    pub fn publish_events(&mut self, events: Vec<ClientEvent>, outbox: &mut Vec<ManagedGroupEvent>)
        ensures
            final(self)@ == old(self)@.observed(events@),
            event_views(final(outbox)@) == event_views(old(outbox)@) + client_events(
                old(self)@.id,
                events@,
            ),
    {
        let mut i: usize = 0;
        proof {
            assert(events@.take(0) =~= Seq::<ClientEvent>::empty());
            assert(event_views(outbox@) + client_events(self@.id, events@.take(0)) =~= event_views(
                outbox@,
            ));
        }
        while i < events.len()
            invariant
                i <= events@.len(),
                self@ == old(self)@.observed(events@.take(i as int)),
                event_views(outbox@) == event_views(old(outbox)@) + client_events(
                    old(self)@.id,
                    events@.take(i as int),
                ),
            decreases events@.len() - i,
        {
            let event = &events[i];
            let ghost before = outbox@;
            proof {
                assert(events@.take(i as int + 1).drop_last() =~= events@.take(i as int));
            }
            self.observe(event);
            outbox.push(
                ManagedGroupEvent::Client(
                    TargetEvent { target: self.id.clone(), event: event.clone() },
                ),
            );
            proof {
                assert(event_views(outbox@) =~= event_views(before).push(outbox@.last()@));
                assert(client_events(old(self)@.id, events@.take(i as int + 1)) =~= client_events(
                    old(self)@.id,
                    events@.take(i as int),
                ).push(GroupEventView::Client { target: old(self)@.id, event: *event }));
                assert(event_views(outbox@) =~= event_views(old(outbox)@) + client_events(
                    old(self)@.id,
                    events@.take(i as int + 1),
                ));
            }
            i += 1;
        }
        assert(events@.take(i as int) =~= events@);
    }

    /// Takes in how a datagram was inspected while the target opens. Gives the
    /// packet, if any, that is to be sent to the target without further ado,
    /// and whether the scheduler has to be woken.
    pub fn conclude_inspection(
        &mut self,
        inspection: OpenInspection,
        outbox: &mut Vec<ManagedGroupEvent>,
    ) -> (result: (Option<Vec<u8>>, bool))
        ensures
            final(self)@ == old(self)@.inspected(inspection),
            event_views(final(outbox)@) == (match inspection {
                OpenInspection::Opened { outcome, .. } => event_views(old(outbox)@).push(
                    GroupEventView::Client { target: old(self)@.id, event: outcome.event() },
                ),
                _ => event_views(old(outbox)@),
            }),
            result.0 == (match inspection {
                OpenInspection::Rejected { cleanup_close, .. } => cleanup_close,
                _ => None,
            }),
            result.1 == !(inspection is Ignored),
    {
        match inspection {
            OpenInspection::Ignored => (None, false),
            OpenInspection::Untrusted { error } => {
                self.mark_finished(
                    ManagedTargetEndReason::OpenFailed(ManagedTargetFailure::opening(&error)),
                );
                (None, true)
            },
            OpenInspection::Rejected { error, cleanup_close } => {
                self.mark_finished(
                    ManagedTargetEndReason::OpenFailed(ManagedTargetFailure::opening(&error)),
                );
                (cleanup_close, true)
            },
            OpenInspection::Opened { outcome, schedule, session } => {
                self.session = session;
                self.schedule = schedule;
                self.publish_open_outcome(outcome, outbox);
                (None, true)
            },
        }
    }

    fn publish_open_outcome(&mut self, outcome: OpenOutcome, outbox: &mut Vec<ManagedGroupEvent>)
        ensures
            final(self)@ == (match outcome {
                OpenOutcome::Started { .. } => TargetView {
                    status: TargetStatus::Active,
                    ..old(self)@
                },
                OpenOutcome::NoTestCompleted { event } => old(self)@.observed(seq![event]).marked(
                    EndReasonView::NoTestComplete,
                ),
            }),
            event_views(final(outbox)@) == event_views(old(outbox)@).push(
                GroupEventView::Client { target: old(self)@.id, event: outcome.event() },
            ),
    {
        let ghost before = outbox@;
        match outcome {
            OpenOutcome::Started { event } => {
                self.status = TargetStatus::Active;
                outbox.push(
                    ManagedGroupEvent::Client(TargetEvent { target: self.id.clone(), event }),
                );
            },
            OpenOutcome::NoTestCompleted { event } => {
                proof {
                    lemma_observing_one(self@.counters, event);
                }
                self.observe(&event);
                outbox.push(
                    ManagedGroupEvent::Client(TargetEvent { target: self.id.clone(), event }),
                );
                self.mark_finished(ManagedTargetEndReason::NoTestComplete);
            },
        }
        assert(event_views(outbox@) =~= event_views(before).push(outbox@.last()@));
    }

    /// Takes in what a packet of the open session came to, and tells whether
    /// the scheduler has to be woken.
    pub fn process_active_target_packet(
        &mut self,
        result: Result<Vec<ClientEvent>, ClientError>,
        session: SessionFacts,
        outbox: &mut Vec<ManagedGroupEvent>,
    ) -> (wake: bool)
        ensures
            final(self)@ == old(self)@.processed(result, session),
            event_views(final(outbox)@) == event_views(old(outbox)@) + client_events(
                old(self)@.id,
                match result {
                    Ok(events) => events@,
                    Err(_) => Seq::empty(),
                },
            ),
            wake == (match result {
                Ok(_) => session.peer_closed || (old(self)@.status is Draining
                    && !session.has_timed_out),
                Err(_) => true,
            }),
    {
        let was_draining: bool = match self.status {
            TargetStatus::Draining { .. } => true,
            _ => false,
        };
        self.session = session;
        match result {
            Ok(events) => {
                self.publish_events(events, outbox);
                if session.peer_closed {
                    self.schedule = None;
                    self.mark_finished(ManagedTargetEndReason::PeerClosed);
                    true
                } else {
                    was_draining && !session.has_timed_out
                }
            },
            Err(error) => {
                self.mark_finished(
                    ManagedTargetEndReason::Failed(ManagedTargetFailure::runtime(&error)),
                );
                assert(client_events(old(self)@.id, Seq::empty()) =~= Seq::empty());
                assert(event_views(outbox@) + Seq::<GroupEventView>::empty() =~= event_views(
                    outbox@,
                ));
                true
            },
        }
    }

    /// Decides about the next open attempt. `sent_at` is when a request would
    /// be sent.
    pub fn step_open(
        &mut self,
        completed: u64,
        now: Instant,
        sent_at: Instant,
        timeouts: &Vec<Duration>,
    ) -> (result: OpenStep)
        ensures
            (final(self)@, result) == old(self)@.open_stepped(completed, now, sent_at, timeouts@),
            result is Send ==> old(self)@.status is Opening && old(self)@.status->attempt
                < timeouts@.len() && old(self)@.status->attempt < usize::MAX,
    {
        if let TargetStatus::Opening { attempt, next_send_at, awaiting_receiver_generation } =
            self.status {
            if next_send_at.nanos > now.nanos {
                return OpenStep::Wait;
            }
            if attempt > 0 {
                let released: bool = match awaiting_receiver_generation {
                    Some(generation) => completed >= generation,
                    None => false,
                };
                if !released {
                    return OpenStep::Wait;
                }
            }
            if attempt >= timeouts.len() {
                self.mark_finished(
                    ManagedTargetEndReason::OpenFailed(
                        ManagedTargetFailure::opening(&ClientError::OpenTimeout),
                    ),
                );
                return OpenStep::Failed;
            }
            return match sent_at.checked_add(timeouts[attempt]) {
                Some(deadline) => OpenStep::Send { deadline },
                None => {
                    self.mark_finished(
                        ManagedTargetEndReason::OpenFailed(
                            ManagedTargetFailure::opening(&ClientError::DurationOverflow),
                        ),
                    );
                    OpenStep::Failed
                },
            };
        }
        OpenStep::Wait
    }

    /// Takes in that an open request was sent, or failed to be.
    pub fn conclude_open_send(&mut self, deadline: Instant, result: Result<(), IoError>)
        requires
            old(self)@.status is Opening,
            old(self)@.status->attempt < usize::MAX,
        ensures
            final(self)@ == old(self)@.open_sent(deadline, result),
    {
        match result {
            Ok(()) => {
                if let TargetStatus::Opening { attempt, .. } = self.status {
                    self.status =
                    TargetStatus::Opening {
                        attempt: attempt + 1,
                        next_send_at: deadline,
                        awaiting_receiver_generation: None,
                    };
                }
            },
            Err(error) => {
                self.mark_finished(
                    ManagedTargetEndReason::OpenFailed(
                        ManagedTargetFailure::opening(&ClientError::Socket(error)),
                    ),
                );
            },
        }
    }

    /// Registers a drain for an open attempt that has expired.
    pub fn register_drain(&mut self, drain: &mut ReceiverDrainState, now: Instant)
        ensures
            !old(self)@.awaits_drain(now) ==> final(self)@ == old(self)@ && *final(drain) == *old(
                drain,
            ),
            old(self)@.awaits_drain(now) ==> match old(drain).joined() {
                Some(joined) => {
                    &&& *final(drain) == joined
                    &&& final(self)@ == (TargetView {
                        status: TargetStatus::Opening {
                            attempt: old(self)@.status->attempt,
                            next_send_at: old(self)@.status->next_send_at,
                            awaiting_receiver_generation: Some(joined.requested),
                        },
                        ..old(self)@
                    })
                },
                None => {
                    &&& *final(drain) == *old(drain)
                    &&& final(self)@ == old(self)@.marked(
                        EndReasonView::OpenFailed(
                            opening_failure(
                                ClientError::CounterOverflow {
                                    counter: "receiver_drain_generation",
                                },
                            ),
                        ),
                    )
                },
            },
    {
        if let TargetStatus::Opening { attempt, next_send_at, awaiting_receiver_generation } =
            self.status {
            if awaiting_receiver_generation.is_some() || attempt == 0 || next_send_at.nanos
                > now.nanos {
                return;
            }
            match drain.request_or_join() {
                Ok(generation) => {
                    self.status =
                    TargetStatus::Opening {
                        attempt,
                        next_send_at,
                        awaiting_receiver_generation: Some(generation),
                    };
                },
                Err(error) => {
                    self.mark_finished(
                        ManagedTargetEndReason::OpenFailed(ManagedTargetFailure::opening(&error)),
                    );
                },
            }
        }
    }

    /// Takes in that the due probes of the session were expired.
    pub fn conclude_timeouts(
        &mut self,
        result: Result<Vec<ClientEvent>, ClientError>,
        session: SessionFacts,
        outbox: &mut Vec<ManagedGroupEvent>,
    )
        ensures
            final(self)@ == old(self)@.expired(result, session),
            event_views(final(outbox)@) == event_views(old(outbox)@) + client_events(
                old(self)@.id,
                match result {
                    Ok(events) => events@,
                    Err(_) => Seq::empty(),
                },
            ),
    {
        self.session = session;
        match result {
            Ok(events) => {
                self.publish_events(events, outbox);
            },
            Err(error) => {
                self.mark_finished(
                    ManagedTargetEndReason::Failed(ManagedTargetFailure::runtime(&error)),
                );
                assert(client_events(old(self)@.id, Seq::empty()) =~= Seq::empty());
                assert(event_views(outbox@) + Seq::<GroupEventView>::empty() =~= event_views(
                    outbox@,
                ));
            },
        }
    }

    /// Decides whether the target has completed. A run that has completed
    /// drains late replies for `final_drain` nanoseconds where some could
    /// still come.
    pub fn step_completion(&mut self, now: Instant, final_drain: u128) -> (result: FinishStep)
        requires
            old(self)@.begins_drain() ==> now.nanos + final_drain <= MAX_INSTANT_NANOS,
        ensures
            (final(self)@, result) == old(self)@.completion(now, final_drain),
    {
        match self.status {
            TargetStatus::Active => {
                if !self.is_run_complete() {
                    return FinishStep::Nothing;
                }
                if self.session.peer_closed {
                    self.mark_finished(ManagedTargetEndReason::PeerClosed);
                    FinishStep::Nothing
                } else if self.session.has_timed_out {
                    self.status =
                    TargetStatus::Draining { deadline: Instant { nanos: now.nanos + final_drain } };
                    FinishStep::Nothing
                } else {
                    FinishStep::Close
                }
            },
            TargetStatus::Draining { deadline } => {
                if self.session.peer_closed {
                    self.mark_finished(ManagedTargetEndReason::PeerClosed);
                    FinishStep::Nothing
                } else if now.nanos >= deadline.nanos || !self.session.has_timed_out {
                    FinishStep::Close
                } else {
                    FinishStep::Nothing
                }
            },
            _ => FinishStep::Nothing,
        }
    }

    /// Whether the target starts to drain late replies when it is next looked
    /// at for completion.
    pub fn begins_drain(&self) -> (result: bool)
        ensures
            result == self@.begins_drain(),
    {
        match self.status {
            TargetStatus::Active => self.is_run_complete() && !self.session.peer_closed
                && self.session.has_timed_out,
            _ => false,
        }
    }

    /// Whether the target has a session that has to be closed.
    pub fn needs_close(&self) -> (result: bool)
        ensures
            result == self@.needs_close(),
    {
        self.session.open && !self.session.peer_closed
    }

    /// Closes the target for `reason`. `attempt` is there exactly where the
    /// session had to be closed. A close that fails is what the target ends
    /// with.
    pub fn close_locked_target(
        &mut self,
        reason: ManagedTargetEndReason,
        attempt: Option<CloseAttempt>,
        outbox: &mut Vec<ManagedGroupEvent>,
    )
        requires
            attempt is Some <==> old(self)@.needs_close(),
        ensures
            final(self)@ == old(self)@.closed(reason@, attempt).0,
            event_views(final(outbox)@) == event_views(old(outbox)@) + client_events(
                old(self)@.id,
                old(self)@.closed(reason@, attempt).1,
            ),
    {
        proof {
            assert(client_events(self@.id, Seq::empty()) =~= Seq::<GroupEventView>::empty());
            assert(event_views(outbox@) + Seq::<GroupEventView>::empty() =~= event_views(outbox@));
        }
        let failure = match attempt {
            None => {
                self.mark_finished(reason);
                return;
            },
            Some(CloseAttempt::PrepareFailed { error }) => ManagedTargetFailure::runtime(&error),
            Some(CloseAttempt::ReserveFailed { source }) => {
                let error = ClientError::AllocationFailed {
                    operation: "managed close event result",
                    source,
                };
                ManagedTargetFailure::runtime(&error)
            },
            Some(CloseAttempt::SendFailed { error }) => {
                let error = ClientError::Socket(error);
                ManagedTargetFailure::runtime(&error)
            },
            Some(CloseAttempt::Sent { expected_bytes, bytes, event, session }) => {
                self.session = session;
                self.schedule = None;
                match validate_datagram_length(expected_bytes, bytes) {
                    Ok(()) => {
                        let events: Vec<ClientEvent> = vec![event];
                        assert(events@ =~= seq![event]);
                        self.publish_events(events, outbox);
                        self.mark_finished(reason);
                        return;
                    },
                    Err(error) => ManagedTargetFailure::runtime(&error),
                }
            },
        };
        self.mark_finished(ManagedTargetEndReason::Failed(failure));
    }

    /// Takes in an attempt to send a probe. An event of the send is reported
    /// at once, ahead of a reply to it.
    pub fn conclude_probe(&mut self, attempt: ProbeAttempt, outbox: &mut Vec<ManagedGroupEvent>)
        ensures
            final(self)@ == old(self)@.probed(attempt).0,
            event_views(final(outbox)@) == event_views(old(outbox)@) + client_events(
                old(self)@.id,
                old(self)@.probed(attempt).1,
            ),
    {
        proof {
            assert(client_events(self@.id, Seq::empty()) =~= Seq::<GroupEventView>::empty());
            assert(event_views(outbox@) + Seq::<GroupEventView>::empty() =~= event_views(outbox@));
        }
        match self.status {
            TargetStatus::Active => {},
            _ => {
                return;
            },
        }
        match attempt {
            ProbeAttempt::Skipped => {},
            ProbeAttempt::Failed { error } => {
                self.mark_finished(
                    ManagedTargetEndReason::Failed(ManagedTargetFailure::runtime(&error)),
                );
            },
            ProbeAttempt::Sent { probe } => {
                self.session = probe.session;
                self.schedule = Some(probe.schedule);
                match probe.report(self.remote) {
                    Ok(event) => {
                        let events: Vec<ClientEvent> = vec![event];
                        assert(events@ =~= seq![event]);
                        self.publish_events(events, outbox);
                    },
                    Err(error) => {
                        self.mark_finished(
                            ManagedTargetEndReason::Failed(ManagedTargetFailure::runtime(&error)),
                        );
                    },
                }
            },
        }
    }
}

proof fn lemma_observing_one(counters: TargetCounters, event: ClientEvent)
    ensures
        counters.observing_all(seq![event]) == counters.observing(event),
{
    assert(seq![event].drop_last() =~= Seq::<ClientEvent>::empty());
    assert(counters.observing_all(seq![event].drop_last()) == counters);
}

/// What is said of a target is what its fields hold, each of its own.
pub proof fn law_target_is_seen_as_it_is(target: TargetState)
    ensures
        target@.id == target.id@ && target@.remote == target.remote,
        target.configured_auth is None <==> target@.auth is None,
        target.configured_auth matches Some(auth) ==> target@.auth == Some(auth@),
        target@.session == target.session && target@.schedule == target.schedule,
        target@.status == target.status && target@.counters == target.counters,
        target@.order == target.order,
        target.final_reason is None <==> target@.final_reason is None,
        target.final_reason matches Some(reason) ==> target@.final_reason == Some(reason@),
{
}

} // verus!
