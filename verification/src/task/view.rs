//! The driver's state as contracts speak of it, and its transitions.
use vstd::prelude::*;

use crate::config::ClientConfigView;
use crate::error::ClientError;
use crate::event::ClientEvent;
use crate::history::HistoryView;
use crate::model::{
    classified, EndReasonView, EventView, FailureView, InstanceView, ManagedClientConfigView,
    ManagedEndReason, ManagedEvent, ManagedLifecycle, ManagedOutcomeView, ManagedStatus,
    ManagedTargetFailurePhase, ManagedTargetLifecycle, StatusView, TargetInstance,
};
use crate::config::ClientConfig;
use crate::task::target::{
    ClientFacts, ClosePoll, ConnectPoll, OpenPoll, ReceivePoll, TargetPoll, TargetRequest,
    TargetStateView, TargetView, TimeoutPoll,
};
use crate::timing::{earlier, Duration, Instant};

verus! {

/// Most targets looked at in one pass.
pub const TARGET_WORK_BUDGET: usize = 128;

/// Most commands taken in one poll.
pub const COMMAND_WORK_BUDGET: usize = 32;

/// Most targets looked at for due probes, and most probes expired, in one pass.
pub const TIMEOUT_WORK_BUDGET: usize = 128;

/// Most datagrams still received once a drain deadline has passed.
pub const POST_DEADLINE_RECEIVE_BUDGET: usize = 128;

#[derive(Debug, Clone, Copy, PartialEq, Eq, Structural)]
pub enum DriverState {
    NotStarted,
    Running,
    Stopping,
    Finished,
}

/// A target whose due probes wait to be expired. The generation tells it from
/// another target that took its place in the list.
#[derive(Debug, Clone, Copy, PartialEq, Eq, Structural)]
pub struct TimeoutBacklogEntry {
    pub index: usize,
    pub generation: u64,
}

/// Positions of the driver's round-robin passes.
#[derive(Debug, Clone, Copy, PartialEq, Eq, Structural)]
pub struct Cursors {
    pub cursor: usize,
    pub scan_remaining: usize,
    pub timeout_cursor: usize,
    pub send_cursor: usize,
    pub burst_remaining: usize,
    pub stagger_remaining: usize,
}

/// Something the driver wants done, in the order in which it is listed.
#[derive(Debug)]
#[allow(inconsistent_fields)]
pub enum TaskEffect {
    /// Replace the published status.
    Status { status: ManagedStatus },
    /// Publish an event.
    Event { event: ManagedEvent },
    /// Start connecting the session of a target.
    Connect { target: TargetInstance, client_config: ClientConfig },
    /// Drop the probe that the session of a target has prepared but not sent.
    DiscardPreparedProbe { target: TargetInstance },
    /// Refuse updates from now on.
    CloseUpdates,
    /// Tell waiters that the stop was observed.
    AcknowledgeStop,
    /// Close the command queue. What it still holds is refused for the reason
    /// for which the driver ends, and later submissions find it closed.
    CloseCommands { end_reason: ManagedEndReason },
    /// Let go of the event channel.
    CloseEvents,
}

#[allow(inconsistent_fields)]
pub ghost enum EffectView {
    Status { status: StatusView },
    Event { event: EventView },
    Connect { target: InstanceView, client_config: ClientConfigView },
    DiscardPreparedProbe { target: InstanceView },
    CloseUpdates,
    AcknowledgeStop,
    CloseCommands { end_reason: ManagedEndReason },
    CloseEvents,
}

impl View for TaskEffect {
    type V = EffectView;

    open spec fn view(&self) -> EffectView {
        match self {
            TaskEffect::Status { status } => EffectView::Status { status: status@ },
            TaskEffect::Event { event } => EffectView::Event { event: event@ },
            TaskEffect::Connect { target, client_config } => EffectView::Connect {
                target: target@,
                client_config: client_config@,
            },
            TaskEffect::DiscardPreparedProbe { target } => EffectView::DiscardPreparedProbe {
                target: target@,
            },
            TaskEffect::CloseUpdates => EffectView::CloseUpdates,
            TaskEffect::AcknowledgeStop => EffectView::AcknowledgeStop,
            TaskEffect::CloseCommands { end_reason } => EffectView::CloseCommands {
                end_reason: *end_reason,
            },
            TaskEffect::CloseEvents => EffectView::CloseEvents,
        }
    }
}

/// The whole state of the driver.
pub ghost struct TaskView {
    pub state: DriverState,
    pub lifecycle: ManagedLifecycle,
    pub config: ManagedClientConfigView,
    pub targets: Seq<TargetView>,
    pub history: HistoryView,
    /// Next target of the current pass over all targets, and how many are left.
    pub cursor: usize,
    pub scan_remaining: usize,
    /// Next target to look at for due probes, the targets found with some, and
    /// how many probes the current pass may still expire.
    pub timeout_cursor: usize,
    pub timeout_backlog: Seq<TimeoutBacklogEntry>,
    pub timeout_budget: usize,
    /// Next target to consider for sending, and how many are left.
    pub send_cursor: usize,
    pub burst_remaining: usize,
    pub stagger_remaining: usize,
    /// No staggered send happens before this instant.
    pub send_gate: Option<Instant>,
    pub last_stagger_send: Option<Instant>,
    pub stop_observed: bool,
    pub final_outcome: Option<ManagedOutcomeView>,
    pub next_generation: u64,
    pub applied_command_sequence: u64,
    pub outbox: Seq<EffectView>,
}

/// How many of `targets` have the given lifecycle.
pub open spec fn lifecycle_count(
    targets: Seq<TargetView>,
    lifecycle: ManagedTargetLifecycle,
) -> nat
    decreases targets.len(),
{
    if targets.len() == 0 {
        0
    } else {
        lifecycle_count(targets.drop_last(), lifecycle) + if targets.last().state.lifecycle()
            == lifecycle {
            1nat
        } else {
            0
        }
    }
}

/// How many of `targets` are desired.
pub open spec fn desired_count(targets: Seq<TargetView>) -> nat
    decreases targets.len(),
{
    if targets.len() == 0 {
        0
    } else {
        desired_count(targets.drop_last()) + if targets.last().desired {
            1nat
        } else {
            0
        }
    }
}

/// How many of `targets` take part in pacing.
pub open spec fn active_count(targets: Seq<TargetView>) -> nat
    decreases targets.len(),
{
    if targets.len() == 0 {
        0
    } else {
        active_count(targets.drop_last()) + if targets.last().active && targets.last().desired
            && targets.last().retirement is None {
            1nat
        } else {
            0
        }
    }
}

/// How many of `targets` may send.
pub open spec fn sending_count(targets: Seq<TargetView>) -> nat
    decreases targets.len(),
{
    if targets.len() == 0 {
        0
    } else {
        sending_count(targets.drop_last()) + if targets.last().sends() {
            1nat
        } else {
            0
        }
    }
}

/// The shortest negotiated interval among the targets that may send.
pub open spec fn shortest_interval(targets: Seq<TargetView>) -> Option<Duration>
    decreases targets.len(),
{
    if targets.len() == 0 {
        None
    } else {
        let rest = shortest_interval(targets.drop_last());
        match targets.last().state {
            TargetStateView::Active { facts } if targets.last().sends() => match rest {
                Some(shortest) => Some(
                    if facts.probe_interval.nanos < shortest.nanos {
                        facts.probe_interval
                    } else {
                        shortest
                    },
                ),
                None => Some(facts.probe_interval),
            },
            _ => rest,
        }
    }
}

/// Spacing of staggered sends: the interval shared among the active targets,
/// and never less than a nanosecond.
pub open spec fn spacing(interval: Duration, active_targets: nat) -> Duration {
    let divisor = if active_targets == 0 {
        1
    } else {
        active_targets as int
    };
    let share = interval.nanos as int / divisor;
    Duration {
        nanos: if share < 1 {
            1
        } else {
            share as u128
        },
    }
}

/// The number of targets that may send, and the spacing between their sends.
pub open spec fn active_spacing(targets: Seq<TargetView>) -> Option<(nat, Duration)> {
    match shortest_interval(targets) {
        Some(interval) => Some(
            (sending_count(targets), spacing(interval, sending_count(targets))),
        ),
        None => None,
    }
}

/// `gate` where it lies in the future.
pub open spec fn future_gate(gate: Option<Instant>, now: Instant) -> Option<Instant> {
    match gate {
        Some(gate) if gate.nanos > now.nanos => Some(gate),
        _ => None,
    }
}

/// The send gate after one more target became active: an elapsed gate is
/// dropped, and one in the future moves to the new spacing after the last send
/// where that is sooner.
pub open spec fn gate_after_addition(
    gate: Option<Instant>,
    last_send: Option<Instant>,
    spacing: Option<(nat, Duration)>,
    now: Instant,
) -> Option<Instant> {
    match future_gate(gate, now) {
        None => None,
        Some(existing) => {
            let candidate = match (last_send, spacing) {
                (Some(last), Some((_, spacing))) => future_gate(
                    last.spec_checked_add(spacing),
                    now,
                ),
                _ => None,
            };
            match candidate {
                Some(candidate) => earlier(Some(existing), Some(candidate)),
                None => None,
            }
        },
    }
}

/// The deadline of a drain that began at `started_at`: the final drain after
/// the latest retained probe deadline, or after its own start.
pub open spec fn drain_deadline(
    latest: Option<Instant>,
    started_at: Instant,
    final_drain: Duration,
) -> Option<Instant> {
    match latest {
        Some(latest) if latest.nanos > started_at.nanos => latest.spec_checked_add(final_drain),
        _ => started_at.spec_checked_add(final_drain),
    }
}

/// `first` where there is one, else `second`: the first cleanup failure wins.
pub open spec fn first_failure(first: Option<FailureView>, second: FailureView) -> Option<
    FailureView,
> {
    match first {
        Some(failure) => Some(failure),
        None => Some(second),
    }
}

pub open spec fn duration_overflow() -> FailureView {
    classified(ManagedTargetFailurePhase::Timing, ClientError::DurationOverflow)
}

pub open spec fn close_timeout() -> FailureView {
    FailureView {
        phase: ManagedTargetFailurePhase::Closing,
        kind: crate::model::ManagedTargetFailureKind::Timeout,
        message: "best-effort close did not become writable before its deadline"@,
    }
}

impl TaskView {
    /// A driver that has not started.
    pub open spec fn initial(
        config: ManagedClientConfigView,
        targets: Seq<TargetView>,
        next_generation: u64,
    ) -> TaskView {
        TaskView {
            state: DriverState::NotStarted,
            lifecycle: ManagedLifecycle::NotStarted,
            config,
            targets,
            history: HistoryView::empty(config.outcome_history_limit),
            cursor: 0,
            scan_remaining: 0,
            timeout_cursor: 0,
            timeout_backlog: Seq::empty(),
            timeout_budget: 0,
            send_cursor: 0,
            burst_remaining: 0,
            stagger_remaining: 0,
            send_gate: None,
            last_stagger_send: None,
            stop_observed: false,
            final_outcome: None,
            next_generation,
            applied_command_sequence: 0,
            outbox: Seq::empty(),
        }
    }

    pub open spec fn cursors(self) -> Cursors {
        Cursors {
            cursor: self.cursor,
            scan_remaining: self.scan_remaining,
            timeout_cursor: self.timeout_cursor,
            send_cursor: self.send_cursor,
            burst_remaining: self.burst_remaining,
            stagger_remaining: self.stagger_remaining,
        }
    }

    pub open spec fn with_cursors(self, cursors: Cursors) -> TaskView {
        TaskView {
            cursor: cursors.cursor,
            scan_remaining: cursors.scan_remaining,
            timeout_cursor: cursors.timeout_cursor,
            send_cursor: cursors.send_cursor,
            burst_remaining: cursors.burst_remaining,
            stagger_remaining: cursors.stagger_remaining,
            ..self
        }
    }

    /// The status that describes this state.
    pub open spec fn snapshot(self) -> StatusView {
        StatusView {
            lifecycle: self.lifecycle,
            stop_requested: self.stop_observed,
            applied_command_sequence: self.applied_command_sequence,
            desired_target_count: desired_count(self.targets),
            connecting_target_count: lifecycle_count(
                self.targets,
                ManagedTargetLifecycle::Connecting,
            ),
            opening_target_count: lifecycle_count(self.targets, ManagedTargetLifecycle::Opening),
            active_target_count: lifecycle_count(self.targets, ManagedTargetLifecycle::Active),
            draining_target_count: lifecycle_count(self.targets, ManagedTargetLifecycle::Draining),
            closing_target_count: lifecycle_count(self.targets, ManagedTargetLifecycle::Closing),
            terminal_target_count: lifecycle_count(self.targets, ManagedTargetLifecycle::Terminal),
            total_target_outcomes: self.history.total,
            successful_target_outcomes: self.history.successful,
            failed_target_outcomes: self.history.failed,
            peer_closed_target_outcomes: self.history.peer_closed,
            discarded_target_outcomes: self.history.discarded,
            targets: self.targets.map_values(|target: TargetView| target.status()),
            recent_target_outcomes: self.history.recent,
            final_outcome: self.final_outcome,
        }
    }

    pub open spec fn effect(self, effect: EffectView) -> TaskView {
        TaskView { outbox: self.outbox.push(effect), ..self }
    }

    /// The status of this state is published.
    pub open spec fn status_replaced(self) -> TaskView {
        self.effect(EffectView::Status { status: self.snapshot() })
    }

    pub open spec fn event(self, event: EventView) -> TaskView {
        self.effect(EffectView::Event { event })
    }

    pub open spec fn with_target(self, index: int, target: TargetView) -> TaskView {
        TaskView { targets: self.targets.update(index, target), ..self }
    }

    pub open spec fn with_state(self, index: int, state: TargetStateView) -> TaskView {
        self.with_target(index, TargetView { state, ..self.targets[index] })
    }

    pub open spec fn with_packets_sent(self, index: int, packets_sent: u64) -> TaskView {
        self.with_target(
            index,
            TargetView {
                counters: crate::task::target::TargetCounters {
                    packets_sent,
                    ..self.targets[index].counters
                },
                ..self.targets[index]
            },
        )
    }

    /// A target enters `state`: pacing learns whether it became or ceased to be
    /// active, then the status is replaced, then the change is reported.
    pub open spec fn installed(
        self,
        index: int,
        state: TargetStateView,
        clock: Instant,
    ) -> TaskView {
        let was_active = self.targets[index].active;
        let active = state is Active;
        let moved = self.with_target(index, TargetView { active, state, ..self.targets[index] });
        let gated = TaskView {
            send_gate: if !was_active && active {
                gate_after_addition(
                    self.send_gate,
                    self.last_stagger_send,
                    active_spacing(moved.targets),
                    clock,
                )
            } else if was_active && !active {
                future_gate(self.send_gate, clock)
            } else {
                self.send_gate
            },
            ..moved
        };
        gated.status_replaced().event(
            EventView::TargetStateChanged {
                target: self.targets[index].instance,
                lifecycle: state.lifecycle(),
            },
        )
    }

    /// Events of a target's session are counted and published, in order.
    pub open spec fn client_events(self, index: int, events: Seq<ClientEvent>) -> TaskView
        decreases events.len(),
    {
        if events.len() == 0 {
            self
        } else {
            let before = self.client_events(index, events.drop_last());
            before.with_target(
                index,
                TargetView {
                    counters: before.targets[index].counters.observing(events.last()),
                    ..before.targets[index]
                },
            ).event(
                EventView::Client { target: before.targets[index].instance, event: events.last() },
            )
        }
    }

    /// A target ends: it becomes terminal, its outcome is recorded, and the
    /// status with the outcome is replaced before the outcome is reported.
    pub open spec fn finished(
        self,
        index: int,
        end_reason: EndReasonView,
        cleanup_failure: Option<FailureView>,
        clock: Instant,
    ) -> TaskView {
        let terminal = self.installed(index, TargetStateView::Terminal, clock);
        let outcome = self.targets[index].outcome(end_reason, cleanup_failure);
        let recorded = TaskView { history: self.history.recorded(outcome), ..terminal };
        recorded.status_replaced().event(EventView::TargetFinished { outcome })
    }

    /// A target starts to close its session, with the final drain as time limit.
    pub open spec fn close_begun(
        self,
        index: int,
        primary_end: EndReasonView,
        cleanup_failure: Option<FailureView>,
        now: Instant,
        clock: Instant,
    ) -> TaskView {
        match now.spec_checked_add(self.config.final_drain) {
            Some(deadline) => self.installed(
                index,
                TargetStateView::Closing { deadline, primary_end, cleanup_failure },
                clock,
            ),
            None => self.installed(
                index,
                TargetStateView::Closing {
                    deadline: now,
                    primary_end,
                    cleanup_failure: first_failure(cleanup_failure, duration_overflow()),
                },
                clock,
            ),
        }
    }

    /// A target starts to drain late replies before it closes its session.
    pub open spec fn drain_begun(
        self,
        index: int,
        facts: ClientFacts,
        primary_end: EndReasonView,
        clock: Instant,
    ) -> TaskView {
        match drain_deadline(facts.latest_probe_timeout, clock, self.config.final_drain) {
            Some(deadline) => self.installed(
                index,
                TargetStateView::Draining {
                    facts,
                    drain_started_at: clock,
                    deadline,
                    primary_end,
                    cleanup_failure: None,
                    post_deadline_receives_remaining: POST_DEADLINE_RECEIVE_BUDGET,
                },
                clock,
            ),
            None => self.close_begun(index, primary_end, Some(duration_overflow()), clock, clock),
        }
    }

    /// An open session failed: its prepared probe is dropped, and it is drained
    /// or closed with the failure as its end.
    pub open spec fn session_failed(
        self,
        index: int,
        facts: ClientFacts,
        phase: ManagedTargetFailurePhase,
        error: ClientError,
        drain: bool,
        now: Instant,
        clock: Instant,
    ) -> TaskView {
        let primary_end = EndReasonView::Failed(classified(phase, error));
        let noted = self.effect(
            EffectView::DiscardPreparedProbe { target: self.targets[index].instance },
        ).with_packets_sent(index, facts.packets_sent);
        if drain {
            noted.drain_begun(index, facts, primary_end, clock)
        } else {
            noted.close_begun(index, primary_end, None, now, clock)
        }
    }

    /// A target is to end: the driver stops, or an update took it out.
    pub open spec fn retiring(self, index: int) -> bool {
        self.state == DriverState::Stopping || self.targets[index].retirement is Some
    }

    /// How a target ends that is to end.
    pub open spec fn retirement(self, index: int) -> EndReasonView {
        match self.targets[index].retirement {
            Some(reason) => reason,
            None => EndReasonView::Stopped,
        }
    }

    /// What is polled for a target.
    pub open spec fn request(self, index: int, now: Instant) -> TargetRequest {
        match self.targets[index].state {
            TargetStateView::Pending { .. } => TargetRequest::Nothing,
            TargetStateView::Connecting => if self.retiring(index) {
                TargetRequest::Nothing
            } else {
                TargetRequest::Connect
            },
            TargetStateView::Opening { in_flight } => if !self.retiring(index) {
                TargetRequest::Open { stop_after_attempt: false }
            } else if in_flight {
                TargetRequest::Open { stop_after_attempt: true }
            } else {
                TargetRequest::Nothing
            },
            TargetStateView::Active { facts } => if self.retiring(index) || expiry_due(
                facts,
                now,
            ) {
                TargetRequest::Nothing
            } else {
                TargetRequest::Receive
            },
            TargetStateView::Draining { facts, .. } => if expiry_due(facts, now) {
                TargetRequest::Nothing
            } else {
                TargetRequest::Receive
            },
            TargetStateView::Closing { .. } => TargetRequest::Close,
            TargetStateView::Terminal => TargetRequest::Nothing,
        }
    }

    /// One step of a target that is not connected yet, and whether it has more
    /// work at once.
    #[verifier::opaque]
    pub open spec fn pending_polled(self, index: int, clock: Instant) -> (TaskView, bool) {
        if self.retiring(index) {
            (self.finished(index, self.retirement(index), None, clock), false)
        } else {
            (
                self.effect(
                    EffectView::Connect {
                        target: self.targets[index].instance,
                        client_config: self.targets[index].state->Pending_client_config,
                    },
                ).installed(index, TargetStateView::Connecting, clock),
                true,
            )
        }
    }

    #[verifier::opaque]
    pub open spec fn connecting_polled(
        self,
        index: int,
        poll: TargetPoll,
        clock: Instant,
    ) -> (TaskView, bool) {
        if self.retiring(index) {
            (self.finished(index, self.retirement(index), None, clock), false)
        } else {
            match poll {
                TargetPoll::Connect { poll: ConnectPoll::Connected { remote } } => (
                    self.with_target(
                        index,
                        TargetView { remote: Some(remote), ..self.targets[index] },
                    ).installed(index, TargetStateView::Opening { in_flight: false }, clock),
                    true,
                ),
                TargetPoll::Connect { poll: ConnectPoll::Failed { error } } => (
                    self.finished(
                        index,
                        EndReasonView::Failed(
                            classified(ManagedTargetFailurePhase::Connecting, error),
                        ),
                        None,
                        clock,
                    ),
                    false,
                ),
                _ => (self, false),
            }
        }
    }

    #[verifier::opaque]
    pub open spec fn opening_polled(
        self,
        index: int,
        poll: TargetPoll,
        facts: ClientFacts,
        clock: Instant,
    ) -> (TaskView, bool) {
        if self.retiring(index) && !self.targets[index].state->in_flight {
            (
                self.with_packets_sent(index, facts.packets_sent).finished(
                    index,
                    self.retirement(index),
                    None,
                    clock,
                ),
                false,
            )
        } else {
            match poll {
                TargetPoll::Open { poll: OpenPoll::Pending { in_flight } } => (
                    self.with_state(index, TargetStateView::Opening { in_flight }),
                    false,
                ),
                TargetPoll::Open { poll: OpenPoll::Started { event } } => {
                    let reported = self.client_events(index, seq![event]);
                    if self.retiring(index) {
                        (
                            reported.with_packets_sent(index, facts.packets_sent).drain_begun(
                                index,
                                facts,
                                self.retirement(index),
                                clock,
                            ),
                            true,
                        )
                    } else {
                        (reported.installed(index, TargetStateView::Active { facts }, clock), true)
                    }
                },
                TargetPoll::Open { poll: OpenPoll::NoTestCompleted { event } } => (
                    self.client_events(index, seq![event]).finished(
                        index,
                        if self.retiring(index) {
                            self.retirement(index)
                        } else {
                            EndReasonView::NoTestComplete
                        },
                        None,
                        clock,
                    ),
                    false,
                ),
                TargetPoll::Open { poll: OpenPoll::Failed { error, stopped } } => {
                    let failure = classified(ManagedTargetFailurePhase::Opening, error);
                    if self.retiring(index) {
                        (
                            self.finished(
                                index,
                                self.retirement(index),
                                if stopped {
                                    None
                                } else {
                                    Some(failure)
                                },
                                clock,
                            ),
                            false,
                        )
                    } else {
                        (self.finished(index, EndReasonView::Failed(failure), None, clock), false)
                    }
                },
                _ => (self, false),
            }
        }
    }

    /// One step of an active target. A due probe is reported lost before a
    /// reply to it can be received, so nothing is received while one is due.
    #[verifier::opaque]
    pub open spec fn active_polled(
        self,
        index: int,
        poll: TargetPoll,
        facts: ClientFacts,
        now: Instant,
        clock: Instant,
    ) -> (TaskView, bool) {
        if self.retiring(index) {
            (
                self.effect(
                    EffectView::DiscardPreparedProbe { target: self.targets[index].instance },
                ).with_packets_sent(index, facts.packets_sent).drain_begun(
                    index,
                    facts,
                    self.retirement(index),
                    clock,
                ),
                true,
            )
        } else if expiry_due(self.targets[index].state->Active_facts, now) {
            (self, false)
        } else {
            match poll {
                TargetPoll::Receive { poll: ReceivePoll::Failed { error } } => (
                    self.session_failed(
                        index,
                        facts,
                        ManagedTargetFailurePhase::Receiving,
                        error,
                        false,
                        now,
                        clock,
                    ),
                    true,
                ),
                TargetPoll::Receive { poll } => {
                    let reported = self.client_events(index, received_events(poll));
                    if facts.peer_closed {
                        (
                            reported.with_packets_sent(index, facts.packets_sent).finished(
                                index,
                                EndReasonView::PeerClosed,
                                None,
                                clock,
                            ),
                            false,
                        )
                    } else if facts.run_complete {
                        (
                            reported.with_packets_sent(index, facts.packets_sent).drain_begun(
                                index,
                                facts,
                                EndReasonView::TestComplete,
                                clock,
                            ),
                            true,
                        )
                    } else {
                        (
                            reported.with_state(index, TargetStateView::Active { facts }),
                            poll is Received,
                        )
                    }
                },
                _ => (self, false),
            }
        }
    }

    /// One step of a draining target. Late replies are received until the
    /// deadline, which a received one may only bring closer, and for a bounded
    /// number of datagrams after it.
    #[verifier::opaque]
    pub open spec fn draining_polled(
        self,
        index: int,
        poll: TargetPoll,
        facts: ClientFacts,
        now: Instant,
        clock: Instant,
    ) -> (TaskView, bool) {
        match (self.targets[index].state, poll) {
            (
                TargetStateView::Draining {
                    facts: known,
                    drain_started_at,
                    deadline,
                    primary_end,
                    cleanup_failure,
                    post_deadline_receives_remaining,
                },
                TargetPoll::Receive { poll: received },
            ) => {
                let reported = self.client_events(index, received_events(received));
                if expiry_due(known, now) {
                    (self, false)
                } else if let ReceivePoll::Failed { error } = received {
                    (
                        self.with_packets_sent(index, facts.packets_sent).close_begun(
                            index,
                            primary_end,
                            first_failure(
                                cleanup_failure,
                                classified(ManagedTargetFailurePhase::Receiving, error),
                            ),
                            now,
                            clock,
                        ),
                        true,
                    )
                } else if facts.peer_closed {
                    (
                        reported.with_packets_sent(index, facts.packets_sent).finished(
                            index,
                            EndReasonView::PeerClosed,
                            cleanup_failure,
                            clock,
                        ),
                        false,
                    )
                } else {
                    let shortened = if received is Received {
                        self.shortened(deadline, drain_started_at, facts)
                    } else {
                        Some(deadline)
                    };
                    match shortened {
                        None => (
                            reported.close_begun(
                                index,
                                primary_end,
                                first_failure(cleanup_failure, duration_overflow()),
                                now,
                                clock,
                            ),
                            true,
                        ),
                        Some(deadline) => {
                            let past = now.nanos >= deadline.nanos;
                            if past && !(received is Received && post_deadline_receives_remaining
                                > 1) {
                                (
                                    reported.close_begun(
                                        index,
                                        primary_end,
                                        cleanup_failure,
                                        now,
                                        clock,
                                    ),
                                    true,
                                )
                            } else {
                                (
                                    reported.with_state(
                                        index,
                                        TargetStateView::Draining {
                                            facts,
                                            drain_started_at,
                                            deadline,
                                            primary_end,
                                            cleanup_failure,
                                            post_deadline_receives_remaining: if past {
                                                (post_deadline_receives_remaining - 1) as usize
                                            } else {
                                                post_deadline_receives_remaining
                                            },
                                        },
                                    ),
                                    received is Received,
                                )
                            }
                        },
                    }
                }
            },
            _ => (self, false),
        }
    }

    /// The drain deadline after the retained probes changed.
    pub open spec fn shortened(
        self,
        deadline: Instant,
        drain_started_at: Instant,
        facts: ClientFacts,
    ) -> Option<Instant> {
        match drain_deadline(facts.latest_probe_timeout, drain_started_at, self.config.final_drain) {
            Some(candidate) => earlier(Some(deadline), Some(candidate)),
            None => None,
        }
    }

    /// A due probe of an active or draining target was expired.
    pub open spec fn expired(
        self,
        index: int,
        poll: TimeoutPoll,
        facts: ClientFacts,
        now: Instant,
        clock: Instant,
    ) -> TaskView {
        match (self.targets[index].state, poll) {
            (TargetStateView::Active { .. }, TimeoutPoll::Failed { error }) => self.session_failed(
                index,
                facts,
                ManagedTargetFailurePhase::Timing,
                error,
                false,
                now,
                clock,
            ),
            (TargetStateView::Active { .. }, TimeoutPoll::Expired { events }) => self.client_events(
                index,
                events@,
            ).with_state(index, TargetStateView::Active { facts }),
            (
                TargetStateView::Draining { primary_end, cleanup_failure, .. },
                TimeoutPoll::Failed { error },
            ) => self.with_packets_sent(index, facts.packets_sent).close_begun(
                index,
                primary_end,
                first_failure(
                    cleanup_failure,
                    classified(ManagedTargetFailurePhase::Timing, error),
                ),
                now,
                clock,
            ),
            (
                TargetStateView::Draining {
                    drain_started_at,
                    deadline,
                    primary_end,
                    cleanup_failure,
                    post_deadline_receives_remaining,
                    ..
                },
                TimeoutPoll::Expired { events },
            ) => {
                let reported = self.client_events(index, events@);
                match self.shortened(deadline, drain_started_at, facts) {
                    Some(deadline) => reported.with_state(
                        index,
                        TargetStateView::Draining {
                            facts,
                            drain_started_at,
                            deadline,
                            primary_end,
                            cleanup_failure,
                            post_deadline_receives_remaining,
                        },
                    ),
                    None => reported.close_begun(
                        index,
                        primary_end,
                        first_failure(cleanup_failure, duration_overflow()),
                        now,
                        clock,
                    ),
                }
            },
            _ => self,
        }
    }

    #[verifier::opaque]
    pub open spec fn closing_polled(
        self,
        index: int,
        poll: TargetPoll,
        facts: ClientFacts,
        now: Instant,
        clock: Instant,
    ) -> (TaskView, bool) {
        match (self.targets[index].state, poll) {
            (
                TargetStateView::Closing { deadline, primary_end, cleanup_failure },
                TargetPoll::Close { poll },
            ) => {
                let noted = self.with_packets_sent(index, facts.packets_sent);
                match poll {
                    ClosePoll::Pending => if now.nanos >= deadline.nanos {
                        (
                            noted.finished(
                                index,
                                primary_end,
                                first_failure(cleanup_failure, close_timeout()),
                                clock,
                            ),
                            false,
                        )
                    } else {
                        (self, false)
                    },
                    ClosePoll::Closed { events } => (
                        noted.client_events(index, events@).finished(
                            index,
                            primary_end,
                            cleanup_failure,
                            clock,
                        ),
                        false,
                    ),
                    ClosePoll::Failed { error } => (
                        noted.finished(
                            index,
                            primary_end,
                            first_failure(
                                cleanup_failure,
                                classified(ManagedTargetFailurePhase::Closing, error),
                            ),
                            clock,
                        ),
                        false,
                    ),
                }
            },
            _ => (self, false),
        }
    }

    /// One step of a target, given what was observed of its session.
    pub open spec fn polled(
        self,
        index: int,
        poll: TargetPoll,
        facts: ClientFacts,
        now: Instant,
        clock: Instant,
    ) -> (TaskView, bool) {
        match self.targets[index].state {
            TargetStateView::Pending { .. } => self.pending_polled(index, clock),
            TargetStateView::Connecting => self.connecting_polled(index, poll, clock),
            TargetStateView::Opening { .. } => self.opening_polled(index, poll, facts, clock),
            TargetStateView::Active { .. } => self.active_polled(index, poll, facts, now, clock),
            TargetStateView::Draining { .. } => self.draining_polled(
                index,
                poll,
                facts,
                now,
                clock,
            ),
            TargetStateView::Closing { .. } => self.closing_polled(index, poll, facts, now, clock),
            TargetStateView::Terminal => (self, false),
        }
    }
}

/// A pending probe of the session is due.
pub open spec fn expiry_due(facts: ClientFacts, now: Instant) -> bool {
    facts.next_probe_timeout matches Some(deadline) && deadline.nanos <= now.nanos
}

pub open spec fn received_events(received: ReceivePoll) -> Seq<ClientEvent> {
    match received {
        ReceivePoll::Received { events } => events@,
        _ => Seq::empty(),
    }
}

/// Reporting events of one target's session changes its counts and the outbox
/// and nothing else.
pub proof fn lemma_client_events_frame(task: TaskView, index: int, events: Seq<ClientEvent>)
    requires
        0 <= index < task.targets.len(),
    ensures
        ({
            let after = task.client_events(index, events);
            &&& after == (TaskView { targets: after.targets, outbox: after.outbox, ..task })
            &&& after.targets.len() == task.targets.len()
            &&& after.targets[index] == (TargetView {
                counters: after.targets[index].counters,
                ..task.targets[index]
            })
            &&& after.targets[index].counters.packets_sent
                == task.targets[index].counters.packets_sent
            &&& forall|j: int|
                0 <= j < task.targets.len() && j != index ==> #[trigger] after.targets[j]
                    == task.targets[j]
            &&& after.outbox.len() == task.outbox.len() + events.len()
        }),
    decreases events.len(),
{
    if events.len() > 0 {
        lemma_client_events_frame(task, index, events.drop_last());
    }
}

/// Expiring a probe keeps the list of targets and their generations.
pub proof fn lemma_expired_frame(
    task: TaskView,
    index: int,
    poll: TimeoutPoll,
    facts: ClientFacts,
    now: Instant,
    clock: Instant,
)
    requires
        0 <= index < task.targets.len(),
    ensures
        ({
            let after = task.expired(index, poll, facts, now, clock);
            &&& after.targets.len() == task.targets.len()
            &&& after.targets[index].instance == task.targets[index].instance
            &&& forall|j: int|
                0 <= j < task.targets.len() && j != index ==> #[trigger] after.targets[j]
                    == task.targets[j]
        }),
{
    if let TimeoutPoll::Expired { events } = poll {
        lemma_client_events_frame(task, index, events@);
    }
}

} // verus!
