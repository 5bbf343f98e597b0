//! Passes, sends and the start and end of the driver, as contracts speak of them.
use vstd::prelude::*;

use crate::error::ClientError;
use crate::event::ClientEvent;
use crate::model::{
    EventView, ManagedCompletionPolicy, ManagedDriverFailure, ManagedEndReason, ManagedLifecycle,
    ManagedPacing, ManagedTargetFailurePhase,
};
use crate::task::plan_view::rebased;
use crate::task::target::{ClientFacts, TargetStateView, TargetView};
use crate::task::view::{
    active_count, expiry_due, DriverState, EffectView, TaskView, TimeoutBacklogEntry,
    TARGET_WORK_BUDGET, TIMEOUT_WORK_BUDGET,
};
use crate::timing::{earlier, Duration, Instant};

verus! {

/// How much of a round over `len` targets is left; a finished round starts anew.
pub open spec fn round_left(left: usize, len: nat) -> nat {
    if left == 0 {
        len
    } else {
        left as nat
    }
}

/// How many targets one pass looks at.
pub open spec fn pass_work(left: usize, len: nat) -> nat {
    let left = round_left(left, len);
    if left <= TARGET_WORK_BUDGET {
        left
    } else {
        TARGET_WORK_BUDGET as nat
    }
}

/// Position `step` places after `cursor` in a ring of `len`.
pub open spec fn ring(cursor: usize, step: nat, len: nat) -> int {
    (cursor + step) as int % len as int
}

/// The positions that one pass visits, in order.
pub open spec fn pass_indices(cursor: usize, left: usize, len: nat) -> Seq<usize> {
    Seq::new(pass_work(left, len), |k: int| ring(cursor, k as nat, len) as usize)
}

/// A target whose next probe can be sent now: its interval is over, and none
/// of its pending probes has yet to be reported lost.
pub open spec fn sendable(target: TargetView, now: Instant) -> bool {
    target.sends() && match target.state {
        TargetStateView::Active { facts } => facts.next_send matches Some(at) && at.nanos
            <= now.nanos && !expiry_due(facts, now),
        _ => false,
    }
}

/// Deadlines of one target besides that of its next send.
pub open spec fn waiting_deadline(target: TargetView) -> Option<Instant> {
    match target.state {
        TargetStateView::Active { facts } => facts.next_probe_timeout,
        TargetStateView::Draining { facts, deadline, .. } => earlier(
            facts.next_probe_timeout,
            Some(deadline),
        ),
        TargetStateView::Closing { deadline, .. } => Some(deadline),
        _ => None,
    }
}

/// When one target wants to send, unless a send of it already waits.
pub open spec fn sending_deadline(target: TargetView) -> Option<Instant> {
    match target.state {
        TargetStateView::Active { facts } => if target.sends() && !target.send_waiting {
            facts.next_send
        } else {
            None
        },
        _ => None,
    }
}

pub open spec fn first_waiting(targets: Seq<TargetView>) -> Option<Instant>
    decreases targets.len(),
{
    if targets.len() == 0 {
        None
    } else {
        earlier(first_waiting(targets.drop_last()), waiting_deadline(targets.last()))
    }
}

pub open spec fn first_sending(targets: Seq<TargetView>) -> Option<Instant>
    decreases targets.len(),
{
    if targets.len() == 0 {
        None
    } else {
        earlier(first_sending(targets.drop_last()), sending_deadline(targets.last()))
    }
}

/// The later of a wanted send and the send gate; either alone counts.
pub open spec fn gated(send: Option<Instant>, gate: Option<Instant>) -> Option<Instant> {
    match (send, gate) {
        (Some(send), Some(gate)) => Some(
            if send.nanos < gate.nanos {
                gate
            } else {
                send
            },
        ),
        (None, gate) => gate,
        (send, None) => send,
    }
}

/// What a send attempt came to.
#[derive(Debug, Clone, Copy, PartialEq, Eq, Structural)]
pub enum SendResult {
    NotAttempted,
    Pending,
    Ready { accepted: bool },
    Failed { accepted: bool },
}

impl SendResult {
    /// The datagram was handed to the network.
    pub open spec fn is_accepted(self) -> bool {
        self == (SendResult::Ready { accepted: true }) || self == (SendResult::Failed {
            accepted: true,
        })
    }

    pub fn accepted(self) -> (result: bool)
        ensures
            result == self.is_accepted(),
    {
        match self {
            SendResult::Ready { accepted } => accepted,
            SendResult::Failed { accepted } => accepted,
            _ => false,
        }
    }

    /// The attempt was made and is over.
    pub open spec fn settled(self) -> bool {
        self is Ready || self is Failed
    }

    /// Whether the attempt was made and is over, so that another may follow.
    pub fn is_settled(self) -> (result: bool)
        ensures
            result == self.settled(),
    {
        match self {
            SendResult::Ready { .. } | SendResult::Failed { .. } => true,
            _ => false,
        }
    }
}

/// Result of polling one send.
#[derive(Debug)]
pub enum SendPoll {
    Pending,
    Sent { events: Vec<ClientEvent> },
    Failed { error: ClientError },
}

/// What was observed of one send.
#[derive(Debug)]
pub struct SendObservation {
    pub poll: SendPoll,
    /// Packets sent by the session before the attempt.
    pub packets_before: u64,
    /// When the attempt returned.
    pub accepted_at: Instant,
    /// Why the schedule could not skip slots that passed meanwhile. Slots are
    /// skipped only where the datagram was accepted.
    pub schedule_error: Option<ClientError>,
    /// What the session says of itself after the attempt.
    pub facts: ClientFacts,
}

impl SendObservation {
    pub open spec fn is_accepted(self) -> bool {
        self.facts.packets_sent > self.packets_before
    }

    /// What the attempt itself came to.
    pub open spec fn result(self) -> SendResult {
        match self.poll {
            SendPoll::Pending => SendResult::Pending,
            SendPoll::Sent { .. } => SendResult::Ready { accepted: self.is_accepted() },
            SendPoll::Failed { .. } => SendResult::Failed { accepted: self.is_accepted() },
        }
    }

    pub open spec fn schedule_failed(self) -> bool {
        self.is_accepted() && self.schedule_error is Some
    }
}

/// What a staggered pass decided.
#[derive(Debug, Clone, Copy, PartialEq, Eq, Structural)]
pub enum StaggerStep {
    /// No target can send now. `more` tells that the round is not finished.
    Idle { more: bool },
    /// The target at `index` is to send.
    Attempt { index: usize },
}

impl TaskView {
    /// The driver enters its running state.
    pub open spec fn started(self) -> TaskView {
        TaskView {
            state: DriverState::Running,
            lifecycle: ManagedLifecycle::Running,
            ..self
        }.status_replaced().event(EventView::Started)
    }

    /// A requested stop is taken notice of, once. It is reported as stopping
    /// unless the driver was stopping already.
    pub open spec fn stop_noted(self) -> TaskView {
        if self.stop_observed {
            self
        } else {
            let closed = TaskView { stop_observed: true, ..self }.effect(EffectView::CloseUpdates);
            let shown = if self.state == DriverState::Stopping {
                closed.status_replaced()
            } else {
                TaskView {
                    state: DriverState::Stopping,
                    lifecycle: ManagedLifecycle::Stopping,
                    ..closed
                }.status_replaced().event(EventView::Stopping)
            };
            TaskView {
                scan_remaining: self.targets.len() as usize,
                burst_remaining: 0,
                ..shown.effect(EffectView::AcknowledgeStop)
            }
        }
    }

    /// The driver ends. Its command queue closes, its outcome is shown and
    /// reported, the stop is acknowledged, and the event channel closes.
    pub open spec fn sealed(self, end_reason: ManagedEndReason, failed: bool) -> TaskView {
        let outcome = self.history.outcome(end_reason, self.applied_command_sequence);
        let ended = TaskView {
            final_outcome: Some(outcome),
            lifecycle: if failed {
                ManagedLifecycle::Failed
            } else {
                ManagedLifecycle::Completed
            },
            ..self
        };
        let closed = ended.effect(EffectView::CloseCommands { end_reason });
        let reported = closed.status_replaced().event(
            if failed {
                EventView::Failed { outcome }
            } else {
                EventView::Completed { outcome }
            },
        );
        TaskView {
            state: DriverState::Finished,
            ..reported.effect(EffectView::AcknowledgeStop).effect(EffectView::CloseEvents)
        }
    }

    /// The driver is dropped before it ended.
    pub open spec fn abandoned(self) -> TaskView {
        if self.state == DriverState::Finished {
            self
        } else {
            let dropped = TaskView {
                lifecycle: ManagedLifecycle::Abandoned,
                final_outcome: None,
                ..self
            };
            TaskView {
                state: DriverState::Finished,
                ..dropped.status_replaced().event(EventView::Abandoned).effect(
                    EffectView::AcknowledgeStop,
                ).effect(EffectView::CloseEvents)
            }
        }
    }

    /// The first part of a poll: the driver starts, unless a stop was requested
    /// before, and takes notice of a requested stop.
    pub open spec fn poll_begun(self, stop_requested: bool, runtime_available: bool) -> TaskView {
        if self.state == DriverState::NotStarted && !stop_requested {
            if runtime_available {
                self.started()
            } else {
                self.sealed(
                    ManagedEndReason::DriverFailed(ManagedDriverFailure::NoTokioRuntime),
                    true,
                )
            }
        } else if stop_requested {
            self.stop_noted()
        } else {
            self
        }
    }

    pub open spec fn all_terminal(self) -> bool {
        forall|i: int| 0 <= i < self.targets.len() ==> (#[trigger] self.targets[i]).state
            is Terminal
    }

    /// Why the driver ends now, if it does: all targets have ended, and it was
    /// stopping or finishes on its own.
    pub open spec fn completion(self) -> Option<ManagedEndReason> {
        if !self.all_terminal() {
            None
        } else if self.state == DriverState::Stopping {
            Some(
                if self.stop_observed {
                    ManagedEndReason::StopRequested
                } else {
                    ManagedEndReason::TargetsComplete
                },
            )
        } else if self.state == DriverState::Running && self.config.completion
            == ManagedCompletionPolicy::FinishWhenQuiescent {
            Some(ManagedEndReason::TargetsComplete)
        } else {
            None
        }
    }

    /// The last part of a poll. A driver that finishes on its own first reports
    /// that it is stopping.
    pub open spec fn completed(self) -> TaskView {
        match self.completion() {
            None => self,
            Some(end_reason) => {
                let stopping = if self.state == DriverState::Running {
                    TaskView {
                        state: DriverState::Stopping,
                        lifecycle: ManagedLifecycle::Stopping,
                        ..self
                    }.effect(EffectView::CloseUpdates).status_replaced().event(EventView::Stopping)
                } else {
                    self
                };
                stopping.sealed(end_reason, false)
            },
        }
    }

    /// The targets that have neither ended nor are unwanted.
    pub open spec fn pruned(self) -> TaskView {
        let kept = self.targets.filter(|target: TargetView| !prunable(target));
        if kept.len() == self.targets.len() {
            self
        } else {
            TaskView { targets: kept, ..self }.with_cursors(
                rebased(self.cursors(), kept.len()),
            ).status_replaced()
        }
    }

    /// One pass over the targets takes its share of the round.
    pub open spec fn target_pass_taken(self) -> TaskView {
        let len = self.targets.len();
        if len == 0 {
            self
        } else {
            let work = pass_work(self.scan_remaining, len);
            TaskView {
                cursor: ring(self.cursor, work, len) as usize,
                scan_remaining: (round_left(self.scan_remaining, len) - work) as usize,
                ..self
            }
        }
    }

    pub open spec fn burst_pass_taken(self) -> TaskView {
        let len = self.targets.len();
        if len == 0 {
            self
        } else {
            let work = pass_work(self.burst_remaining, len);
            TaskView {
                send_cursor: ring(self.send_cursor, work, len) as usize,
                burst_remaining: (round_left(self.burst_remaining, len) - work) as usize,
                ..self
            }
        }
    }

    /// A staggered send is out of the question: no target takes part, or the
    /// gate is still closed.
    pub open spec fn stagger_closed(self, now: Instant) -> bool {
        active_count(self.targets) == 0 || (self.send_gate matches Some(gate) && gate.nanos
            > now.nanos)
    }

    /// The round after `seen` targets were looked at without finding one that
    /// can send. Those that may send but need not now no longer wait.
    pub open spec fn stagger_scanned(self, seen: nat) -> TaskView
        decreases seen,
    {
        if seen == 0 {
            TaskView {
                stagger_remaining: round_left(
                    self.stagger_remaining,
                    self.targets.len(),
                ) as usize,
                ..self
            }
        } else {
            let before = self.stagger_scanned((seen - 1) as nat);
            let len = self.targets.len();
            let index = before.send_cursor as int % len as int;
            let moved = TaskView {
                send_cursor: ((index + 1) % len as int) as usize,
                stagger_remaining: (before.stagger_remaining - 1) as usize,
                ..before
            };
            if before.targets[index].sends() {
                moved.with_target(
                    index,
                    TargetView { send_waiting: false, ..before.targets[index] },
                )
            } else {
                moved
            }
        }
    }

    /// The next send deadline of the driver and everything else it waits for.
    pub open spec fn deadline(self) -> Option<Instant> {
        let send = first_sending(self.targets);
        let send = if self.state == DriverState::Running && self.config.pacing
            == ManagedPacing::Staggered && active_count(self.targets) > 0 {
            gated(send, self.send_gate)
        } else {
            send
        };
        earlier(first_waiting(self.targets), send)
    }

    /// The send gate closes for `spacing` after a send that was accepted.
    pub open spec fn acceptance_recorded(
        self,
        result: SendResult,
        spacing: Option<(usize, Duration)>,
        accepted_at: Instant,
    ) -> TaskView {
        match spacing {
            Some((_, spacing)) if result.is_accepted() => TaskView {
                last_stagger_send: Some(accepted_at),
                send_gate: accepted_at.spec_checked_add(spacing),
                ..self
            },
            _ => self,
        }
    }

    /// A target attempted to send.
    pub open spec fn send_made(
        self,
        index: int,
        observed: SendObservation,
        spacing: Option<(usize, Duration)>,
        now: Instant,
        clock: Instant,
    ) -> (TaskView, SendResult) {
        let facts = observed.facts;
        let noted = self.acceptance_recorded(
            observed.result(),
            spacing,
            observed.accepted_at,
        ).with_packets_sent(index, facts.packets_sent);
        let settled = noted.with_target(
            index,
            TargetView { send_waiting: observed.poll is Pending, ..noted.targets[index] },
        ).with_state(index, TargetStateView::Active { facts });
        match observed.poll {
            SendPoll::Pending => (settled, SendResult::Pending),
            SendPoll::Sent { events } => {
                let reported = settled.client_events(index, events@);
                if observed.schedule_failed() {
                    (
                        reported.session_failed(
                            index,
                            facts,
                            ManagedTargetFailurePhase::Timing,
                            observed.schedule_error->0,
                            true,
                            now,
                            clock,
                        ),
                        SendResult::Failed { accepted: observed.is_accepted() },
                    )
                } else {
                    (reported, SendResult::Ready { accepted: observed.is_accepted() })
                }
            },
            SendPoll::Failed { error } => (
                settled.session_failed(
                    index,
                    facts,
                    ManagedTargetFailurePhase::Sending,
                    error,
                    true,
                    now,
                    clock,
                ),
                SendResult::Failed { accepted: observed.is_accepted() },
            ),
        }
    }
}

/// A target that has ended and is no longer wanted.
pub open spec fn prunable(target: TargetView) -> bool {
    !target.desired && target.state is Terminal
}

/// A probe of the target is due.
pub open spec fn overdue(target: TargetView, now: Instant) -> bool {
    match target.state {
        TargetStateView::Active { facts } => expiry_due(facts, now),
        TargetStateView::Draining { facts, .. } => expiry_due(facts, now),
        _ => false,
    }
}

/// The backlog names the target at `index` as it stands.
pub open spec fn in_backlog(
    backlog: Seq<TimeoutBacklogEntry>,
    index: int,
    generation: u64,
) -> bool {
    exists|i: int|
        0 <= i < backlog.len() && (#[trigger] backlog[i]).index == index && backlog[i].generation
            == generation
}

impl TaskView {
    /// `entry` still names a target with a due probe.
    pub open spec fn current(self, entry: TimeoutBacklogEntry, now: Instant) -> bool {
        &&& entry.index < self.targets.len()
        &&& self.targets[entry.index as int].instance.generation == entry.generation
        &&& overdue(self.targets[entry.index as int], now)
    }

    /// How many targets one pass looks at for due probes.
    pub open spec fn inspections(self) -> nat {
        if self.targets.len() <= TIMEOUT_WORK_BUDGET {
            self.targets.len()
        } else {
            TIMEOUT_WORK_BUDGET as nat
        }
    }

    /// The search for due probes after it looked at `seen` targets. Each one
    /// found is listed once.
    pub open spec fn discovered(self, seen: nat, now: Instant) -> TaskView
        decreases seen,
    {
        if seen == 0 {
            TaskView { timeout_budget: TIMEOUT_WORK_BUDGET, ..self }
        } else {
            let before = self.discovered((seen - 1) as nat, now);
            let len = self.targets.len();
            let index = before.timeout_cursor as int % len as int;
            let generation = self.targets[index].instance.generation;
            let moved = TaskView { timeout_cursor: ((index + 1) % len as int) as usize, ..before };
            if overdue(self.targets[index], now) && !in_backlog(
                before.timeout_backlog,
                index,
                generation,
            ) {
                TaskView {
                    timeout_backlog: before.timeout_backlog.push(
                        TimeoutBacklogEntry { index: index as usize, generation },
                    ),
                    ..moved
                }
            } else {
                moved
            }
        }
    }

    /// The backlog without the entries at its head that are out of date.
    pub open spec fn backlog_trimmed(self, now: Instant) -> Seq<TimeoutBacklogEntry>
        decreases self.timeout_backlog.len(),
    {
        if self.timeout_backlog.len() == 0 || self.current(self.timeout_backlog[0], now) {
            self.timeout_backlog
        } else {
            TaskView {
                timeout_backlog: self.timeout_backlog.drop_first(),
                ..self
            }.backlog_trimmed(now)
        }
    }
}

} // verus!
