//! The driver's data and the elementary changes to it.
use std::collections::VecDeque;
use vstd::prelude::*;

use crate::event::ClientEvent;
use crate::history::OutcomeHistory;
use crate::model::{
    managed_outcome_view, ManagedClientConfig, ManagedEndReason, ManagedEvent, ManagedLifecycle,
    ManagedOutcome, ManagedStatus, ManagedTargetLifecycle, ManagedTargetOutcome,
    ManagedTargetStatus,
};
use crate::net::SocketAddr;
use crate::task::target::{TargetRuntime, TargetState, TargetView};
use crate::task::view::{
    desired_count, lifecycle_count, Cursors, DriverState, EffectView, TaskEffect, TaskView,
    TimeoutBacklogEntry,
};
use crate::timing::Instant;

verus! {

/// The sole authoritative driver of zero or more targets.
#[must_use]
#[derive(Debug)]
pub struct ManagedClientTask {
    state: DriverState,
    lifecycle: ManagedLifecycle,
    config: ManagedClientConfig,
    targets: Vec<TargetRuntime>,
    history: OutcomeHistory,
    cursor: usize,
    scan_remaining: usize,
    timeout_cursor: usize,
    timeout_backlog: VecDeque<TimeoutBacklogEntry>,
    timeout_budget: usize,
    send_cursor: usize,
    burst_remaining: usize,
    stagger_remaining: usize,
    send_gate: Option<Instant>,
    last_stagger_send: Option<Instant>,
    stop_observed: bool,
    final_outcome: Option<ManagedOutcome>,
    next_generation: u64,
    applied_command_sequence: u64,
    outbox: Vec<TaskEffect>,
}

pub open spec fn target_views(targets: Seq<TargetRuntime>) -> Seq<TargetView> {
    targets.map_values(|target: TargetRuntime| target@)
}

pub open spec fn effect_views(effects: Seq<TaskEffect>) -> Seq<EffectView> {
    effects.map_values(|effect: TaskEffect| effect@)
}

impl View for ManagedClientTask {
    type V = TaskView;

    closed spec fn view(&self) -> TaskView {
        TaskView {
            state: self.state,
            lifecycle: self.lifecycle,
            config: self.config@,
            targets: target_views(self.targets@),
            history: self.history@,
            cursor: self.cursor,
            scan_remaining: self.scan_remaining,
            timeout_cursor: self.timeout_cursor,
            timeout_backlog: self.timeout_backlog@,
            timeout_budget: self.timeout_budget,
            send_cursor: self.send_cursor,
            burst_remaining: self.burst_remaining,
            stagger_remaining: self.stagger_remaining,
            send_gate: self.send_gate,
            last_stagger_send: self.last_stagger_send,
            stop_observed: self.stop_observed,
            final_outcome: managed_outcome_view(self.final_outcome),
            next_generation: self.next_generation,
            applied_command_sequence: self.applied_command_sequence,
            outbox: effect_views(self.outbox@),
        }
    }
}

impl ManagedClientTask {
    /// A driver that has not started, for targets of the given generations.
    pub(crate) fn assembled(
        config: ManagedClientConfig,
        targets: Vec<TargetRuntime>,
        next_generation: u64,
    ) -> (result: ManagedClientTask)
        ensures
            result@ == TaskView::initial(config@, target_views(targets@), next_generation),
    {
        let limit: usize = config.outcome_history_limit;
        let result = ManagedClientTask {
            state: DriverState::NotStarted,
            lifecycle: ManagedLifecycle::NotStarted,
            config,
            targets,
            history: OutcomeHistory::new(limit),
            cursor: 0,
            scan_remaining: 0,
            timeout_cursor: 0,
            timeout_backlog: VecDeque::new(),
            timeout_budget: 0,
            send_cursor: 0,
            burst_remaining: 0,
            stagger_remaining: 0,
            send_gate: None,
            last_stagger_send: None,
            stop_observed: false,
            final_outcome: None,
            next_generation,
            applied_command_sequence: 0,
            outbox: Vec::new(),
        };
        proof {
            assert(result@.outbox =~= Seq::<EffectView>::empty());
            assert(result@.timeout_backlog =~= Seq::<TimeoutBacklogEntry>::empty());
        }
        result
    }

    pub fn state(&self) -> (result: DriverState)
        ensures
            result == self@.state,
    {
        self.state
    }

    pub fn lifecycle(&self) -> (result: ManagedLifecycle)
        ensures
            result == self@.lifecycle,
    {
        self.lifecycle
    }

    pub fn config(&self) -> (result: &ManagedClientConfig)
        ensures
            result@ == self@.config,
    {
        &self.config
    }

    pub fn target_count(&self) -> (result: usize)
        ensures
            result == self@.targets.len(),
    {
        self.targets.len()
    }

    pub fn target(&self, index: usize) -> (result: &TargetRuntime)
        requires
            index < self@.targets.len(),
        ensures
            result@ == self@.targets[index as int],
    {
        &self.targets[index]
    }

    pub fn stop_observed(&self) -> (result: bool)
        ensures
            result == self@.stop_observed,
    {
        self.stop_observed
    }

    pub fn next_generation(&self) -> (result: u64)
        ensures
            result == self@.next_generation,
    {
        self.next_generation
    }

    pub fn applied_command_sequence(&self) -> (result: u64)
        ensures
            result == self@.applied_command_sequence,
    {
        self.applied_command_sequence
    }

    pub fn send_gate(&self) -> (result: Option<Instant>)
        ensures
            result == self@.send_gate,
    {
        self.send_gate
    }

    pub fn last_stagger_send(&self) -> (result: Option<Instant>)
        ensures
            result == self@.last_stagger_send,
    {
        self.last_stagger_send
    }

    pub fn cursors(&self) -> (result: Cursors)
        ensures
            result == self@.cursors(),
    {
        Cursors {
            cursor: self.cursor,
            scan_remaining: self.scan_remaining,
            timeout_cursor: self.timeout_cursor,
            send_cursor: self.send_cursor,
            burst_remaining: self.burst_remaining,
            stagger_remaining: self.stagger_remaining,
        }
    }

    pub(crate) fn set_cursors(&mut self, cursors: Cursors)
        ensures
            final(self)@ == old(self)@.with_cursors(cursors),
    {
        self.cursor = cursors.cursor;
        self.scan_remaining = cursors.scan_remaining;
        self.timeout_cursor = cursors.timeout_cursor;
        self.send_cursor = cursors.send_cursor;
        self.burst_remaining = cursors.burst_remaining;
        self.stagger_remaining = cursors.stagger_remaining;
    }

    pub fn timeout_backlog_len(&self) -> (result: usize)
        ensures
            result == self@.timeout_backlog.len(),
    {
        self.timeout_backlog.len()
    }

    pub(crate) fn timeout_backlog_entry(&self, index: usize) -> (result: TimeoutBacklogEntry)
        requires
            index < self@.timeout_backlog.len(),
        ensures
            result == self@.timeout_backlog[index as int],
    {
        self.timeout_backlog[index]
    }

    pub fn timeout_budget(&self) -> (result: usize)
        ensures
            result == self@.timeout_budget,
    {
        self.timeout_budget
    }

    pub(crate) fn set_timeout_budget(&mut self, budget: usize)
        ensures
            final(self)@ == (TaskView { timeout_budget: budget, ..old(self)@ }),
    {
        self.timeout_budget = budget;
    }

    pub(crate) fn push_backlog(&mut self, entry: TimeoutBacklogEntry)
        ensures
            final(self)@ == (TaskView {
                timeout_backlog: old(self)@.timeout_backlog.push(entry),
                ..old(self)@
            }),
    {
        self.timeout_backlog.push_back(entry);
    }

    pub(crate) fn pop_backlog(&mut self) -> (result: Option<TimeoutBacklogEntry>)
        ensures
            match result {
                Some(entry) => {
                    &&& old(self)@.timeout_backlog.len() > 0
                    &&& entry == old(self)@.timeout_backlog[0]
                    &&& final(self)@ == (TaskView {
                        timeout_backlog: old(self)@.timeout_backlog.drop_first(),
                        ..old(self)@
                    })
                },
                None => old(self)@.timeout_backlog.len() == 0 && final(self)@ == old(self)@,
            },
    {
        let entry = self.timeout_backlog.pop_front();
        proof {
            if entry is Some {
                assert(self.timeout_backlog@ =~= old(self).timeout_backlog@.drop_first());
            } else {
                assert(self.timeout_backlog@ =~= old(self).timeout_backlog@);
            }
        }
        entry
    }

    pub(crate) fn set_gate(&mut self, gate: Option<Instant>)
        ensures
            final(self)@ == (TaskView { send_gate: gate, ..old(self)@ }),
    {
        self.send_gate = gate;
    }

    pub(crate) fn set_last_stagger_send(&mut self, at: Instant)
        ensures
            final(self)@ == (TaskView { last_stagger_send: Some(at), ..old(self)@ }),
    {
        self.last_stagger_send = Some(at);
    }

    pub(crate) fn set_phase(&mut self, state: DriverState, lifecycle: ManagedLifecycle)
        ensures
            final(self)@ == (TaskView { state, lifecycle, ..old(self)@ }),
    {
        self.state = state;
        self.lifecycle = lifecycle;
    }

    pub(crate) fn set_stop_observed(&mut self)
        ensures
            final(self)@ == (TaskView { stop_observed: true, ..old(self)@ }),
    {
        self.stop_observed = true;
    }

    pub(crate) fn set_final_outcome(&mut self, outcome: Option<ManagedOutcome>)
        ensures
            final(self)@ == (TaskView {
                final_outcome: managed_outcome_view(outcome),
                ..old(self)@
            }),
    {
        self.final_outcome = outcome;
    }

    pub(crate) fn set_sequence(&mut self, next_generation: u64, applied_command_sequence: u64)
        ensures
            final(self)@ == (TaskView {
                next_generation,
                applied_command_sequence,
                ..old(self)@
            }),
    {
        self.next_generation = next_generation;
        self.applied_command_sequence = applied_command_sequence;
    }

    pub(crate) fn push_effect(&mut self, effect: TaskEffect)
        ensures
            final(self)@ == old(self)@.effect(effect@),
    {
        self.outbox.push(effect);
        assert(self@.outbox =~= old(self)@.outbox.push(effect@));
    }

    /// Takes what the driver wants done, oldest first.
    pub fn take_outbox(&mut self) -> (result: Vec<TaskEffect>)
        ensures
            effect_views(result@) == old(self)@.outbox,
            final(self)@ == (TaskView { outbox: Seq::empty(), ..old(self)@ }),
    {
        let mut outbox: Vec<TaskEffect> = Vec::new();
        std::mem::swap(&mut outbox, &mut self.outbox);
        assert(self@.outbox =~= Seq::<EffectView>::empty());
        outbox
    }

    /// Takes all targets out.
    pub(crate) fn take_targets(&mut self) -> (result: Vec<TargetRuntime>)
        ensures
            target_views(result@) == old(self)@.targets,
            final(self)@ == (TaskView { targets: Seq::empty(), ..old(self)@ }),
    {
        let mut targets: Vec<TargetRuntime> = Vec::new();
        std::mem::swap(&mut targets, &mut self.targets);
        assert(self@.targets =~= Seq::<TargetView>::empty());
        targets
    }

    pub(crate) fn put_targets(&mut self, targets: Vec<TargetRuntime>)
        ensures
            final(self)@ == (TaskView { targets: target_views(targets@), ..old(self)@ }),
    {
        self.targets = targets;
    }

    pub(crate) fn set_target_state(&mut self, index: usize, state: TargetState)
        requires
            index < old(self)@.targets.len(),
        ensures
            final(self)@ == old(self)@.with_state(index as int, state@),
    {
        self.targets[index].state = state;
        assert(self@.targets =~= old(self)@.with_state(index as int, state@).targets);
    }

    pub(crate) fn set_target_active(&mut self, index: usize, active: bool)
        requires
            index < old(self)@.targets.len(),
        ensures
            final(self)@ == old(self)@.with_target(
                index as int,
                TargetView { active, ..old(self)@.targets[index as int] },
            ),
    {
        self.targets[index].active = active;
        assert(self@.targets =~= old(self)@.with_target(
            index as int,
            TargetView { active, ..old(self)@.targets[index as int] },
        ).targets);
    }

    pub(crate) fn set_target_remote(&mut self, index: usize, remote: SocketAddr)
        requires
            index < old(self)@.targets.len(),
        ensures
            final(self)@ == old(self)@.with_target(
                index as int,
                TargetView { remote: Some(remote), ..old(self)@.targets[index as int] },
            ),
    {
        self.targets[index].remote = Some(remote);
        assert(self@.targets =~= old(self)@.with_target(
            index as int,
            TargetView { remote: Some(remote), ..old(self)@.targets[index as int] },
        ).targets);
    }

    pub(crate) fn set_target_waiting(&mut self, index: usize, send_waiting: bool)
        requires
            index < old(self)@.targets.len(),
        ensures
            final(self)@ == old(self)@.with_target(
                index as int,
                TargetView { send_waiting, ..old(self)@.targets[index as int] },
            ),
    {
        self.targets[index].send_waiting = send_waiting;
        assert(self@.targets =~= old(self)@.with_target(
            index as int,
            TargetView { send_waiting, ..old(self)@.targets[index as int] },
        ).targets);
    }

    pub(crate) fn set_packets_sent(&mut self, index: usize, packets_sent: u64)
        requires
            index < old(self)@.targets.len(),
        ensures
            final(self)@ == old(self)@.with_packets_sent(index as int, packets_sent),
    {
        self.targets[index].counters.packets_sent = packets_sent;
        assert(self@.targets =~= old(self)@.with_packets_sent(
            index as int,
            packets_sent,
        ).targets);
    }

    pub(crate) fn count_event(&mut self, index: usize, event: &ClientEvent)
        requires
            index < old(self)@.targets.len(),
        ensures
            final(self)@ == old(self)@.with_target(
                index as int,
                TargetView {
                    counters: old(self)@.targets[index as int].counters.observing(*event),
                    ..old(self)@.targets[index as int]
                },
            ),
    {
        self.targets[index].counters.observe(event);
        assert(self@.targets =~= old(self)@.with_target(
            index as int,
            TargetView {
                counters: old(self)@.targets[index as int].counters.observing(*event),
                ..old(self)@.targets[index as int]
            },
        ).targets);
    }

    pub(crate) fn record_outcome(&mut self, outcome: ManagedTargetOutcome)
        ensures
            final(self)@ == (TaskView {
                history: old(self)@.history.recorded(outcome@),
                ..old(self)@
            }),
    {
        self.history.record(outcome);
    }

    pub(crate) fn history_outcome(&self, end_reason: ManagedEndReason) -> (result: ManagedOutcome)
        ensures
            result@ == self@.history.outcome(end_reason, self@.applied_command_sequence),
    {
        self.history.outcome(end_reason, self.applied_command_sequence)
    }

    /// The status that describes the driver as it is.
    pub fn snapshot(&self) -> (result: ManagedStatus)
        ensures
            result@ == self@.snapshot(),
    {
        let mut desired: usize = 0;
        let mut connecting: usize = 0;
        let mut opening: usize = 0;
        let mut active: usize = 0;
        let mut draining: usize = 0;
        let mut closing: usize = 0;
        let mut terminal: usize = 0;
        let mut statuses: Vec<ManagedTargetStatus> = Vec::new();
        let ghost views = target_views(self.targets@);
        let mut i: usize = 0;
        while i < self.targets.len()
            invariant
                views == target_views(self.targets@),
                i <= self.targets@.len(),
                desired == desired_count(views.take(i as int)),
                connecting == lifecycle_count(
                    views.take(i as int),
                    ManagedTargetLifecycle::Connecting,
                ),
                opening == lifecycle_count(views.take(i as int), ManagedTargetLifecycle::Opening),
                active == lifecycle_count(views.take(i as int), ManagedTargetLifecycle::Active),
                draining == lifecycle_count(views.take(i as int), ManagedTargetLifecycle::Draining),
                closing == lifecycle_count(views.take(i as int), ManagedTargetLifecycle::Closing),
                terminal == lifecycle_count(views.take(i as int), ManagedTargetLifecycle::Terminal),
                desired <= i,
                connecting <= i,
                opening <= i,
                active <= i,
                draining <= i,
                closing <= i,
                terminal <= i,
                statuses@.len() == i,
                forall|j: int|
                    0 <= j < i ==> (#[trigger] statuses@[j])@ == views[j].status(),
            decreases self.targets@.len() - i,
        {
            let target = &self.targets[i];
            let lifecycle = target.state.lifecycle();
            proof {
                assert(views.take(i as int + 1).drop_last() =~= views.take(i as int));
                assert(views.take(i as int + 1).last() == target@);
            }
            match lifecycle {
                ManagedTargetLifecycle::Pending => {},
                ManagedTargetLifecycle::Connecting => {
                    connecting += 1;
                },
                ManagedTargetLifecycle::Opening => {
                    opening += 1;
                },
                ManagedTargetLifecycle::Active => {
                    active += 1;
                },
                ManagedTargetLifecycle::Draining => {
                    draining += 1;
                },
                ManagedTargetLifecycle::Closing => {
                    closing += 1;
                },
                ManagedTargetLifecycle::Terminal => {
                    terminal += 1;
                },
            }
            if target.desired {
                desired += 1;
            }
            statuses.push(
                ManagedTargetStatus {
                    target: target.instance.clone(),
                    desired: target.desired,
                    lifecycle,
                    server_addr: target.config.server_addr.clone(),
                    remote: target.remote,
                },
            );
            i += 1;
        }
        let final_outcome = match &self.final_outcome {
            Some(outcome) => Some(outcome.copy()),
            None => None,
        };
        proof {
            assert(views.take(i as int) =~= views);
            assert(statuses@.map_values(|status: ManagedTargetStatus| status@) =~= views.map_values(
                |target: TargetView| target.status(),
            ));
        }
        ManagedStatus {
            lifecycle: self.lifecycle,
            stop_requested: self.stop_observed,
            applied_command_sequence: self.applied_command_sequence,
            desired_target_count: desired,
            connecting_target_count: connecting,
            opening_target_count: opening,
            active_target_count: active,
            draining_target_count: draining,
            closing_target_count: closing,
            terminal_target_count: terminal,
            total_target_outcomes: self.history.total(),
            successful_target_outcomes: self.history.successful(),
            failed_target_outcomes: self.history.failed(),
            peer_closed_target_outcomes: self.history.peer_closed(),
            discarded_target_outcomes: self.history.discarded(),
            targets: statuses,
            recent_target_outcomes: self.history.recent(),
            final_outcome,
        }
    }

    pub(crate) fn replace_status(&mut self)
        ensures
            final(self)@ == old(self)@.status_replaced(),
    {
        let status = self.snapshot();
        self.push_effect(TaskEffect::Status { status });
    }

    pub(crate) fn publish_event(&mut self, event: ManagedEvent)
        ensures
            final(self)@ == old(self)@.event(event@),
    {
        self.push_effect(TaskEffect::Event { event });
    }
}

} // verus!
