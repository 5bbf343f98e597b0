//! Start, passes and end of the driver.
use vstd::prelude::*;

use crate::ring::lemma_ring_step;
use crate::model::{
    managed_outcome_view, ManagedCommandAcknowledgement, ManagedCommandApplyError,
    ManagedCommandError, ManagedCompletionPolicy, ManagedDriverFailure, ManagedEndReason,
    ManagedEvent, ManagedLifecycle, ManagedOutcome, ManagedPacing,
};
use crate::task::apply::rebase_cursors;
use crate::task::drive_view::{
    first_sending, first_waiting, pass_indices, pass_work, prunable, ring, round_left,
};
use crate::task::plan::{
    update_accepted, update_error, wanted_checks, wanted_configs, RequestedTarget,
};
use crate::task::state::{target_views, ManagedClientTask};
use crate::task::target::{TargetRuntime, TargetState, TargetView};
use crate::task::view::{active_count, Cursors, DriverState, TaskEffect, TARGET_WORK_BUDGET};
use crate::timing::{earlier_instant, Instant};

verus! {

/// How a command queue took a submitted update.
#[derive(Debug, Clone, Copy, PartialEq, Eq, Structural)]
pub enum QueueOutcome {
    Sent,
    Full,
    Closed,
}

/// Whether an update of `configured` targets may be submitted at all.
pub fn admit_update(updates_accepted: bool, configured: usize, limit: usize) -> (result: Result<
    (),
    ManagedCommandError,
>)
    ensures
        result == (if !updates_accepted {
            Err(ManagedCommandError::Stopping)
        } else if configured > limit {
            Err(ManagedCommandError::TooManyTargets { configured, limit })
        } else {
            Ok(())
        }),
{
    if !updates_accepted {
        return Err(ManagedCommandError::Stopping);
    }
    if configured > limit {
        return Err(ManagedCommandError::TooManyTargets { configured, limit });
    }
    Ok(())
}

/// What the submitter of an update is told.
pub fn submission_result(queued: QueueOutcome) -> (result: Result<(), ManagedCommandError>)
    ensures
        result == match queued {
            QueueOutcome::Sent => Ok(()),
            QueueOutcome::Full => Err(ManagedCommandError::QueueFull),
            QueueOutcome::Closed => Err(ManagedCommandError::DriverClosed),
        },
{
    match queued {
        QueueOutcome::Sent => Ok(()),
        QueueOutcome::Full => Err(ManagedCommandError::QueueFull),
        QueueOutcome::Closed => Err(ManagedCommandError::DriverClosed),
    }
}

/// How an update still queued is answered when the driver ends.
pub fn seal_rejection(end_reason: &ManagedEndReason) -> (result: ManagedCommandApplyError)
    ensures
        result == match *end_reason {
            ManagedEndReason::DriverFailed(failure) => ManagedCommandApplyError::DriverFailed(
                failure,
            ),
            _ => ManagedCommandApplyError::Stopping,
        },
{
    match end_reason {
        ManagedEndReason::DriverFailed(failure) => ManagedCommandApplyError::DriverFailed(
            failure.clone(),
        ),
        _ => ManagedCommandApplyError::Stopping,
    }
}

/// The flags that a stop request and the driver share.
#[derive(Debug, Clone, Copy, PartialEq, Eq, Structural)]
pub struct StopSignal {
    pub requested: bool,
    pub updates_accepted: bool,
    pub acknowledged: bool,
}

impl StopSignal {
    pub fn new() -> (result: StopSignal)
        ensures
            result == (StopSignal {
                requested: false,
                updates_accepted: true,
                acknowledged: false,
            }),
    {
        StopSignal { requested: false, updates_accepted: true, acknowledged: false }
    }

    /// Requests a stop and refuses updates from now on. Tells whether the
    /// driver has to be woken: only the first request does.
    pub fn request(&mut self) -> (wake: bool)
        ensures
            *final(self) == (StopSignal { requested: true, updates_accepted: false, ..*old(self) }),
            wake == !old(self).requested,
    {
        self.updates_accepted = false;
        let wake: bool = !self.requested;
        self.requested = true;
        wake
    }

    pub fn close_updates(&mut self)
        ensures
            *final(self) == (StopSignal { updates_accepted: false, ..*old(self) }),
    {
        self.updates_accepted = false;
    }

    /// Acknowledges the stop. Tells whether waiters have to be woken.
    pub fn acknowledge(&mut self) -> (wake: bool)
        ensures
            *final(self) == (StopSignal { acknowledged: true, ..*old(self) }),
            wake == !old(self).acknowledged,
    {
        let wake: bool = !self.acknowledged;
        self.acknowledged = true;
        wake
    }
}

/// The positions of one pass over a ring of `len`, where it ends, and how much
/// of the round is left.
fn take_pass(cursor: usize, left: usize, len: usize) -> (result: (Vec<usize>, usize, usize))
    requires
        len > 0,
    ensures
        result.0@ == pass_indices(cursor, left, len as nat),
        result.1 == ring(cursor, pass_work(left, len as nat), len as nat),
        result.2 == round_left(left, len as nat) - pass_work(left, len as nat),
        forall|k: int| 0 <= k < result.0@.len() ==> (#[trigger] result.0@[k]) < len,
{
    let left: usize = if left == 0 {
        len
    } else {
        left
    };
    let work: usize = if left <= TARGET_WORK_BUDGET {
        left
    } else {
        TARGET_WORK_BUDGET
    };
    let mut indices: Vec<usize> = Vec::new();
    let mut at: usize = cursor % len;
    let mut k: usize = 0;
    while k < work
        invariant
            len > 0,
            k <= work,
            at < len,
            at == ring(cursor, k as nat, len as nat),
            indices@.len() == k,
            forall|j: int|
                0 <= j < k ==> (#[trigger] indices@[j]) == ring(cursor, j as nat, len as nat)
                    && indices@[j] < len,
        decreases work - k,
    {
        indices.push(at);
        proof {
            lemma_ring_step(cursor as int + k as int, len as int);
        }
        at = if at + 1 == len {
            0
        } else {
            at + 1
        };
        k += 1;
    }
    assert(indices@ =~= pass_indices(cursor, left, len as nat));
    (indices, at, left - work)
}

impl ManagedClientTask {
    /// Takes notice of a requested stop.
    pub(crate) fn observe_stop(&mut self)
        ensures
            final(self)@ == old(self)@.stop_noted(),
    {
        if self.stop_observed() {
            return;
        }
        self.set_stop_observed();
        self.push_effect(TaskEffect::CloseUpdates);
        if self.state() == DriverState::Stopping {
            self.replace_status();
        } else {
            self.set_phase(DriverState::Stopping, ManagedLifecycle::Stopping);
            self.replace_status();
            self.publish_event(ManagedEvent::Stopping);
        }
        self.push_effect(TaskEffect::AcknowledgeStop);
        let cursors = Cursors {
            scan_remaining: self.target_count(),
            burst_remaining: 0,
            ..self.cursors()
        };
        self.set_cursors(cursors);
    }

    fn begin_running(&mut self, runtime_available: bool) -> (result: Result<
        (),
        ManagedDriverFailure,
    >)
        ensures
            runtime_available ==> result is Ok && final(self)@ == old(self)@.started(),
            !runtime_available ==> {
                &&& result == Err::<(), _>(ManagedDriverFailure::NoTokioRuntime)
                &&& final(self)@ == old(self)@
            },
    {
        if !runtime_available {
            return Err(ManagedDriverFailure::NoTokioRuntime);
        }
        self.set_phase(DriverState::Running, ManagedLifecycle::Running);
        self.replace_status();
        self.publish_event(ManagedEvent::Started);
        Ok(())
    }

    /// The first part of a poll. Gives the outcome where the driver fails to
    /// start because there is no runtime.
    pub fn begin_poll(&mut self, stop_requested: bool, runtime_available: bool) -> (result: Option<
        ManagedOutcome,
    >)
        requires
            old(self)@.state != DriverState::Finished,
        ensures
            final(self)@ == old(self)@.poll_begun(stop_requested, runtime_available),
            result is Some <==> final(self)@.state == DriverState::Finished,
            managed_outcome_view(result) == (if result is Some {
                final(self)@.final_outcome
            } else {
                None
            }),
    {
        if self.state() == DriverState::NotStarted && !stop_requested {
            return match self.begin_running(runtime_available) {
                Ok(()) => None,
                Err(failure) => Some(self.seal(ManagedEndReason::DriverFailed(failure), true)),
            };
        }
        if stop_requested {
            self.observe_stop();
        }
        None
    }

    /// Applies a submitted update, unless the driver is not running or a stop
    /// was requested: a stop seen here wins over the update.
    pub fn apply_command(
        &mut self,
        incoming: Vec<RequestedTarget>,
        stop_requested: bool,
        now: Instant,
    ) -> (result: Result<ManagedCommandAcknowledgement, ManagedCommandApplyError>)
        ensures
            ({
                let wanted = wanted_configs(incoming@);
                let checks = wanted_checks(incoming@);
                if old(self)@.state != DriverState::Running || stop_requested {
                    &&& result matches Err(ManagedCommandApplyError::Stopping)
                    &&& final(self)@ == old(self)@
                } else {
                    match result {
                        Ok(acknowledgement) => {
                            &&& update_accepted(old(self)@, wanted, checks)
                            &&& final(self)@ == old(self)@.applied(wanted, now)
                            &&& acknowledgement.sequence == final(self)@.applied_command_sequence
                            &&& acknowledgement.status@ == old(self)@.updated(
                                wanted,
                                now,
                            ).snapshot()
                        },
                        Err(error) => {
                            &&& update_error(old(self)@, wanted, checks, error)
                            &&& final(self)@ == old(self)@
                        },
                    }
                }
            }),
    {
        if self.state() != DriverState::Running || stop_requested {
            return Err(ManagedCommandApplyError::Stopping);
        }
        self.apply_targets(incoming, now)
    }

    /// The targets that one pass steps, in order.
    pub fn plan_target_pass(&mut self) -> (result: Vec<usize>)
        ensures
            final(self)@ == old(self)@.target_pass_taken(),
            result@ == (if old(self)@.targets.len() == 0 {
                Seq::empty()
            } else {
                pass_indices(
                    old(self)@.cursor,
                    old(self)@.scan_remaining,
                    old(self)@.targets.len(),
                )
            }),
            forall|k: int|
                0 <= k < result@.len() ==> (#[trigger] result@[k]) < old(self)@.targets.len(),
    {
        let len: usize = self.target_count();
        if len == 0 {
            return Vec::new();
        }
        let cursors = self.cursors();
        let (indices, cursor, scan_remaining) = take_pass(
            cursors.cursor,
            cursors.scan_remaining,
            len,
        );
        self.set_cursors(Cursors { cursor, scan_remaining, ..cursors });
        indices
    }

    /// The targets that one burst pass lets send, in order.
    pub fn plan_burst_pass(&mut self) -> (result: Vec<usize>)
        ensures
            final(self)@ == old(self)@.burst_pass_taken(),
            result@ == (if old(self)@.targets.len() == 0 {
                Seq::empty()
            } else {
                pass_indices(
                    old(self)@.send_cursor,
                    old(self)@.burst_remaining,
                    old(self)@.targets.len(),
                )
            }),
            forall|k: int|
                0 <= k < result@.len() ==> (#[trigger] result@[k]) < old(self)@.targets.len(),
    {
        let len: usize = self.target_count();
        if len == 0 {
            return Vec::new();
        }
        let cursors = self.cursors();
        let (indices, send_cursor, burst_remaining) = take_pass(
            cursors.send_cursor,
            cursors.burst_remaining,
            len,
        );
        self.set_cursors(Cursors { send_cursor, burst_remaining, ..cursors });
        indices
    }

    /// Whether a round over the targets, a burst or a list of due probes is
    /// left unfinished, so that the driver has to be polled again at once.
    pub fn work_left(&self) -> (result: bool)
        ensures
            result == (self@.scan_remaining > 0 || self@.timeout_backlog.len() > 0 || (self@.state
                == DriverState::Running && self@.config.pacing == ManagedPacing::Burst
                && self@.burst_remaining > 0)),
    {
        let cursors = self.cursors();
        cursors.scan_remaining > 0 || self.timeout_backlog_len() > 0 || (self.state()
            == DriverState::Running && self.config().pacing == ManagedPacing::Burst
            && cursors.burst_remaining > 0)
    }

    /// Drops the targets that have ended and are no longer wanted.
    pub fn prune_undesired_terminal(&mut self)
        ensures
            final(self)@ == old(self)@.pruned(),
    {
        let ghost before = self@;
        let count: usize = self.target_count();
        let targets = self.take_targets();
        let ghost listed = targets@;
        let ghost keeps = |target: TargetView| !prunable(target);
        let mut kept: Vec<TargetRuntime> = Vec::new();
        proof {
            assert(before.targets.take(0) =~= Seq::<TargetView>::empty());
            assert(target_views(kept@) =~= before.targets.take(0).filter(keeps)) by {
                reveal(Seq::filter);
            }
        }
        for target in iter: targets
            invariant
                iter.seq() == listed,
                before.targets == target_views(listed),
                keeps == (|target: TargetView| !prunable(target)),
                target_views(kept@) == before.targets.take(iter.index() as int).filter(keeps),
        {
            let ghost i = iter.index() as int;
            let ghost kept_before = kept@;
            let ghost view = target@;
            proof {
                assert(before.targets[i] == view);
                assert(before.targets.take(i + 1).drop_last() =~= before.targets.take(i));
                assert(before.targets.take(i + 1).last() == view);
                reveal(Seq::filter);
            }
            if target.desired || !target.state.is_terminal() {
                kept.push(target);
                assert(target_views(kept@) =~= target_views(kept_before).push(view));
            }
        }
        assert(before.targets.take(before.targets.len() as int) =~= before.targets);
        let unchanged: bool = kept.len() == count;
        let len: usize = kept.len();
        self.put_targets(kept);
        if unchanged {
            proof {
                lemma_filter_all(before.targets, keeps);
            }
            assert(self@ == before);
            return;
        }
        let cursors = rebase_cursors(self.cursors(), len);
        self.set_cursors(cursors);
        self.replace_status();
    }

    fn all_targets_terminal(&self) -> (result: bool)
        ensures
            result == self@.all_terminal(),
    {
        let mut i: usize = 0;
        while i < self.target_count()
            invariant
                i <= self@.targets.len(),
                forall|j: int| 0 <= j < i ==> (#[trigger] self@.targets[j]).state is Terminal,
            decreases self@.targets.len() - i,
        {
            if !self.target(i).state.is_terminal() {
                assert(!(self@.targets[i as int].state is Terminal));
                return false;
            }
            i += 1;
        }
        true
    }

    /// Ends the driver and gives its outcome.
    pub(crate) fn seal(&mut self, end_reason: ManagedEndReason, failed: bool) -> (result:
        ManagedOutcome)
        ensures
            final(self)@ == old(self)@.sealed(end_reason, failed),
            result@ == old(self)@.history.outcome(
                end_reason,
                old(self)@.applied_command_sequence,
            ),
    {
        self.push_effect(TaskEffect::CloseCommands { end_reason: end_reason.clone() });
        let outcome = self.history_outcome(end_reason);
        self.set_final_outcome(Some(outcome.copy()));
        let state = self.state();
        self.set_phase(
            state,
            if failed {
                ManagedLifecycle::Failed
            } else {
                ManagedLifecycle::Completed
            },
        );
        self.replace_status();
        self.publish_event(
            if failed {
                ManagedEvent::Failed { outcome: outcome.copy() }
            } else {
                ManagedEvent::Completed { outcome: outcome.copy() }
            },
        );
        self.push_effect(TaskEffect::AcknowledgeStop);
        self.push_effect(TaskEffect::CloseEvents);
        let lifecycle = self.lifecycle();
        self.set_phase(DriverState::Finished, lifecycle);
        outcome
    }

    /// The last part of a poll. Gives the outcome where the driver ends.
    pub fn complete_poll(&mut self) -> (result: Option<ManagedOutcome>)
        requires
            old(self)@.state != DriverState::Finished,
        ensures
            final(self)@ == old(self)@.completed(),
            result is Some <==> old(self)@.completion() is Some,
            managed_outcome_view(result) == (if result is Some {
                final(self)@.final_outcome
            } else {
                None
            }),
    {
        if !self.all_targets_terminal() {
            return None;
        }
        if self.state() == DriverState::Stopping {
            let end_reason = if self.stop_observed() {
                ManagedEndReason::StopRequested
            } else {
                ManagedEndReason::TargetsComplete
            };
            return Some(self.seal(end_reason, false));
        }
        if self.state() == DriverState::Running && self.config().completion
            == ManagedCompletionPolicy::FinishWhenQuiescent {
            self.set_phase(DriverState::Stopping, ManagedLifecycle::Stopping);
            self.push_effect(TaskEffect::CloseUpdates);
            self.replace_status();
            self.publish_event(ManagedEvent::Stopping);
            return Some(self.seal(ManagedEndReason::TargetsComplete, false));
        }
        None
    }

    /// Ends a driver that is dropped. One that has ended stays as it is.
    pub fn abandon(&mut self)
        ensures
            final(self)@ == old(self)@.abandoned(),
    {
        if self.state() == DriverState::Finished {
            return;
        }
        let state = self.state();
        self.set_phase(state, ManagedLifecycle::Abandoned);
        self.set_final_outcome(None);
        self.replace_status();
        self.publish_event(ManagedEvent::Abandoned);
        self.push_effect(TaskEffect::AcknowledgeStop);
        self.push_effect(TaskEffect::CloseEvents);
        self.set_phase(DriverState::Finished, ManagedLifecycle::Abandoned);
    }

    /// The next instant at which the driver has something to do by itself.
    pub fn next_deadline(&self) -> (result: Option<Instant>)
        ensures
            result == self@.deadline(),
    {
        let mut waiting: Option<Instant> = None;
        let mut sending: Option<Instant> = None;
        let mut i: usize = 0;
        while i < self.target_count()
            invariant
                i <= self@.targets.len(),
                waiting == first_waiting(self@.targets.take(i as int)),
                sending == first_sending(self@.targets.take(i as int)),
            decreases self@.targets.len() - i,
        {
            let target = self.target(i);
            assert(self@.targets.take(i as int + 1).drop_last() =~= self@.targets.take(i as int));
            match &target.state {
                TargetState::Active { facts } => {
                    waiting = earlier_instant(waiting, facts.next_probe_timeout);
                    if target.desired && target.retirement.is_none() && !target.send_waiting {
                        sending = earlier_instant(sending, facts.next_send);
                    }
                },
                TargetState::Draining { facts, deadline, .. } => {
                    let own = earlier_instant(facts.next_probe_timeout, Some(*deadline));
                    waiting = earlier_instant(waiting, own);
                },
                TargetState::Closing { deadline, .. } => {
                    waiting = earlier_instant(waiting, Some(*deadline));
                },
                _ => {},
            }
            i += 1;
        }
        assert(self@.targets.take(i as int) =~= self@.targets);
        if self.state() == DriverState::Running && self.config().pacing == ManagedPacing::Staggered
            && self.active_count() > 0 {
            sending = match (sending, self.send_gate()) {
                (Some(send), Some(gate)) => {
                    if send.nanos < gate.nanos {
                        Some(gate)
                    } else {
                        Some(send)
                    }
                },
                (None, gate) => gate,
                (send, None) => send,
            };
        }
        earlier_instant(waiting, sending)
    }
}

proof fn lemma_filter_all(targets: Seq<TargetView>, keeps: spec_fn(TargetView) -> bool)
    requires
        targets.filter(keeps).len() >= targets.len(),
    ensures
        targets.filter(keeps) == targets,
    decreases targets.len(),
{
    reveal(Seq::filter);
    if targets.len() > 0 {
        let rest = targets.drop_last();
        rest.lemma_filter_len_push(keeps, targets.last());
        lemma_filter_bound(rest, keeps);
        lemma_filter_all(rest, keeps);
        assert(rest.push(targets.last()) =~= targets);
    }
}

proof fn lemma_filter_bound(targets: Seq<TargetView>, keeps: spec_fn(TargetView) -> bool)
    ensures
        targets.filter(keeps).len() <= targets.len(),
    decreases targets.len(),
{
    reveal(Seq::filter);
    if targets.len() > 0 {
        lemma_filter_bound(targets.drop_last(), keeps);
    }
}

} // verus!
