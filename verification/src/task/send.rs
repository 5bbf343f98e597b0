//! Sending probes, staggered or in bursts.
use vstd::prelude::*;

use crate::model::{ManagedPacing, ManagedTargetFailurePhase};
use crate::ring::lemma_ring_step;
use crate::task::drive_view::{
    pass_indices, pass_work, ring, round_left, sendable, SendObservation, SendPoll, SendResult,
    StaggerStep,
};
use crate::task::state::ManagedClientTask;
use crate::task::target::{ClientFacts, TargetState, TargetView};
use crate::task::view::{active_count, Cursors, DriverState, TaskView, TARGET_WORK_BUDGET};
use crate::timing::{Duration, Instant};

verus! {

/// Looking for the next sender of a staggered round in state `before` yields
/// `result` and leaves `after`: nothing while the send gate is closed, and the
/// first target in turn that can send otherwise.
pub open spec fn stagger_planned(
    before: TaskView,
    now: Instant,
    result: StaggerStep,
    after: TaskView,
) -> bool {
    if before.stagger_closed(now) {
        &&& result == (StaggerStep::Idle { more: false })
        &&& after == before
    } else {
        match result {
            StaggerStep::Idle { more } => {
                let work = pass_work(
                    before.stagger_remaining,
                    before.targets.len(),
                );
                &&& after == before.stagger_scanned(work)
                &&& more == (after.stagger_remaining > 0)
                &&& forall|k: nat|
                    k < work ==> !sendable(
                        before.targets[#[trigger] ring(
                            before.send_cursor,
                            k,
                            before.targets.len(),
                        )],
                        now,
                    )
            },
            StaggerStep::Attempt { index } => exists|seen: nat|
                {
                    let len = before.targets.len();
                    &&& seen < pass_work(before.stagger_remaining, len)
                    &&& index == ring(before.send_cursor, seen, len)
                    &&& index < len
                    &&& sendable(before.targets[index as int], now)
                    &&& forall|k: nat|
                        k < seen ==> !sendable(
                            before.targets[#[trigger] ring(
                                before.send_cursor,
                                k,
                                len,
                            )],
                            now,
                        )
                    &&& after == (TaskView {
                        send_cursor: ring(
                            before.send_cursor,
                            seen + 1,
                            len,
                        ) as usize,
                        stagger_remaining: 0,
                        ..#[trigger] before.stagger_scanned(seen)
                    })
                },
        }
    }
}

/// What is to be sent in one poll.
#[derive(Debug, PartialEq, Eq)]
pub enum SendWork {
    /// Nothing: the driver does not run.
    Nothing,
    /// At most one target.
    Staggered { step: StaggerStep },
    /// These targets, in order.
    Burst { targets: Vec<usize> },
}

impl ManagedClientTask {
    /// Whether the target at `index` can send its next probe now.
    pub fn can_send(&self, index: usize, now: Instant) -> (result: bool)
        requires
            index < self@.targets.len(),
        ensures
            result == sendable(self@.targets[index as int], now),
    {
        let target = self.target(index);
        if !target.desired || target.retirement.is_some() {
            return false;
        }
        match &target.state {
            TargetState::Active { facts } => {
                let due: bool = match facts.next_send {
                    Some(at) => at.nanos <= now.nanos,
                    None => false,
                };
                let overdue: bool = match facts.next_probe_timeout {
                    Some(deadline) => deadline.nanos <= now.nanos,
                    None => false,
                };
                due && !overdue
            },
            _ => false,
        }
    }

    /// Whether sends may be scheduled for the target at `index`.
    fn may_send(&self, index: usize) -> (result: bool)
        requires
            index < self@.targets.len(),
        ensures
            result == self@.targets[index as int].sends(),
    {
        let target = self.target(index);
        target.desired && target.retirement.is_none() && target.state.is_active()
    }

    /// Closes the send gate after a send that was accepted.
    pub fn record_stagger_acceptance(
        &mut self,
        result: SendResult,
        stagger_spacing: Option<(usize, Duration)>,
        accepted_at: Instant,
    )
        ensures
            final(self)@ == old(self)@.acceptance_recorded(result, stagger_spacing, accepted_at),
    {
        if !result.accepted() {
            return;
        }
        if let Some((_, spacing)) = stagger_spacing {
            self.set_last_stagger_send(accepted_at);
            self.set_gate(accepted_at.checked_add(spacing));
        }
    }

    /// Takes in what came of a target's turn to send. `observed` is there
    /// exactly where the target could send; the driver then asked for it.
    ///
    /// A target that may not send, or need not now, no longer waits to.
    pub fn poll_one_send(
        &mut self,
        index: usize,
        observed: Option<SendObservation>,
        stagger_spacing: Option<(usize, Duration)>,
        now: Instant,
        clock: Instant,
    ) -> (result: SendResult)
        requires
            index < old(self)@.targets.len(),
            observed is Some <==> sendable(old(self)@.targets[index as int], now),
        ensures
            observed matches Some(observed) ==> {
                let made = old(self)@.send_made(
                    index as int,
                    observed,
                    stagger_spacing,
                    now,
                    clock,
                );
                final(self)@ == made.0 && result == made.1
            },
            observed is None ==> {
                let target = old(self)@.targets[index as int];
                &&& result == SendResult::NotAttempted
                &&& final(self)@ == (if target.sends() || !target.desired || target.retirement
                    is Some {
                    old(self)@.with_target(
                        index as int,
                        TargetView { send_waiting: false, ..target },
                    )
                } else {
                    old(self)@
                })
            },
    {
        let observed = match observed {
            Some(observed) => observed,
            None => {
                let target = self.target(index);
                if !target.desired || target.retirement.is_some() || target.state.is_active() {
                    self.set_target_waiting(index, false);
                }
                return SendResult::NotAttempted;
            },
        };
        let facts: ClientFacts = observed.facts;
        let accepted: bool = facts.packets_sent > observed.packets_before;
        let attempt = match &observed.poll {
            SendPoll::Pending => SendResult::Pending,
            SendPoll::Sent { .. } => SendResult::Ready { accepted },
            SendPoll::Failed { .. } => SendResult::Failed { accepted },
        };
        self.record_stagger_acceptance(attempt, stagger_spacing, observed.accepted_at);
        self.set_packets_sent(index, facts.packets_sent);
        let waiting: bool = match &observed.poll {
            SendPoll::Pending => true,
            _ => false,
        };
        self.set_target_waiting(index, waiting);
        self.set_target_state(index, TargetState::Active { facts });
        match observed.poll {
            SendPoll::Pending => SendResult::Pending,
            SendPoll::Sent { events } => {
                self.publish_client_events(index, events);
                if accepted {
                    if let Some(error) = observed.schedule_error {
                        let _ = self.begin_open_session_failure(
                            index,
                            facts,
                            ManagedTargetFailurePhase::Timing,
                            error,
                            true,
                            now,
                            clock,
                        );
                        return SendResult::Failed { accepted };
                    }
                }
                SendResult::Ready { accepted }
            },
            SendPoll::Failed { error } => {
                let _ = self.begin_open_session_failure(
                    index,
                    facts,
                    ManagedTargetFailurePhase::Sending,
                    error,
                    true,
                    now,
                    clock,
                );
                SendResult::Failed { accepted }
            },
        }
    }

    /// Looks for the next target of a staggered round that can send now. Once
    /// one is found, the round is over.
    pub fn plan_staggered_send(&mut self, now: Instant) -> (result: StaggerStep)
        ensures
            stagger_planned(old(self)@, now, result, final(self)@),
    {
        let closed: bool = self.active_count() == 0 || match self.send_gate() {
            Some(gate) => gate.nanos > now.nanos,
            None => false,
        };
        if closed {
            return StaggerStep::Idle { more: false };
        }
        let len: usize = self.target_count();
        proof {
            if len == 0 {
                assert(active_count(self@.targets) == 0);
            }
        }
        let cursors = self.cursors();
        let left: usize = if cursors.stagger_remaining == 0 {
            len
        } else {
            cursors.stagger_remaining
        };
        self.set_cursors(Cursors { stagger_remaining: left, ..cursors });
        let work: usize = if left <= TARGET_WORK_BUDGET {
            left
        } else {
            TARGET_WORK_BUDGET
        };
        let mut seen: usize = 0;
        proof {
            lemma_scanned(old(self)@, 0);
        }
        while seen < work
            invariant
                seen <= work,
                work <= left,
                len > 0,
                len == old(self)@.targets.len(),
                !old(self)@.stagger_closed(now),
                left == round_left(old(self)@.stagger_remaining, len as nat),
                work == pass_work(old(self)@.stagger_remaining, len as nat),
                self@ == old(self)@.stagger_scanned(seen as nat),
                forall|k: nat|
                    k < seen ==> !sendable(
                        old(self)@.targets[#[trigger] ring(
                            old(self)@.send_cursor,
                            k,
                            len as nat,
                        )],
                        now,
                    ),
            decreases work - seen,
        {
            proof {
                lemma_scanned(old(self)@, seen as nat);
                lemma_ring_step(old(self)@.send_cursor as int + seen as int, len as int);
            }
            let cursors = self.cursors();
            let index: usize = cursors.send_cursor % len;
            let next: usize = if index + 1 == len {
                0
            } else {
                index + 1
            };
            assert(next == ring(old(self)@.send_cursor, seen as nat + 1, len as nat));
            if self.can_send(index, now) {
                self.set_cursors(Cursors { send_cursor: next, stagger_remaining: 0, ..cursors });
                return StaggerStep::Attempt { index };
            }
            self.set_cursors(
                Cursors {
                    send_cursor: next,
                    stagger_remaining: cursors.stagger_remaining - 1,
                    ..cursors
                },
            );
            if self.may_send(index) {
                self.set_target_waiting(index, false);
            }
            assert(self@ == old(self)@.stagger_scanned((seen + 1) as nat));
            seen += 1;
        }
        StaggerStep::Idle { more: self.cursors().stagger_remaining > 0 }
    }

    /// Plans the sends of one poll. Only a running driver sends.
    pub fn plan_sends(&mut self, now: Instant) -> (result: SendWork)
        ensures
            if old(self)@.state != DriverState::Running {
                result is Nothing && final(self)@ == old(self)@
            } else {
                match old(self)@.config.pacing {
                    ManagedPacing::Staggered => result matches SendWork::Staggered { step }
                        && stagger_planned(old(self)@, now, step, final(self)@),
                    ManagedPacing::Burst => {
                        &&& result matches SendWork::Burst { targets } && targets@ == (if old(
                            self,
                        )@.targets.len() == 0 {
                            Seq::empty()
                        } else {
                            pass_indices(
                                old(self)@.send_cursor,
                                old(self)@.burst_remaining,
                                old(self)@.targets.len(),
                            )
                        })
                        &&& final(self)@ == old(self)@.burst_pass_taken()
                    },
                }
            },
    {
        if self.state() != DriverState::Running {
            return SendWork::Nothing;
        }
        match self.config().pacing {
            ManagedPacing::Staggered => {
                let step = self.plan_staggered_send(now);
                SendWork::Staggered { step }
            },
            ManagedPacing::Burst => {
                let targets = self.plan_burst_pass();
                SendWork::Burst { targets }
            },
        }
    }
}

/// Scanning for a sender moves the cursor and changes nothing about who can send.
proof fn lemma_scanned(task: TaskView, seen: nat)
    requires
        task.targets.len() > 0,
        seen <= round_left(task.stagger_remaining, task.targets.len()),
        task.targets.len() <= usize::MAX,
    ensures
        ({
            let after = task.stagger_scanned(seen);
            let len = task.targets.len();
            &&& after.targets.len() == len
            &&& after.stagger_remaining == round_left(task.stagger_remaining, len) - seen
            &&& after.send_cursor as int % len as int == ring(task.send_cursor, seen, len)
            &&& 0 <= ring(task.send_cursor, seen, len) < len
            &&& forall|i: int|
                0 <= i < len ==> (#[trigger] after.targets[i]).sends() == task.targets[i].sends()
                    && after.targets[i].state == task.targets[i].state
        }),
    decreases seen,
{
    let len = task.targets.len() as int;
    lemma_ring_step(task.send_cursor as int + seen as int, len);
    if seen > 0 {
        lemma_scanned(task, (seen - 1) as nat);
        lemma_ring_step(task.send_cursor as int + seen as int - 1, len);
        let next = ring(task.send_cursor, seen, len as nat);
        vstd::arithmetic::div_mod::lemma_small_mod(next as nat, len as nat);
    }
}

} // verus!
