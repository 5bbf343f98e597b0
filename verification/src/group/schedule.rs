//! What the scheduler of a group does between its passes: which targets send,
//! or how long it waits.
use vstd::prelude::*;

use crate::error::ClientError;
use crate::group::model::{
    ManagedGroupEndReason, ManagedGroupOutcome, ManagedGroupPacing, TargetId,
};
use crate::group::pacing::{
    burst_taken, earliest, id_views, staggered_taken, PacingRuntime, PacingView,
};
use crate::group::registry::{
    active_positions, drain_deadline, open_deadline, GroupView, ManagedClientGroup,
};
use crate::group::target::TargetView;
use crate::timing::{earlier, Instant};

verus! {

/// What the scheduler does next.
#[derive(Debug, PartialEq, Eq)]
pub enum SendPlan {
    /// Wait for a control message, or until `deadline` where there is one.
    Wait { deadline: Option<Instant> },
    /// Let the targets at these positions send, for the slot at `scheduled_at`.
    Send { targets: Vec<usize>, scheduled_at: Instant },
    /// The slot goes unused.
    Skip,
}

/// The identifiers of the active targets, in order.
pub open spec fn active_ids(group: GroupView) -> Seq<Seq<char>> {
    active_positions(group.targets).map_values(|i: usize| group.targets[i as int].id)
}

/// When each active target may send, in order.
pub open spec fn active_deadlines(group: GroupView) -> Seq<Option<Instant>> {
    active_positions(group.targets).map_values(
        |i: usize| group.targets[i as int].send_deadline(),
    )
}

/// A slot of the cadence has come and there is a target to use it.
pub open spec fn slot_due(group: GroupView, pacing: PacingView, now: Instant) -> bool {
    active_positions(group.targets).len() > 0 && (pacing.wakeup() matches Some(deadline)
        && deadline.nanos <= now.nanos)
}

/// Until when the scheduler may wait.
pub open spec fn wait_deadline(group: GroupView, pacing: PacingView) -> Option<Instant> {
    earlier(
        earlier(
            earliest(group.targets.map_values(|target: TargetView| open_deadline(target))),
            if active_positions(group.targets).len() > 0 {
                pacing.wakeup()
            } else {
                None
            },
        ),
        earliest(group.targets.map_values(|target: TargetView| drain_deadline(target))),
    )
}

/// Decides what the scheduler does next. The cadence is adapted to the active
/// targets first. A staggered slot goes to one target, a burst slot to all.
pub fn plan_sends(group: &ManagedClientGroup, pacing: &mut PacingRuntime, now: Instant) -> (result:
    Result<SendPlan, ClientError>)
    requires
        old(pacing)@.mode == group@.pacing,
        group@.pacing is Burst ==> group@.client.interval.nanos > 0,
    ensures
        final(pacing)@.mode == group@.pacing,
        ({
            let active = active_positions(group@.targets);
            let adapted = old(pacing)@.reconciled(active_ids(group@), now);
            if !slot_due(group@, adapted, now) {
                &&& result == Ok::<_, ClientError>(
                    SendPlan::Wait { deadline: wait_deadline(group@, adapted) },
                )
                &&& final(pacing)@ == adapted
            } else {
                match group@.pacing {
                    ManagedGroupPacing::Staggered => match result {
                        Ok(SendPlan::Send { targets, scheduled_at }) => {
                            &&& targets@.len() == 1
                            &&& exists|k: usize|
                                k < active.len() && targets@[0] == #[trigger] active[k as int]
                                    && staggered_taken(
                                    adapted,
                                    active_deadlines(group@),
                                    group@.client.interval,
                                    now,
                                    Ok(Some((k, scheduled_at))),
                                    final(pacing)@,
                                )
                        },
                        Ok(SendPlan::Skip) => staggered_taken(
                            adapted,
                            active_deadlines(group@),
                            group@.client.interval,
                            now,
                            Ok(None),
                            final(pacing)@,
                        ),
                        Ok(SendPlan::Wait { .. }) => false,
                        Err(error) => staggered_taken(
                            adapted,
                            active_deadlines(group@),
                            group@.client.interval,
                            now,
                            Err(error),
                            final(pacing)@,
                        ),
                    },
                    ManagedGroupPacing::Burst => match result {
                        Ok(SendPlan::Send { targets, scheduled_at }) => {
                            &&& targets@ == active
                            &&& burst_taken(
                                adapted,
                                group@.client.interval,
                                now,
                                Ok(Some(scheduled_at)),
                                final(pacing)@,
                            )
                        },
                        Ok(_) => false,
                        Err(error) => burst_taken(
                            adapted,
                            group@.client.interval,
                            now,
                            Err(error),
                            final(pacing)@,
                        ),
                    },
                }
            }
        }),
        result matches Ok(SendPlan::Send { targets, .. }) ==> forall|k: int|
            0 <= k < targets@.len() ==> (#[trigger] targets@[k]) < group@.targets.len()
                && group@.targets[targets@[k] as int].status is Active,
{
    let active = group.active_targets();
    let mut ids: Vec<TargetId> = Vec::new();
    let mut deadlines: Vec<Option<Instant>> = Vec::new();
    let mut i: usize = 0;
    while i < active.len()
        invariant
            i <= active@.len(),
            active@ == active_positions(group@.targets),
            forall|k: int|
                0 <= k < active@.len() ==> (#[trigger] active@[k]) < group@.targets.len(),
            ids@.len() == i,
            deadlines@.len() == i,
            forall|k: int|
                0 <= k < i ==> (#[trigger] ids@[k])@ == group@.targets[active@[k] as int].id,
            forall|k: int|
                0 <= k < i ==> (#[trigger] deadlines@[k])
                    == group@.targets[active@[k] as int].send_deadline(),
        decreases active@.len() - i,
    {
        let target = group.target(active[i]);
        ids.push(target.id.clone());
        deadlines.push(target.next_send_deadline());
        i += 1;
    }
    assert(id_views(ids@) =~= active_ids(group@));
    assert(deadlines@ =~= active_deadlines(group@));
    pacing.reconcile(ids, now);
    let ghost adapted = pacing@;
    if !pacing.send_due(active.len(), now) {
        let wakeup: Option<Instant> = if active.len() > 0 {
            pacing.next_wakeup()
        } else {
            None
        };
        return Ok(SendPlan::Wait { deadline: group.scheduler_deadline(wakeup) });
    }
    let interval = group.client_config().interval;
    match pacing.mode {
        ManagedGroupPacing::Staggered => {
            match pacing.next_staggered(&deadlines, interval, now) {
                Ok(Some((k, scheduled_at))) => {
                    let index: usize = active[k];
                    let targets: Vec<usize> = vec![index];
                    assert(active@[k as int] == targets@[0]);
                    Ok(SendPlan::Send { targets, scheduled_at })
                },
                Ok(None) => Ok(SendPlan::Skip),
                Err(error) => Err(error),
            }
        },
        ManagedGroupPacing::Burst => {
            match pacing.next_burst(interval, now) {
                Ok(Some(scheduled_at)) => Ok(SendPlan::Send { targets: active, scheduled_at }),
                Ok(None) => Ok(SendPlan::Skip),
                Err(error) => Err(error),
            }
        },
    }
}

/// What joining the threads of a group yields. A thread that panicked hands
/// over nothing. A failure of the scheduler comes before one of the receiver.
pub fn join_group(
    scheduler: Option<Result<ManagedGroupOutcome, ClientError>>,
    receiver: Option<Result<(), ClientError>>,
) -> (result: Result<ManagedGroupOutcome, ClientError>)
    ensures
        result == match (scheduler, receiver) {
            (None, _) => Err(ClientError::WorkerPanicked),
            (Some(Err(error)), _) => Err(error),
            (Some(Ok(_)), None) => Err(ClientError::WorkerPanicked),
            (Some(Ok(_)), Some(Err(error))) => Err(error),
            (Some(Ok(outcome)), Some(Ok(_))) => Ok(outcome),
        },
{
    let outcome = match scheduler {
        None => {
            return Err(ClientError::WorkerPanicked);
        },
        Some(Err(error)) => {
            return Err(error);
        },
        Some(Ok(outcome)) => outcome,
    };
    match receiver {
        None => Err(ClientError::WorkerPanicked),
        Some(Err(error)) => Err(error),
        Some(Ok(())) => Ok(outcome),
    }
}

/// What the scheduler does next.
#[derive(Debug, Clone, Copy, PartialEq, Eq, Structural)]
pub enum SchedulerStage {
    /// Handle the control messages that wait.
    Control,
    /// Close all targets, because the group was cancelled.
    Cancel,
    /// Make the open attempts that are due.
    Opens,
    /// Expire probes that are due.
    Timeouts,
    /// Close the targets that have completed.
    Completion,
    /// Record the targets that have ended.
    Collect,
    /// Let targets send.
    Sends,
    /// Wait for a control message or a deadline.
    Wait,
    /// The group ends.
    End { reason: ManagedGroupEndReason },
}

/// What a stage of the scheduler came to.
#[derive(Debug, Clone, Copy, PartialEq, Eq, Structural)]
pub enum SchedulerReport {
    /// No control message waits. `cancelled` tells that the group was
    /// cancelled.
    Handled { cancelled: bool },
    /// The stage is done.
    Done,
    /// The ended targets are recorded. `complete` tells that the group should
    /// complete.
    Collected { complete: bool },
    /// The sends are made. `wait` tells that no slot was due.
    Sent { wait: bool },
}

impl SchedulerReport {
    /// `self` can come of `stage`.
    pub open spec fn fits(self, stage: SchedulerStage) -> bool {
        match stage {
            SchedulerStage::Control => self is Handled,
            SchedulerStage::Collect => self is Collected,
            SchedulerStage::Sends => self is Sent,
            SchedulerStage::End { .. } => false,
            _ => self is Done,
        }
    }
}

/// The stage that follows `stage` after `report`.
pub open spec fn scheduler_next(stage: SchedulerStage, report: SchedulerReport) -> SchedulerStage {
    match (stage, report) {
        (SchedulerStage::Control, SchedulerReport::Handled { cancelled: true }) =>
            SchedulerStage::Cancel,
        (SchedulerStage::Control, _) => SchedulerStage::Opens,
        (SchedulerStage::Cancel, _) => SchedulerStage::End {
            reason: ManagedGroupEndReason::Cancelled,
        },
        (SchedulerStage::Opens, _) => SchedulerStage::Timeouts,
        (SchedulerStage::Timeouts, _) => SchedulerStage::Completion,
        (SchedulerStage::Completion, _) => SchedulerStage::Collect,
        (SchedulerStage::Collect, SchedulerReport::Collected { complete: true }) =>
            SchedulerStage::End { reason: ManagedGroupEndReason::AllTargetsComplete },
        (SchedulerStage::Collect, _) => SchedulerStage::Sends,
        (SchedulerStage::Sends, SchedulerReport::Sent { wait: true }) => SchedulerStage::Wait,
        (SchedulerStage::Sends, _) => SchedulerStage::Control,
        (SchedulerStage::Wait, _) => SchedulerStage::Control,
        (SchedulerStage::End { reason }, _) => SchedulerStage::End { reason },
    }
}

/// What the scheduler does after a stage.
pub fn advance_scheduler(stage: SchedulerStage, report: SchedulerReport) -> (result: SchedulerStage)
    requires
        report.fits(stage),
    ensures
        result == scheduler_next(stage, report),
{
    match (stage, report) {
        (SchedulerStage::Control, SchedulerReport::Handled { cancelled: true }) =>
            SchedulerStage::Cancel,
        (SchedulerStage::Control, _) => SchedulerStage::Opens,
        (SchedulerStage::Cancel, _) => SchedulerStage::End {
            reason: ManagedGroupEndReason::Cancelled,
        },
        (SchedulerStage::Opens, _) => SchedulerStage::Timeouts,
        (SchedulerStage::Timeouts, _) => SchedulerStage::Completion,
        (SchedulerStage::Completion, _) => SchedulerStage::Collect,
        (SchedulerStage::Collect, SchedulerReport::Collected { complete: true }) =>
            SchedulerStage::End { reason: ManagedGroupEndReason::AllTargetsComplete },
        (SchedulerStage::Collect, _) => SchedulerStage::Sends,
        (SchedulerStage::Sends, SchedulerReport::Sent { wait: true }) => SchedulerStage::Wait,
        (SchedulerStage::Sends, _) => SchedulerStage::Control,
        (SchedulerStage::Wait, _) => SchedulerStage::Control,
        (SchedulerStage::End { reason }, _) => SchedulerStage::End { reason },
    }
}

/// The scheduler ends only once it has closed all targets of a cancelled group,
/// or has recorded all targets of a group that should complete. Cancellation is
/// looked at before anything else is done.
pub proof fn law_scheduler_ends_for_a_cause(stage: SchedulerStage, report: SchedulerReport)
    requires
        report.fits(stage),
    ensures
        scheduler_next(stage, report) == (SchedulerStage::End {
            reason: ManagedGroupEndReason::Cancelled,
        }) <==> stage == SchedulerStage::Cancel,
        scheduler_next(stage, report) == (SchedulerStage::End {
            reason: ManagedGroupEndReason::AllTargetsComplete,
        }) <==> (stage == SchedulerStage::Collect && report == (SchedulerReport::Collected {
            complete: true,
        })),
        scheduler_next(stage, report) == SchedulerStage::Cancel <==> (stage
            == SchedulerStage::Control && report == (SchedulerReport::Handled { cancelled: true })),
{
}

} // verus!
