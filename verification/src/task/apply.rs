//! Carrying out an update of the desired target set.
use vstd::prelude::*;

use crate::model::{
    outcome_views, ManagedCommandAcknowledgement, ManagedCommandApplyError, ManagedCompletionPolicy,
    ManagedEvent, ManagedLifecycle, ManagedTargetLifecycle, ManagedTargetEndReason,
    ManagedTargetOutcome, OutcomeView, TargetConfigView, TargetInstance,
};
use crate::task::plan::{
    planned_views, retirement_views, update_accepted, update_error, wanted_checks, wanted_configs,
    PlannedRetirement, PlannedTarget, RequestedTarget,
};
use crate::task::plan_view::{
    creation_events, departures, finish_events, leaves_now, outgoing, outgoing_reason,
    pacing_shrinks, rebased, remaining, retirements, some_leave, winding_down,
    RetirementView,
};
use crate::task::state::{target_views, ManagedClientTask};
use crate::task::target::{TargetCounters, TargetRuntime, TargetState, TargetView};
use crate::task::view::{desired_count, Cursors, DriverState, TaskEffect, TaskView};
use crate::timing::Instant;

verus! {

/// The outcome of a target as it stands, ended for `end_reason`.
fn target_outcome(target: &TargetRuntime, end_reason: ManagedTargetEndReason) -> (result:
    ManagedTargetOutcome)
    ensures
        result@ == target@.outcome(end_reason@, None),
{
    ManagedTargetOutcome {
        target: target.instance.clone(),
        server_addr: target.config.server_addr.clone(),
        remote: target.remote,
        end_reason,
        packets_sent: target.counters.packets_sent,
        replies_received: target.counters.replies_received,
        duplicates: target.counters.duplicates,
        late: target.counters.late,
        warning_events: target.counters.warning_events,
        cleanup_failure: None,
    }
}

/// The cursors moved into a list of `len` targets.
pub fn rebase_cursors(cursors: Cursors, len: usize) -> (result: Cursors)
    ensures
        result == rebased(cursors, len as nat),
{
    Cursors {
        cursor: if len == 0 {
            0
        } else {
            cursors.cursor % len
        },
        timeout_cursor: if len == 0 {
            0
        } else {
            cursors.timeout_cursor % len
        },
        send_cursor: if len == 0 {
            0
        } else {
            cursors.send_cursor % len
        },
        scan_remaining: if cursors.scan_remaining <= len {
            cursors.scan_remaining
        } else {
            len
        },
        burst_remaining: if cursors.burst_remaining <= len {
            cursors.burst_remaining
        } else {
            len
        },
        stagger_remaining: if cursors.stagger_remaining <= len {
            cursors.stagger_remaining
        } else {
            len
        },
    }
}

/// The planned retirements of the first `upto` targets come first, and all
/// others are of later targets.
proof fn lemma_retirements_split(
    targets: Seq<TargetView>,
    wanted: Seq<TargetConfigView>,
    upto: int,
)
    requires
        0 <= upto <= targets.len(),
    ensures
        ({
            let all = retirements(targets, wanted);
            let first = retirements(targets.take(upto), wanted);
            &&& first.len() <= all.len()
            &&& first == all.take(first.len() as int)
            &&& forall|k: int|
                first.len() <= k < all.len() ==> (#[trigger] all[k]).index >= upto
            &&& forall|k: int| 0 <= k < first.len() ==> (#[trigger] first[k]).index < upto
        }),
    decreases targets.len(),
{
    let all = retirements(targets, wanted);
    if upto == targets.len() {
        assert(targets.take(upto) =~= targets);
        assert(all.take(all.len() as int) =~= all);
        if targets.len() > 0 {
            lemma_retirements_split(targets.drop_last(), wanted, targets.len() - 1);
            assert(targets.drop_last().take(targets.len() - 1) =~= targets.drop_last());
        }
    } else {
        let rest = targets.drop_last();
        lemma_retirements_split(rest, wanted, upto);
        assert(rest.take(upto) =~= targets.take(upto));
        let first = retirements(targets.take(upto), wanted);
        assert(all.take(first.len() as int) =~= retirements(rest, wanted).take(first.len() as int));
    }
}

/// The retirement planned for target `i`, if there is one, comes right after
/// those of the targets before it.
proof fn lemma_retirement_at(targets: Seq<TargetView>, wanted: Seq<TargetConfigView>, i: int)
    requires
        0 <= i < targets.len(),
    ensures
        ({
            let all = retirements(targets, wanted);
            let before = retirements(targets.take(i), wanted).len() as int;
            let after = retirements(targets.take(i + 1), wanted).len() as int;
            &&& outgoing(targets[i], wanted) ==> after == before + 1 && before < all.len()
                && all[before] == (RetirementView {
                index: i,
                reason: outgoing_reason(targets[i], wanted),
                synchronous: targets[i].state.synchronously_retireable(),
            })
            &&& !outgoing(targets[i], wanted) ==> after == before && (before == all.len()
                || all[before].index > i)
        }),
{
    lemma_retirements_split(targets, wanted, i);
    lemma_retirements_split(targets, wanted, i + 1);
    let all = retirements(targets, wanted);
    let first = retirements(targets.take(i + 1), wanted);
    assert(targets.take(i + 1).drop_last() =~= targets.take(i));
    assert(targets.take(i + 1).last() == targets[i]);
    if outgoing(targets[i], wanted) {
        assert(all.take(first.len() as int)[first.len() - 1] == first[first.len() - 1]);
    }
}

/// What is left of the target list, and what was found on the way.
struct Retired {
    kept: Vec<TargetRuntime>,
    finished: Vec<ManagedTargetOutcome>,
    some_left: bool,
    pacing_shrank: bool,
}

/// Lets go of the targets that leave and marks those that wind down.
fn retire(targets: Vec<TargetRuntime>, planned: &Vec<PlannedRetirement>, Ghost(wanted): Ghost<
    Seq<TargetConfigView>,
>) -> (result: Retired)
    requires
        retirement_views(planned@) == retirements(target_views(targets@), wanted),
    ensures
        target_views(result.kept@) == remaining(target_views(targets@), wanted),
        outcome_views(result.finished@) == departures(target_views(targets@), wanted),
        result.some_left == some_leave(target_views(targets@), wanted),
        result.pacing_shrank == pacing_shrinks(target_views(targets@), wanted),
{
    let ghost listed = targets@;
    let ghost views = target_views(targets@);
    let ghost all = retirements(views, wanted);
    let mut kept: Vec<TargetRuntime> = Vec::new();
    let mut finished: Vec<ManagedTargetOutcome> = Vec::new();
    let mut some_left: bool = false;
    let mut pacing_shrank: bool = false;
    let count: usize = targets.len();
    let mut next: usize = 0;
    let mut i: usize = 0;
    proof {
        assert(target_views(kept@) =~= remaining(views.take(0), wanted));
        assert(outcome_views(finished@) =~= departures(views.take(0), wanted));
    }
    for entry in iter: targets
        invariant
            iter.seq() == listed,
            listed.len() == count,
            i == iter.index(),
            views == target_views(listed),
            all == retirements(views, wanted),
            retirement_views(planned@) == all,
            next <= planned@.len(),
            next == retirements(views.take(i as int), wanted).len(),
            target_views(kept@) == remaining(views.take(i as int), wanted),
            outcome_views(finished@) == departures(views.take(i as int), wanted),
            some_left == some_leave(views.take(i as int), wanted),
            pacing_shrank == pacing_shrinks(views.take(i as int), wanted),
    {
        let mut target = entry;
        let ghost view = target@;
        let ghost kept_before = kept@;
        let ghost finished_before = finished@;
        proof {
            assert(target == listed[i as int]);
            assert(views[i as int] == view);
            lemma_retirement_at(views, wanted, i as int);
            assert(views.take(i as int + 1).drop_last() =~= views.take(i as int));
            assert(views.take(i as int + 1).last() == view);
            lemma_some(views, wanted, i as int);
            if next < planned@.len() {
                assert(all[next as int] == planned@[next as int]@);
            }
        }
        let leaving: bool = next < planned.len() && planned[next].index == i;
        assert(leaving == outgoing(view, wanted));
        if leaving {
            let retirement = &planned[next];
            if retirement.synchronous {
                some_left = true;
                if !target.state.is_terminal() {
                    finished.push(target_outcome(&target, retirement.reason.clone()));
                    assert(outcome_views(finished@) =~= outcome_views(finished_before).push(
                        finished@.last()@,
                    ));
                }
            } else {
                if target.active {
                    pacing_shrank = true;
                }
                target.desired = false;
                target.retirement = Some(retirement.reason.clone());
                target.active = false;
                assert(target@ == winding_down(view, wanted));
                kept.push(target);
                assert(target_views(kept@) =~= target_views(kept_before).push(kept@.last()@));
            }
            next += 1;
        } else {
            kept.push(target);
            assert(target_views(kept@) =~= target_views(kept_before).push(kept@.last()@));
        }
        i += 1;
    }
    assert(views.take(views.len() as int) =~= views);
    Retired { kept, finished, some_left, pacing_shrank }
}

proof fn lemma_some(targets: Seq<TargetView>, wanted: Seq<TargetConfigView>, i: int)
    requires
        0 <= i < targets.len(),
    ensures
        some_leave(targets.take(i + 1), wanted) == (some_leave(targets.take(i), wanted)
            || leaves_now(targets[i], wanted)),
        pacing_shrinks(targets.take(i + 1), wanted) == (pacing_shrinks(targets.take(i), wanted) || (
        outgoing(targets[i], wanted) && !leaves_now(targets[i], wanted) && targets[i].active)),
{
    let before = targets.take(i);
    let after = targets.take(i + 1);
    assert(forall|j: int| 0 <= j < i ==> before[j] == after[j]);
    assert(after[i] == targets[i]);
    if some_leave(before, wanted) {
        let j = choose|j: int| 0 <= j < before.len() && leaves_now(#[trigger] before[j], wanted);
        assert(leaves_now(after[j], wanted));
    }
    if some_leave(after, wanted) && !leaves_now(targets[i], wanted) {
        let j = choose|j: int| 0 <= j < after.len() && leaves_now(#[trigger] after[j], wanted);
        assert(leaves_now(before[j], wanted));
    }
    if pacing_shrinks(before, wanted) {
        let j = choose|j: int|
            0 <= j < before.len() && outgoing(#[trigger] before[j], wanted) && !leaves_now(
                before[j],
                wanted,
            ) && before[j].active;
        assert(outgoing(after[j], wanted));
    }
    if pacing_shrinks(after, wanted) && !(outgoing(targets[i], wanted) && !leaves_now(
        targets[i],
        wanted,
    ) && targets[i].active) {
        let j = choose|j: int|
            0 <= j < after.len() && outgoing(#[trigger] after[j], wanted) && !leaves_now(
                after[j],
                wanted,
            ) && after[j].active;
        assert(outgoing(before[j], wanted));
    }
}

/// The targets of a plan, as they enter the list.
fn create(planned: Vec<PlannedTarget>, kept: Vec<TargetRuntime>) -> (result: (
    Vec<TargetRuntime>,
    Vec<TargetInstance>,
))
    ensures
        target_views(result.0@) == target_views(kept@) + planned_views(planned@),
        result.1@.len() == planned@.len(),
        forall|i: int|
            0 <= i < planned@.len() ==> (#[trigger] result.1@[i])@ == planned@[i]@.instance,
{
    let ghost plan = planned@;
    let mut targets = kept;
    let mut instances: Vec<TargetInstance> = Vec::new();
    assert(target_views(kept@) + planned_views(plan.take(0)) =~= target_views(kept@));
    for planned in iter: planned
        invariant
            iter.seq() == plan,
            target_views(targets@) == target_views(kept@) + planned_views(
                plan.take(iter.index() as int),
            ),
            instances@.len() == iter.index(),
            forall|i: int|
                0 <= i < iter.index() ==> (#[trigger] instances@[i])@ == plan[i]@.instance,
    {
        let ghost i = iter.index() as int;
        let ghost before = targets@;
        assert(planned == plan[i]);
        let instance = TargetInstance {
            id: planned.target.id.clone(),
            generation: planned.generation,
        };
        instances.push(instance.clone());
        let ghost view = planned@;
        targets.push(
            TargetRuntime {
                instance,
                config: planned.target,
                desired: true,
                retirement: None,
                remote: None,
                counters: TargetCounters::new(),
                send_waiting: false,
                active: false,
                state: TargetState::Pending { client_config: planned.client_config },
            },
        );
        proof {
            assert(targets@.last()@ == view);
            assert(target_views(targets@) =~= target_views(before).push(view));
            assert(planned_views(plan.take(i + 1)) =~= planned_views(plan.take(i)).push(view));
            assert(target_views(targets@) =~= target_views(kept@) + planned_views(
                plan.take(i + 1),
            ));
        }
    }
    assert(plan.take(plan.len() as int) =~= plan);
    (targets, instances)
}

impl ManagedClientTask {
    fn none_desired(&self) -> (result: bool)
        ensures
            result == (desired_count(self@.targets) == 0),
    {
        let mut i: usize = 0;
        while i < self.target_count()
            invariant
                i <= self@.targets.len(),
                desired_count(self@.targets.take(i as int)) == 0,
            decreases self@.targets.len() - i,
        {
            assert(self@.targets.take(i as int + 1).drop_last() =~= self@.targets.take(i as int));
            if self.target(i).desired {
                proof {
                    lemma_desired_count_grows(self@.targets, i as int + 1);
                }
                return false;
            }
            i += 1;
        }
        assert(self@.targets.take(i as int) =~= self@.targets);
        true
    }

    /// Counts the outcomes of targets that left.
    fn record_departures(&mut self, finished: &Vec<ManagedTargetOutcome>)
        ensures
            final(self)@ == (TaskView {
                history: old(self)@.history.recorded_all(outcome_views(finished@)),
                ..old(self)@
            }),
    {
        let ghost views = outcome_views(finished@);
        let mut i: usize = 0;
        assert(views.take(0) =~= Seq::<OutcomeView>::empty());
        while i < finished.len()
            invariant
                views == outcome_views(finished@),
                i <= finished@.len(),
                self@ == (TaskView {
                    history: old(self)@.history.recorded_all(views.take(i as int)),
                    ..old(self)@
                }),
            decreases finished@.len() - i,
        {
            assert(views.take(i as int + 1).drop_last() =~= views.take(i as int));
            assert(views.take(i as int + 1).last() == finished@[i as int]@);
            self.record_outcome(finished[i].clone());
            i += 1;
        }
        assert(views.take(i as int) =~= views);
    }

    fn report_departures(&mut self, finished: Vec<ManagedTargetOutcome>)
        ensures
            final(self)@ == (TaskView {
                outbox: old(self)@.outbox + finish_events(outcome_views(finished@)),
                ..old(self)@
            }),
    {
        let ghost views = outcome_views(finished@);
        let ghost outcomes = finished@;
        assert(self@.outbox + finish_events(views.take(0)) =~= self@.outbox);
        for outcome in iter: finished
            invariant
                iter.seq() == outcomes,
                views == outcome_views(outcomes),
                self@ == (TaskView {
                    outbox: old(self)@.outbox + finish_events(views.take(iter.index() as int)),
                    ..old(self)@
                }),
        {
            let ghost i = iter.index() as int;
            let ghost view = outcome@;
            assert(views[i] == view);
            self.publish_event(ManagedEvent::TargetFinished { outcome });
            assert(self@.outbox =~= old(self)@.outbox + finish_events(views.take(i + 1)));
        }
        assert(views.take(views.len() as int) =~= views);
    }

    fn report_creations(&mut self, instances: Vec<TargetInstance>, Ghost(added): Ghost<
        Seq<TargetView>,
    >)
        requires
            instances@.len() == added.len(),
            forall|i: int|
                0 <= i < added.len() ==> (#[trigger] instances@[i])@ == added[i].instance,
        ensures
            final(self)@ == (TaskView {
                outbox: old(self)@.outbox + creation_events(added),
                ..old(self)@
            }),
    {
        let ghost listed = instances@;
        assert(self@.outbox + creation_events(added.take(0)) =~= self@.outbox);
        for target in iter: instances
            invariant
                iter.seq() == listed,
                listed.len() == added.len(),
                forall|i: int|
                    0 <= i < added.len() ==> (#[trigger] listed[i])@ == added[i].instance,
                self@ == (TaskView {
                    outbox: old(self)@.outbox + creation_events(added.take(iter.index() as int)),
                    ..old(self)@
                }),
        {
            let ghost i = iter.index() as int;
            assert(listed[i]@ == added[i].instance);
            self.publish_event(
                ManagedEvent::TargetStateChanged {
                    target,
                    lifecycle: ManagedTargetLifecycle::Pending,
                },
            );
            assert(self@.outbox =~= old(self)@.outbox + creation_events(added.take(i + 1)));
        }
        assert(added.take(added.len() as int) =~= added);
    }

    /// Replaces the desired target set. A refused update changes nothing. An
    /// accepted one is made as a whole and then shown in one status, which is
    /// also what acknowledges it.
    pub fn apply_targets(&mut self, incoming: Vec<RequestedTarget>, now: Instant) -> (result: Result<
        ManagedCommandAcknowledgement,
        ManagedCommandApplyError,
    >)
        ensures
            ({
                let wanted = wanted_configs(incoming@);
                let checks = wanted_checks(incoming@);
                match result {
                    Ok(acknowledgement) => {
                        &&& update_accepted(old(self)@, wanted, checks)
                        &&& final(self)@ == old(self)@.applied(wanted, now)
                        &&& acknowledgement.sequence == final(self)@.applied_command_sequence
                        &&& acknowledgement.status@ == old(self)@.updated(wanted, now).snapshot()
                    },
                    Err(error) => {
                        &&& update_error(old(self)@, wanted, checks, error)
                        &&& final(self)@ == old(self)@
                    },
                }
            }),
    {
        let ghost wanted = wanted_configs(incoming@);
        let ghost before = self@;
        let plan = match self.plan_targets(incoming) {
            Ok(plan) => plan,
            Err(error) => {
                return Err(error);
            },
        };
        let targets = self.take_targets();
        let retired = retire(targets, &plan.retirements, Ghost(wanted));
        self.record_departures(&retired.finished);
        if retired.pacing_shrank {
            self.stagger_target_removed(now);
        }
        if retired.some_left {
            let cursors = rebase_cursors(self.cursors(), retired.kept.len());
            self.set_cursors(cursors);
        }
        let ghost added = before.added(wanted);
        let (targets, instances) = create(plan.created, retired.kept);
        self.put_targets(targets);
        self.set_sequence(plan.next_generation, plan.next_command_sequence);
        assert(plan.created@.len() == added.len());
        let stopping: bool = self.none_desired() && self.config().completion
            == ManagedCompletionPolicy::FinishWhenQuiescent;
        if stopping {
            self.push_effect(TaskEffect::CloseUpdates);
            self.set_phase(DriverState::Stopping, ManagedLifecycle::Stopping);
        }
        assert(self@ == before.updated(wanted, now));
        let status = self.snapshot();
        self.replace_status();
        if stopping {
            self.publish_event(ManagedEvent::Stopping);
        }
        self.report_departures(retired.finished);
        proof {
            assert forall|i: int| 0 <= i < added.len() implies (#[trigger] instances@[i])@
                == added[i].instance by {
                assert(planned_views(plan.created@)[i] == added[i]);
            }
        }
        self.report_creations(instances, Ghost(added));
        assert(self@ == before.applied(wanted, now));
        Ok(
            ManagedCommandAcknowledgement {
                sequence: self.applied_command_sequence(),
                status,
            },
        )
    }
}

proof fn lemma_desired_count_grows(targets: Seq<TargetView>, upto: int)
    requires
        0 <= upto <= targets.len(),
    ensures
        desired_count(targets.take(upto)) <= desired_count(targets),
    decreases targets.len() - upto,
{
    if upto < targets.len() {
        assert(targets.take(upto + 1).drop_last() =~= targets.take(upto));
        lemma_desired_count_grows(targets, upto + 1);
    } else {
        assert(targets.take(upto) =~= targets);
    }
}

} // verus!
