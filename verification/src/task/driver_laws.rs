//! What holds of the driver as a whole: how it starts, stops and ends, and what
//! its status shows.
use vstd::prelude::*;

use crate::counting::{capped_sum, lemma_filter_empty, lemma_filter_last};
use crate::history::HistoryView;
use crate::model::{
    EventView, ManagedCompletionPolicy, ManagedDriverFailure, ManagedEndReason, ManagedLifecycle,
    ManagedOutcomeView, ManagedTargetLifecycle, OutcomeView,
};
use crate::task::drive_view::prunable;
use crate::task::target::{TargetRuntime, TargetState, TargetStateView, TargetView};
use crate::task::view::{
    desired_count, lifecycle_count, DriverState, EffectView, TaskEffect, TaskView,
};

verus! {

/// `after` is `before` in another phase, with further effects listed.
pub open spec fn only_phase_changed(before: TaskView, after: TaskView) -> bool {
    after == (TaskView {
        state: after.state,
        lifecycle: after.lifecycle,
        outbox: after.outbox,
        ..before
    })
}

/// A driver starts at its first poll: it runs, shows that, and then reports it.
/// A stop requested before wins.
pub proof fn law_driver_starts(task: TaskView)
    requires
        task.state == DriverState::NotStarted,
    ensures
        ({
            let after = task.poll_begun(false, true);
            let n = task.outbox.len() as int;
            &&& after.state == DriverState::Running
            &&& after.lifecycle == ManagedLifecycle::Running
            &&& only_phase_changed(task, after)
            &&& after.outbox.len() == n + 2
            &&& after.outbox[n] matches EffectView::Status { status } && status.lifecycle
                == ManagedLifecycle::Running
            &&& after.outbox[n + 1] == (EffectView::Event { event: EventView::Started })
        }),
        forall|runtime: bool|
            task.poll_begun(true, runtime).state == DriverState::Stopping || task.stop_observed,
{
}

/// A driver without a runtime to run in fails at once, and says so.
pub proof fn law_driver_needs_a_runtime(task: TaskView)
    requires
        task.state == DriverState::NotStarted,
    ensures
        ({
            let after = task.poll_begun(false, false);
            &&& after.state == DriverState::Finished
            &&& after.lifecycle == ManagedLifecycle::Failed
            &&& after.final_outcome is Some
            &&& after.final_outcome->0.end_reason == ManagedEndReason::DriverFailed(
                ManagedDriverFailure::NoTokioRuntime,
            )
            &&& after.targets == task.targets
        }),
{
}

/// A driver that has started is left alone by a poll unless a stop is
/// requested, and a stop is taken notice of once.
pub proof fn law_stop_is_noted_once(task: TaskView, runtime: bool)
    requires
        task.state != DriverState::NotStarted,
    ensures
        task.poll_begun(false, runtime) == task,
        task.stop_observed ==> task.poll_begun(true, runtime) == task,
        task.poll_begun(true, runtime).poll_begun(true, runtime) == task.poll_begun(true, runtime),
{
}

/// A requested stop closes the way for updates before anything is shown, is
/// shown and reported, and is acknowledged last. All targets are then looked at
/// anew, and no burst goes on.
pub proof fn law_stop_is_acknowledged(task: TaskView, runtime: bool)
    requires
        !task.stop_observed,
        task.targets.len() <= usize::MAX,
    ensures
        ({
            let after = task.poll_begun(true, runtime);
            let n = task.outbox.len() as int;
            let last = after.outbox.len() - 1;
            &&& after.state == DriverState::Stopping
            &&& after.stop_observed
            &&& task.state == DriverState::Stopping ==> after.lifecycle == task.lifecycle
            &&& task.state != DriverState::Stopping ==> after.lifecycle
                == ManagedLifecycle::Stopping
            &&& after.targets == task.targets
            &&& after.history == task.history
            &&& after.scan_remaining == task.targets.len()
            &&& after.burst_remaining == 0
            &&& after.outbox[n] is CloseUpdates
            &&& after.outbox[n + 1] matches EffectView::Status { status } && status.stop_requested
                && status.lifecycle == after.lifecycle
            &&& after.outbox[last] is AcknowledgeStop
            &&& after.outbox.contains(EffectView::Event { event: EventView::Stopping }) || task.state
                == DriverState::Stopping
            &&& after.final_outcome == task.final_outcome
        }),
{
    let after = task.poll_begun(true, runtime);
    let n = task.outbox.len() as int;
    if task.state != DriverState::Stopping {
        assert(after.outbox[n + 2] == (EffectView::Event { event: EventView::Stopping }));
    }
}

/// The outcome of the driver tells what the history has counted and retained.
pub open spec fn outcome_of(
    history: HistoryView,
    end_reason: ManagedEndReason,
    sequence: u64,
) -> ManagedOutcomeView {
    ManagedOutcomeView {
        end_reason,
        applied_command_sequence: sequence,
        total_target_outcomes: history.total,
        successful_target_outcomes: history.successful,
        failed_target_outcomes: history.failed,
        peer_closed_target_outcomes: history.peer_closed,
        discarded_target_outcomes: history.discarded,
        recent_target_outcomes: history.recent,
    }
}

/// The driver that ended is `after`: what came last, in order, is the end of
/// the command queue, the status with the outcome, the report of it, the
/// acknowledgement of a stop and the end of the events.
pub open spec fn driver_ended(
    before: TaskView,
    after: TaskView,
    end_reason: ManagedEndReason,
    lifecycle: ManagedLifecycle,
) -> bool {
    let outcome = outcome_of(before.history, end_reason, before.applied_command_sequence);
    let n = after.outbox.len() - 5;
    &&& n >= before.outbox.len()
    &&& after.state == DriverState::Finished
    &&& after.lifecycle == lifecycle
    &&& after.final_outcome == Some(outcome)
    &&& after.targets == before.targets
    &&& after.history == before.history
    &&& after.outbox[n] == (EffectView::CloseCommands { end_reason })
    &&& after.outbox[n + 1] matches EffectView::Status { status } && status.lifecycle == lifecycle
        && status.final_outcome == Some(outcome)
    &&& after.outbox[n + 2] == (EffectView::Event {
        event: if lifecycle == ManagedLifecycle::Failed {
            EventView::Failed { outcome }
        } else {
            EventView::Completed { outcome }
        },
    })
    &&& after.outbox[n + 3] is AcknowledgeStop
    &&& after.outbox[n + 4] is CloseEvents
}

/// A driver that fails to start has ended.
pub proof fn law_failed_start_ends_the_driver(task: TaskView)
    requires
        task.state == DriverState::NotStarted,
    ensures
        driver_ended(
            task,
            task.poll_begun(false, false),
            ManagedEndReason::DriverFailed(ManagedDriverFailure::NoTokioRuntime),
            ManagedLifecycle::Failed,
        ),
{
}

/// The driver ends when all its targets have ended and it was told to stop, or
/// is to finish on its own. Until then the end of a poll changes nothing.
pub proof fn law_driver_ends_with_its_targets(task: TaskView)
    ensures
        ({
            let after = task.completed();
            let done = forall|i: int|
                0 <= i < task.targets.len() ==> (#[trigger] task.targets[i]).state is Terminal;
            let alone = task.state == DriverState::Running && task.config.completion
                == ManagedCompletionPolicy::FinishWhenQuiescent;
            &&& !done || !(task.state == DriverState::Stopping || alone) ==> after == task
            &&& done && task.state == DriverState::Stopping ==> driver_ended(
                task,
                after,
                if task.stop_observed {
                    ManagedEndReason::StopRequested
                } else {
                    ManagedEndReason::TargetsComplete
                },
                ManagedLifecycle::Completed,
            )
            &&& done && alone ==> driver_ended(
                task,
                after,
                ManagedEndReason::TargetsComplete,
                ManagedLifecycle::Completed,
            ) && after.outbox[task.outbox.len() as int] is CloseUpdates && after.outbox[
            task.outbox.len() as int + 2] == (EffectView::Event { event: EventView::Stopping })
            &&& task.completion() is Some <==> done && (task.state == DriverState::Stopping
                || alone)
        }),
{
    assert(task.all_terminal() <==> forall|i: int|
        0 <= i < task.targets.len() ==> (#[trigger] task.targets[i]).state is Terminal);
}

/// A driver that is dropped before it ended is shown and reported as abandoned,
/// without an outcome. One that has ended stays as it is.
pub proof fn law_dropped_driver_is_abandoned(task: TaskView)
    ensures
        ({
            let after = task.abandoned();
            let n = task.outbox.len() as int;
            &&& task.state == DriverState::Finished ==> after == task
            &&& task.state != DriverState::Finished ==> {
                &&& after.state == DriverState::Finished
                &&& after.lifecycle == ManagedLifecycle::Abandoned
                &&& after.final_outcome is None
                &&& after.targets == task.targets
                &&& after.history == task.history
                &&& after.outbox.len() == n + 4
                &&& after.outbox[n] matches EffectView::Status { status } && status.lifecycle
                    == ManagedLifecycle::Abandoned && status.final_outcome is None
                &&& after.outbox[n + 1] == (EffectView::Event { event: EventView::Abandoned })
                &&& after.outbox[n + 2] is AcknowledgeStop
                &&& after.outbox[n + 3] is CloseEvents
            }
        }),
{
}

/// Pruning drops exactly the targets that have ended and are no longer wanted,
/// keeps the order of the others, and shows the new list where it has changed.
pub proof fn law_pruning_drops_what_is_done(task: TaskView, index: int)
    requires
        task.targets.len() <= usize::MAX,
    ensures
        ({
            let after = task.pruned();
            let dropped = |target: TargetView| !target.desired && target.state is Terminal;
            &&& after.targets == task.targets.filter(|target: TargetView| !dropped(target))
            &&& 0 <= index < after.targets.len() ==> !dropped(after.targets[index])
                && task.targets.contains(after.targets[index])
            &&& 0 <= index < task.targets.len() && !dropped(task.targets[index])
                ==> after.targets.contains(task.targets[index])
            &&& after.targets.len() == task.targets.len() ==> after == task
            &&& after.targets.len() < task.targets.len() ==> {
                &&& after.outbox.len() == task.outbox.len() + 1
                &&& after.outbox.last() matches EffectView::Status { status }
                    && status.targets.len() == after.targets.len()
                &&& after.scan_remaining <= after.targets.len()
                &&& after.burst_remaining <= after.targets.len()
                &&& after.stagger_remaining <= after.targets.len()
            }
            &&& after.history == task.history
        }),
{
    let keeps = |target: TargetView| !prunable(target);
    let dropped = |target: TargetView| !target.desired && target.state is Terminal;
    let keeps_too = |target: TargetView| !dropped(target);
    assert(keeps =~= keeps_too);
    let kept = task.targets.filter(keeps);
    lemma_filter_members(task.targets, keeps);
    if kept.len() == task.targets.len() {
        lemma_filter_whole(task.targets, keeps);
    }
    if 0 <= index < task.targets.len() && !dropped(task.targets[index]) {
        assert(keeps(task.targets[index]));
        assert(kept.contains(task.targets[index]));
    }
    if 0 <= index < kept.len() {
        assert(kept.contains(kept[index]));
    }
}

proof fn lemma_filter_members(targets: Seq<TargetView>, keeps: spec_fn(TargetView) -> bool)
    ensures
        targets.filter(keeps).len() <= targets.len(),
        forall|i: int|
            0 <= i < targets.filter(keeps).len() ==> keeps(#[trigger] targets.filter(keeps)[i])
                && targets.contains(targets.filter(keeps)[i]),
        forall|i: int|
            0 <= i < targets.len() && keeps(#[trigger] targets[i]) ==> targets.filter(
                keeps,
            ).contains(targets[i]),
    decreases targets.len(),
{
    reveal(Seq::filter);
    if targets.len() > 0 {
        let rest = targets.drop_last();
        lemma_filter_members(rest, keeps);
        let before = rest.filter(keeps);
        let after = targets.filter(keeps);
        assert forall|i: int| 0 <= i < after.len() implies keeps(#[trigger] after[i])
            && targets.contains(after[i]) by {
            if i < before.len() {
                assert(after[i] == before[i]);
                let k = choose|k: int| 0 <= k < rest.len() && rest[k] == before[i];
                assert(targets[k] == after[i]);
            } else {
                assert(targets[targets.len() - 1] == after[i]);
            }
        }
        assert forall|i: int| 0 <= i < targets.len() && keeps(#[trigger] targets[i]) implies
            after.contains(targets[i]) by {
            if i < rest.len() {
                assert(rest[i] == targets[i]);
                let k = choose|k: int| 0 <= k < before.len() && before[k] == targets[i];
                assert(after[k] == targets[i]);
            } else {
                assert(after[after.len() - 1] == targets[i]);
            }
        }
    }
}

proof fn lemma_filter_whole(targets: Seq<TargetView>, keeps: spec_fn(TargetView) -> bool)
    requires
        targets.filter(keeps).len() == targets.len(),
    ensures
        targets.filter(keeps) == targets,
    decreases targets.len(),
{
    reveal(Seq::filter);
    if targets.len() > 0 {
        lemma_filter_members(targets.drop_last(), keeps);
        lemma_filter_whole(targets.drop_last(), keeps);
        assert(targets.filter(keeps) =~= targets);
    } else {
        assert(targets.filter(keeps) =~= targets);
    }
}

proof fn lemma_lifecycle_count(targets: Seq<TargetView>, lifecycle: ManagedTargetLifecycle)
    ensures
        lifecycle_count(targets, lifecycle) == targets.filter(
            |target: TargetView| target.state.lifecycle() == lifecycle,
        ).len(),
    decreases targets.len(),
{
    let wanted = |target: TargetView| target.state.lifecycle() == lifecycle;
    if targets.len() == 0 {
        assert(targets =~= Seq::empty());
        lemma_filter_empty(wanted);
    } else {
        lemma_lifecycle_count(targets.drop_last(), lifecycle);
        lemma_filter_last(targets, wanted);
    }
}

proof fn lemma_desired_count(targets: Seq<TargetView>)
    ensures
        desired_count(targets) == targets.filter(|target: TargetView| target.desired).len(),
    decreases targets.len(),
{
    let wanted = |target: TargetView| target.desired;
    if targets.len() == 0 {
        assert(targets =~= Seq::empty());
        lemma_filter_empty(wanted);
    } else {
        lemma_desired_count(targets.drop_last());
        lemma_filter_last(targets, wanted);
    }
}

/// A target is shown in the lifecycle that its state is named after.
pub proof fn law_lifecycle_names_the_state(state: TargetStateView)
    ensures
        state is Pending <==> state.lifecycle() == ManagedTargetLifecycle::Pending,
        state is Connecting <==> state.lifecycle() == ManagedTargetLifecycle::Connecting,
        state is Opening <==> state.lifecycle() == ManagedTargetLifecycle::Opening,
        state is Active <==> state.lifecycle() == ManagedTargetLifecycle::Active,
        state is Draining <==> state.lifecycle() == ManagedTargetLifecycle::Draining,
        state is Closing <==> state.lifecycle() == ManagedTargetLifecycle::Closing,
        state is Terminal <==> state.lifecycle() == ManagedTargetLifecycle::Terminal,
{
}

/// The status counts the targets as they stand: as many desired, connecting,
/// opening, active, draining, closing and ended ones as there are in the list.
pub proof fn law_status_counts_the_targets(task: TaskView)
    ensures
        ({
            let status = task.snapshot();
            let targets = task.targets;
            &&& status.desired_target_count == targets.filter(
                |target: TargetView| target.desired,
            ).len()
            &&& status.connecting_target_count == targets.filter(
                |target: TargetView| target.state is Connecting,
            ).len()
            &&& status.opening_target_count == targets.filter(
                |target: TargetView| target.state is Opening,
            ).len()
            &&& status.active_target_count == targets.filter(
                |target: TargetView| target.state is Active,
            ).len()
            &&& status.draining_target_count == targets.filter(
                |target: TargetView| target.state is Draining,
            ).len()
            &&& status.closing_target_count == targets.filter(
                |target: TargetView| target.state is Closing,
            ).len()
            &&& status.terminal_target_count == targets.filter(
                |target: TargetView| target.state is Terminal,
            ).len()
        }),
{
    let targets = task.targets;
    lemma_desired_count(targets);
    lemma_lifecycle_count(targets, ManagedTargetLifecycle::Connecting);
    lemma_lifecycle_count(targets, ManagedTargetLifecycle::Opening);
    lemma_lifecycle_count(targets, ManagedTargetLifecycle::Active);
    lemma_lifecycle_count(targets, ManagedTargetLifecycle::Draining);
    lemma_lifecycle_count(targets, ManagedTargetLifecycle::Closing);
    lemma_lifecycle_count(targets, ManagedTargetLifecycle::Terminal);
    assert((|target: TargetView| target.state is Connecting) =~= (|target: TargetView|
        target.state.lifecycle() == ManagedTargetLifecycle::Connecting));
    assert((|target: TargetView| target.state is Opening) =~= (|target: TargetView|
        target.state.lifecycle() == ManagedTargetLifecycle::Opening));
    assert((|target: TargetView| target.state is Active) =~= (|target: TargetView|
        target.state.lifecycle() == ManagedTargetLifecycle::Active));
    assert((|target: TargetView| target.state is Draining) =~= (|target: TargetView|
        target.state.lifecycle() == ManagedTargetLifecycle::Draining));
    assert((|target: TargetView| target.state is Closing) =~= (|target: TargetView|
        target.state.lifecycle() == ManagedTargetLifecycle::Closing));
    assert((|target: TargetView| target.state is Terminal) =~= (|target: TargetView|
        target.state.lifecycle() == ManagedTargetLifecycle::Terminal));
}

/// The status lists every target in order, as it stands, and gives what the
/// history has counted and retained.
pub proof fn law_status_shows_every_target(task: TaskView, i: int)
    requires
        0 <= i < task.targets.len(),
    ensures
        ({
            let status = task.snapshot();
            let target = task.targets[i];
            &&& status.targets.len() == task.targets.len()
            &&& status.targets[i].target == target.instance
            &&& status.targets[i].desired == target.desired
            &&& status.targets[i].lifecycle == target.state.lifecycle()
            &&& status.targets[i].server_addr == target.config.server_addr
            &&& status.targets[i].remote == target.remote
        }),
{
}

/// The status gives the state of the driver and what its history has counted
/// and retained.
pub proof fn law_status_shows_the_driver(task: TaskView)
    ensures
        ({
            let status = task.snapshot();
            &&& status.lifecycle == task.lifecycle
            &&& status.stop_requested == task.stop_observed
            &&& status.applied_command_sequence == task.applied_command_sequence
            &&& status.total_target_outcomes == task.history.total
            &&& status.successful_target_outcomes == task.history.successful
            &&& status.failed_target_outcomes == task.history.failed
            &&& status.peer_closed_target_outcomes == task.history.peer_closed
            &&& status.discarded_target_outcomes == task.history.discarded
            &&& status.recent_target_outcomes == task.history.recent
            &&& status.final_outcome == task.final_outcome
        }),
{
}

/// The history counts every outcome, and each of them once: as failed where the
/// target failed and as successful otherwise, among these those that the peer
/// closed.
pub proof fn law_history_counts_every_outcome(history: HistoryView, outcomes: Seq<OutcomeView>)
    ensures
        ({
            let after = history.recorded_all(outcomes);
            &&& after.total == capped_sum(history.total, outcomes.len())
            &&& after.failed == capped_sum(
                history.failed,
                outcomes.filter(|outcome: OutcomeView| outcome.end_reason is Failed).len(),
            )
            &&& after.successful == capped_sum(
                history.successful,
                outcomes.filter(|outcome: OutcomeView| !(outcome.end_reason is Failed)).len(),
            )
            &&& after.peer_closed == capped_sum(
                history.peer_closed,
                outcomes.filter(|outcome: OutcomeView| outcome.end_reason is PeerClosed).len(),
            )
        }),
    decreases outcomes.len(),
{
    let failed = |outcome: OutcomeView| outcome.end_reason is Failed;
    let successful = |outcome: OutcomeView| !(outcome.end_reason is Failed);
    let peer_closed = |outcome: OutcomeView| outcome.end_reason is PeerClosed;
    if outcomes.len() == 0 {
        assert(outcomes =~= Seq::empty());
        lemma_filter_empty(failed);
        lemma_filter_empty(successful);
        lemma_filter_empty(peer_closed);
    } else {
        law_history_counts_every_outcome(history, outcomes.drop_last());
        lemma_filter_last(outcomes, failed);
        lemma_filter_last(outcomes, successful);
        lemma_filter_last(outcomes, peer_closed);
    }
}

/// What the history no longer retains is counted as discarded.
pub proof fn law_history_counts_what_it_discards(history: HistoryView, outcomes: Seq<OutcomeView>)
    requires
        history.recent.len() <= history.limit,
    ensures
        ({
            let after = history.recorded_all(outcomes);
            let all = history.recent.len() + outcomes.len();
            &&& after.recent.len() == (if all <= history.limit {
                all
            } else {
                history.limit as nat
            })
            &&& after.discarded == capped_sum(
                history.discarded,
                (all - after.recent.len()) as nat,
            )
        }),
    decreases outcomes.len(),
{
    if outcomes.len() > 0 {
        law_history_counts_what_it_discards(history, outcomes.drop_last());
        crate::history::law_history_retains_most_recent(history, outcomes.drop_last());
    }
}

/// What is said of an effect is what it asks for.
pub proof fn law_effects_are_seen_as_they_are(effect: TaskEffect)
    ensures
        effect matches TaskEffect::Status { status } ==> effect@ == (EffectView::Status {
            status: status@,
        }),
        effect matches TaskEffect::Event { event } ==> effect@ == (EffectView::Event {
            event: event@,
        }),
        effect matches TaskEffect::Connect { target, client_config } ==> effect@ == (
        EffectView::Connect { target: target@, client_config: client_config@ }),
        effect matches TaskEffect::DiscardPreparedProbe { target } ==> effect@ == (
        EffectView::DiscardPreparedProbe { target: target@ }),
        effect is CloseUpdates <==> effect@ is CloseUpdates,
        effect is AcknowledgeStop <==> effect@ is AcknowledgeStop,
        effect matches TaskEffect::CloseCommands { end_reason } ==> effect@ == (
        EffectView::CloseCommands { end_reason }),
        effect is CloseEvents <==> effect@ is CloseEvents,
{
}

/// What is said of a target is what its fields hold, each of its own.
pub proof fn law_target_is_seen_as_it_is(target: TargetRuntime)
    ensures
        target@.instance == target.instance@ && target@.config == target.config@,
        target@.desired == target.desired && target@.active == target.active,
        target.retirement is None <==> target@.retirement is None,
        target.retirement matches Some(reason) ==> target@.retirement == Some(reason@),
        target@.remote == target.remote && target@.counters == target.counters,
        target@.send_waiting == target.send_waiting && target@.state == target.state@,
{
}

/// What is said of the state of a target is what the state holds.
pub proof fn law_state_is_seen_as_it_is(state: TargetState)
    ensures
        state matches TargetState::Pending { client_config } ==> state@ == (
        TargetStateView::Pending { client_config: client_config@ }),
        state is Connecting <==> state@ is Connecting,
        state matches TargetState::Opening { in_flight } ==> state@ == (TargetStateView::Opening {
            in_flight,
        }),
        state matches TargetState::Active { facts } ==> state@ == (TargetStateView::Active {
            facts,
        }),
        state is Terminal <==> state@ is Terminal,
        state matches TargetState::Draining {
            facts,
            drain_started_at,
            deadline,
            primary_end,
            cleanup_failure,
            post_deadline_receives_remaining,
        } ==> {
            &&& state@ is Draining
            &&& state@->Draining_facts == facts
            &&& state@->drain_started_at == drain_started_at
            &&& state@->Draining_deadline == deadline
            &&& state@->Draining_primary_end == primary_end@
            &&& cleanup_failure is None <==> state@->Draining_cleanup_failure is None
            &&& cleanup_failure matches Some(failure) ==> state@->Draining_cleanup_failure == Some(
                failure@,
            )
            &&& state@->post_deadline_receives_remaining == post_deadline_receives_remaining
        },
        state matches TargetState::Closing { deadline, primary_end, cleanup_failure } ==> {
            &&& state@ is Closing
            &&& state@->Closing_deadline == deadline
            &&& state@->Closing_primary_end == primary_end@
            &&& cleanup_failure is None <==> state@->Closing_cleanup_failure is None
            &&& cleanup_failure matches Some(failure) ==> state@->Closing_cleanup_failure == Some(
                failure@,
            )
        },
{
}

} // verus!
