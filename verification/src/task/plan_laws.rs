//! What holds of the targets that an update lets go of, and of what is refused.
use vstd::prelude::*;

use crate::config::ClientConfigView;
use crate::error::ClientError;
use crate::model::{
    EndReasonView, EventView, ManagedClientConfigView, ManagedCommandApplyError,
    ManagedCompletionPolicy, ManagedConfigError, ManagedLifecycle, ManagedTargetLifecycle, OutcomeView, TargetConfigView,
};
use crate::task::construct::{
    first_initially_refused, initially_refused, limits_error, targets_error,
};
use crate::task::plan::{update_accepted, update_error};
use crate::task::plan_view::{
    acceptable, check_error, creation_events, departures, effective_config, failed_check,
    finish_events, first_refused, leaves_now, outgoing, pacing_shrinks, refused, remaining,
    repeated, retirements, some_leave, RetirementView, TargetChecks,
};
use crate::task::target::{TargetStateView, TargetView};
use crate::task::view::{desired_count, DriverState, EffectView, TaskView};
use crate::timing::{Instant, MAX_INSTANT_NANOS};

verus! {

/// The target is desired, and is no longer asked for as it is configured.
pub open spec fn goes(target: TargetView, wanted: Seq<TargetConfigView>) -> bool {
    target.desired && !exists|k: int|
        0 <= k < wanted.len() && #[trigger] wanted[k] == target.config
}

/// Nothing of the target's session is under way that has to be finished first.
pub open spec fn goes_at_once(target: TargetView) -> bool {
    ||| target.state is Pending
    ||| target.state is Connecting
    ||| target.state is Terminal
    ||| target.state == (TargetStateView::Opening { in_flight: false })
}

/// A target that goes is replaced where another configuration of it is asked
/// for, and removed otherwise.
pub open spec fn going_reason(target: TargetView, wanted: Seq<TargetConfigView>) -> EndReasonView {
    if exists|k: int| 0 <= k < wanted.len() && (#[trigger] wanted[k]).id == target.instance.id {
        EndReasonView::Replaced
    } else {
        EndReasonView::Removed
    }
}

proof fn lemma_goes(target: TargetView, wanted: Seq<TargetConfigView>)
    ensures
        goes(target, wanted) == outgoing(target, wanted),
{
    if wanted.contains(target.config) {
        let k = choose|k: int| 0 <= k < wanted.len() && wanted[k] == target.config;
        assert(wanted[k] == target.config);
    }
    if exists|k: int| 0 <= k < wanted.len() && #[trigger] wanted[k] == target.config {
        let k = choose|k: int| 0 <= k < wanted.len() && #[trigger] wanted[k] == target.config;
        assert(wanted.contains(wanted[k]));
    }
}

/// Every target is kept as it is, kept to wind down, or let go of, and nothing
/// else is kept: a target that is still asked for, or that was not desired any
/// more, stays as it is; one that goes and has work under way stays to end for
/// its reason, out of pacing.
pub proof fn law_update_sorts_the_targets(
    targets: Seq<TargetView>,
    wanted: Seq<TargetConfigView>,
    index: int,
)
    requires
        0 <= index < targets.len(),
    ensures
        ({
            let target = targets[index];
            let kept = remaining(targets, wanted);
            &&& !goes(target, wanted) ==> kept.contains(target)
            &&& goes(target, wanted) && !goes_at_once(target) ==> kept.contains(
                TargetView {
                    desired: false,
                    retirement: Some(going_reason(target, wanted)),
                    active: false,
                    ..target
                },
            )
            &&& goes(target, wanted) && goes_at_once(target) && (forall|j: int|
                0 <= j < targets.len() && j != index ==> (#[trigger] targets[j]).instance
                    != target.instance) ==> forall|k: int|
                0 <= k < kept.len() ==> (#[trigger] kept[k]).instance != target.instance
        }),
{
    lemma_goes(targets[index], wanted);
    lemma_kept(targets, wanted, index);
    lemma_kept_origin(targets, wanted);
    let target = targets[index];
    let kept = remaining(targets, wanted);
    if goes(target, wanted) && goes_at_once(target) && (forall|j: int|
        0 <= j < targets.len() && j != index ==> (#[trigger] targets[j]).instance
            != target.instance) {
        assert forall|k: int| 0 <= k < kept.len() implies (#[trigger] kept[k]).instance
            != target.instance by {
            let j = choose|j: int|
                0 <= j < targets.len() && (#[trigger] targets[j]).instance == kept[k].instance && !(
                outgoing(targets[j], wanted) && goes_at_once(targets[j]));
            assert(j != index);
        }
    }
}

proof fn lemma_kept(targets: Seq<TargetView>, wanted: Seq<TargetConfigView>, index: int)
    requires
        0 <= index < targets.len(),
    ensures
        ({
            let target = targets[index];
            let kept = remaining(targets, wanted);
            &&& !outgoing(target, wanted) ==> kept.contains(target)
            &&& outgoing(target, wanted) && !goes_at_once(target) ==> kept.contains(
                TargetView {
                    desired: false,
                    retirement: Some(going_reason(target, wanted)),
                    active: false,
                    ..target
                },
            )
        }),
    decreases targets.len(),
{
    let rest = targets.drop_last();
    let kept = remaining(targets, wanted);
    let target = targets[index];
    let winding = TargetView {
        desired: false,
        retirement: Some(going_reason(target, wanted)),
        active: false,
        ..target
    };
    if index == targets.len() - 1 {
        if !(outgoing(target, wanted) && goes_at_once(target)) {
            assert(kept[kept.len() - 1] == if outgoing(target, wanted) {
                winding
            } else {
                target
            });
        }
    } else {
        lemma_kept(rest, wanted, index);
        assert(rest[index] == target);
        let before = remaining(rest, wanted);
        assert forall|k: int| 0 <= k < before.len() implies kept[k] == #[trigger] before[k] by {}
        if !outgoing(target, wanted) {
            let k = choose|k: int| 0 <= k < before.len() && before[k] == target;
            assert(kept[k] == target);
        } else if !goes_at_once(target) {
            let k = choose|k: int| 0 <= k < before.len() && before[k] == winding;
            assert(kept[k] == winding);
        }
    }
}

proof fn lemma_kept_origin(targets: Seq<TargetView>, wanted: Seq<TargetConfigView>)
    ensures
        forall|k: int|
            0 <= k < remaining(targets, wanted).len() ==> exists|j: int|
                0 <= j < targets.len() && (#[trigger] targets[j]).instance == (
                #[trigger] remaining(targets, wanted)[k]).instance && !(outgoing(
                    targets[j],
                    wanted,
                ) && goes_at_once(targets[j])),
    decreases targets.len(),
{
    if targets.len() > 0 {
        let rest = targets.drop_last();
        lemma_kept_origin(rest, wanted);
        let before = remaining(rest, wanted);
        let kept = remaining(targets, wanted);
        assert forall|k: int| 0 <= k < kept.len() implies exists|j: int|
            0 <= j < targets.len() && (#[trigger] targets[j]).instance == (
            #[trigger] kept[k]).instance && !(outgoing(targets[j], wanted) && goes_at_once(
                targets[j],
            )) by {
            if k < before.len() {
                assert(kept[k] == before[k]);
                let j = choose|j: int|
                    0 <= j < rest.len() && (#[trigger] rest[j]).instance == before[k].instance && !(
                    outgoing(rest[j], wanted) && goes_at_once(rest[j]));
                assert(targets[j] == rest[j]);
            } else {
                assert(targets[targets.len() - 1].instance == kept[k].instance);
            }
        }
    }
}

/// The outcome of a target that an update lets go of at once.
pub open spec fn going_outcome(target: TargetView, wanted: Seq<TargetConfigView>) -> OutcomeView {
    OutcomeView {
        target: target.instance,
        server_addr: target.config.server_addr,
        remote: target.remote,
        end_reason: going_reason(target, wanted),
        packets_sent: target.counters.packets_sent,
        replies_received: target.counters.replies_received,
        duplicates: target.counters.duplicates,
        late: target.counters.late,
        warning_events: target.counters.warning_events,
        cleanup_failure: None,
    }
}

/// Each target that is let go of at once yields one outcome, in the order of
/// the list, unless it had ended before and so has one already.
pub proof fn law_departures_yield_outcomes(
    targets: Seq<TargetView>,
    wanted: Seq<TargetConfigView>,
)
    ensures
        departures(targets, wanted) == targets.filter(
            |target: TargetView|
                goes(target, wanted) && goes_at_once(target) && !(target.state is Terminal),
        ).map_values(|target: TargetView| going_outcome(target, wanted)),
    decreases targets.len(),
{
    let leaves = |target: TargetView|
        goes(target, wanted) && goes_at_once(target) && !(target.state is Terminal);
    let outcome = |target: TargetView| going_outcome(target, wanted);
    reveal(Seq::filter);
    if targets.len() == 0 {
        assert(departures(targets, wanted) =~= targets.filter(leaves).map_values(outcome));
    } else {
        let rest = targets.drop_last();
        law_departures_yield_outcomes(rest, wanted);
        lemma_goes(targets.last(), wanted);
        if leaves(targets.last()) {
            assert(targets.filter(leaves) =~= rest.filter(leaves).push(targets.last()));
            assert(targets.filter(leaves).map_values(outcome) =~= rest.filter(leaves).map_values(
                outcome,
            ).push(outcome(targets.last())));
        } else {
            assert(targets.filter(leaves) =~= rest.filter(leaves));
        }
        assert(departures(targets, wanted) =~= targets.filter(leaves).map_values(outcome));
    }
}

/// The plan names every target that goes, by its place, for its reason, and
/// tells whether it can be let go of at once.
pub proof fn law_plan_names_who_goes(
    targets: Seq<TargetView>,
    wanted: Seq<TargetConfigView>,
    index: int,
)
    requires
        0 <= index < targets.len(),
    ensures
        goes(targets[index], wanted) <==> retirements(targets, wanted).contains(
            RetirementView {
                index,
                reason: going_reason(targets[index], wanted),
                synchronous: goes_at_once(targets[index]),
            },
        ),
    decreases targets.len(),
{
    lemma_goes(targets[index], wanted);
    let rest = targets.drop_last();
    let planned = retirements(targets, wanted);
    let before = retirements(rest, wanted);
    let entry = RetirementView {
        index,
        reason: going_reason(targets[index], wanted),
        synchronous: goes_at_once(targets[index]),
    };
    lemma_planned_places(rest, wanted);
    if index == targets.len() - 1 {
        if outgoing(targets[index], wanted) {
            assert(planned[planned.len() - 1] == entry);
        } else if planned.contains(entry) {
            let k = choose|k: int| 0 <= k < before.len() && before[k] == entry;
            assert(before[k].index < rest.len());
        }
    } else {
        law_plan_names_who_goes(rest, wanted, index);
        assert(rest[index] == targets[index]);
        if before.contains(entry) {
            let k = choose|k: int| 0 <= k < before.len() && before[k] == entry;
            assert(planned[k] == entry);
        }
        if planned.contains(entry) {
            let k = choose|k: int| 0 <= k < planned.len() && planned[k] == entry;
            if k < before.len() {
                assert(before[k] == entry);
            }
        }
    }
}

proof fn lemma_planned_places(targets: Seq<TargetView>, wanted: Seq<TargetConfigView>)
    ensures
        forall|k: int|
            0 <= k < retirements(targets, wanted).len() ==> 0 <= (#[trigger] retirements(
                targets,
                wanted,
            )[k]).index < targets.len(),
    decreases targets.len(),
{
    if targets.len() > 0 {
        lemma_planned_places(targets.drop_last(), wanted);
        let before = retirements(targets.drop_last(), wanted);
        let planned = retirements(targets, wanted);
        assert forall|k: int| 0 <= k < planned.len() implies 0 <= (#[trigger] planned[k]).index
            < targets.len() by {
            if k < before.len() {
                assert(planned[k] == before[k]);
            }
        }
    }
}

/// An update takes one number of the command sequence, and one generation for
/// each target it adds. It records what departs, keeps the targets that stay
/// before those it adds, and drops an elapsed send gate where pacing shrinks.
pub proof fn law_update_changes(task: TaskView, wanted: Seq<TargetConfigView>, now: Instant)
    requires
        task.applied_command_sequence < u64::MAX,
        task.next_generation + task.added(wanted).len() <= u64::MAX,
    ensures
        ({
            let after = task.applied(wanted, now);
            let kept = remaining(task.targets, wanted);
            &&& after.applied_command_sequence == task.applied_command_sequence + 1
            &&& after.next_generation == task.next_generation + task.added(wanted).len()
            &&& after.targets == kept + task.added(wanted)
            &&& after.targets.len() == task.live_after(wanted)
            &&& after.history == task.history.recorded_all(departures(task.targets, wanted))
            &&& after.config == task.config
            &&& after.stop_observed == task.stop_observed
            &&& after.final_outcome == task.final_outcome
            &&& after.send_gate is Some ==> after.send_gate == task.send_gate
            &&& task.send_gate is Some && task.send_gate->0.nanos > now.nanos ==> after.send_gate
                == task.send_gate
            &&& !pacing_shrinks(task.targets, wanted) ==> after.send_gate == task.send_gate
            &&& pacing_shrinks(task.targets, wanted) && task.send_gate is Some
                && task.send_gate->0.nanos <= now.nanos ==> after.send_gate is None
            &&& after.last_stagger_send == task.last_stagger_send
            &&& !some_leave(task.targets, wanted) ==> after.cursors() == task.cursors()
        }),
{
}

/// No target stays desired, and the driver is to finish then.
pub open spec fn empties(task: TaskView, wanted: Seq<TargetConfigView>, now: Instant) -> bool {
    &&& task.config.completion == ManagedCompletionPolicy::FinishWhenQuiescent
    &&& forall|i: int|
        0 <= i < task.applied(wanted, now).targets.len() ==> !(#[trigger] task.applied(
            wanted,
            now,
        ).targets[i]).desired
}

proof fn lemma_nothing_desired(targets: Seq<TargetView>)
    ensures
        desired_count(targets) == 0 <==> forall|i: int|
            0 <= i < targets.len() ==> !(#[trigger] targets[i]).desired,
    decreases targets.len(),
{
    if targets.len() > 0 {
        let rest = targets.drop_last();
        lemma_nothing_desired(rest);
        if desired_count(targets) == 0 {
            assert forall|i: int| 0 <= i < targets.len() implies !(
            #[trigger] targets[i]).desired by {
                if i < rest.len() {
                    assert(rest[i] == targets[i]);
                }
            }
        }
        if forall|i: int| 0 <= i < targets.len() ==> !(#[trigger] targets[i]).desired {
            assert forall|i: int| 0 <= i < rest.len() implies !(#[trigger] rest[i]).desired by {
                assert(rest[i] == targets[i]);
            }
            assert(!targets[targets.len() - 1].desired);
        }
    }
}

/// A driver that is to finish when nothing is left to do begins to stop with
/// the update that leaves nothing desired: it refuses further updates before it
/// shows that. Otherwise an update leaves the state of the driver alone.
pub proof fn law_empty_update_stops_the_driver(
    task: TaskView,
    wanted: Seq<TargetConfigView>,
    now: Instant,
)
    ensures
        ({
            let after = task.applied(wanted, now);
            let n = task.outbox.len() as int;
            &&& empties(task, wanted, now) ==> {
                &&& after.state == DriverState::Stopping
                &&& after.lifecycle == ManagedLifecycle::Stopping
                &&& after.outbox[n] is CloseUpdates
                &&& after.outbox[n + 1] matches EffectView::Status { status } && status.lifecycle
                    == ManagedLifecycle::Stopping
                &&& after.outbox[n + 2] == (EffectView::Event { event: EventView::Stopping })
            }
            &&& !empties(task, wanted, now) ==> {
                &&& after.state == task.state
                &&& after.lifecycle == task.lifecycle
                &&& after.outbox[n] matches EffectView::Status { status } && status.lifecycle
                    == task.lifecycle
            }
        }),
{
    let after = task.applied(wanted, now);
    lemma_nothing_desired(after.targets);
}

/// One status shows an update as a whole, with the new list. Then the departed
/// targets are reported with their outcomes, and then the new ones, each in
/// order.
pub proof fn law_update_is_reported_in_order(
    task: TaskView,
    wanted: Seq<TargetConfigView>,
    now: Instant,
)
    ensures
        ({
            let after = task.applied(wanted, now);
            let gone = departures(task.targets, wanted);
            let added = task.added(wanted);
            let ends = after.outbox.len() - added.len();
            let shown = task.updated(wanted, now).snapshot();
            &&& after.outbox.contains(EffectView::Status { status: shown })
            &&& shown.targets.len() == after.targets.len()
            &&& shown.applied_command_sequence == after.applied_command_sequence
            &&& after.outbox.len() == task.outbox.len() + gone.len() + added.len() + (if empties(
                task,
                wanted,
                now,
            ) {
                3int
            } else {
                1
            })
            &&& forall|k: int|
                0 <= k < gone.len() ==> (#[trigger] after.outbox[ends - gone.len() + k])
                    == (EffectView::Event { event: EventView::TargetFinished { outcome: gone[k] } })
            &&& forall|k: int|
                0 <= k < added.len() ==> (#[trigger] after.outbox[ends + k])
                    == (EffectView::Event {
                    event: EventView::TargetStateChanged {
                        target: added[k].instance,
                        lifecycle: ManagedTargetLifecycle::Pending,
                    },
                })
        }),
{
    let after = task.applied(wanted, now);
    lemma_nothing_desired(after.targets);
    let gone = departures(task.targets, wanted);
    let added = task.added(wanted);
    let ends = after.outbox.len() - added.len();
    let shown = task.updated(wanted, now).snapshot();
    let n = task.outbox.len() as int;
    assert(finish_events(gone).len() == gone.len());
    assert(creation_events(added).len() == added.len());
    if empties(task, wanted, now) {
        assert(after.outbox[n + 1] == (EffectView::Status { status: shown }));
    } else {
        assert(after.outbox[n] == (EffectView::Status { status: shown }));
    }
}

/// A target's configuration is refused where one of its checks fails, and then
/// for the first of them: open timeouts, session parameters, address families,
/// time-to-live. The last is checked only where one is configured.
pub proof fn law_first_failed_check_is_reported(
    config: ClientConfigView,
    checks: TargetChecks,
    error: ClientError,
)
    ensures
        ({
            let families = config.socket_config.ipv4_only && config.socket_config.ipv6_only;
            let ttl = config.socket_config.ttl is Some && checks.ttl is Err;
            let failed = failed_check(config, checks);
            &&& failed is None <==> checks.open_timeouts is Ok && checks.session is Ok && !families
                && !ttl
            &&& failed is Some && check_error(failed->0, checks, error) ==> {
                &&& checks.open_timeouts is Err ==> checks.open_timeouts == Err::<(), _>(error)
                &&& checks.open_timeouts is Ok && checks.session is Err ==> checks.session
                    == Err::<(), _>(error)
                &&& checks.open_timeouts is Ok && checks.session is Ok && families ==> (
                error matches ClientError::InvalidConfig { reason } && reason@
                    == "ipv4_only and ipv6_only cannot both be true"@)
                &&& checks.open_timeouts is Ok && checks.session is Ok && !families ==> checks.ttl
                    == Err::<(), _>(error)
            }
        }),
{
}

/// An update is accepted exactly where no identifier is named twice, every
/// configuration passes its checks, the numbers suffice, and the list of
/// targets stays within its limit.
pub proof fn law_update_is_accepted_where_it_fits(
    task: TaskView,
    wanted: Seq<TargetConfigView>,
    checks: Seq<TargetChecks>,
    now: Instant,
)
    requires
        task.next_generation + task.added(wanted).len() <= u64::MAX,
        task.applied_command_sequence < u64::MAX,
    ensures
        update_accepted(task, wanted, checks) <==> {
            &&& forall|i: int, j: int|
                0 <= i < j < wanted.len() ==> (#[trigger] wanted[i]).id != (#[trigger] wanted[j]).id
            &&& forall|i: int|
                0 <= i < wanted.len() ==> failed_check(
                    effective_config(task.config.client, #[trigger] wanted[i]),
                    checks[i],
                ) is None
            &&& task.applied(wanted, now).targets.len() <= task.config.max_live_target_generations
        },
{
    let base = task.config.client;
    if update_accepted(task, wanted, checks) {
        assert forall|i: int, j: int| 0 <= i < j < wanted.len() implies (#[trigger] wanted[i]).id
            != (#[trigger] wanted[j]).id by {
            assert(!refused(base, wanted, checks, j));
            assert(!repeated(wanted, j));
        }
        assert forall|i: int| 0 <= i < wanted.len() implies failed_check(
            effective_config(base, #[trigger] wanted[i]),
            checks[i],
        ) is None by {
            assert(!refused(base, wanted, checks, i));
        }
    }
    if (forall|i: int, j: int|
        0 <= i < j < wanted.len() ==> (#[trigger] wanted[i]).id != (#[trigger] wanted[j]).id) && (
    forall|i: int|
        0 <= i < wanted.len() ==> failed_check(
            effective_config(base, #[trigger] wanted[i]),
            checks[i],
        ) is None) {
        assert forall|j: int| 0 <= j < wanted.len() implies !#[trigger] refused(
            base,
            wanted,
            checks,
            j,
        ) by {
            if repeated(wanted, j) {
                let i = choose|i: int| 0 <= i < j && (#[trigger] wanted[i]).id == wanted[j].id;
                assert(wanted[i].id != wanted[j].id);
            }
            assert(failed_check(effective_config(base, wanted[j]), checks[j]) is None);
        }
        assert(acceptable(base, wanted, checks));
    }
}

/// A driver is not constructed without room for events, commands and targets,
/// with more room than can be had, with a final drain that the clock cannot
/// represent, or without a target where it would then finish at once.
pub proof fn law_limits_are_checked(
    config: ManagedClientConfigView,
    count: nat,
    max_commands: usize,
    now: Instant,
)
    ensures
        limits_error(config, count, max_commands, now) is None <==> {
            &&& 0 < config.event_capacity <= usize::MAX / 2
            &&& 0 < config.command_capacity <= max_commands
            &&& 0 < config.max_live_target_generations
            &&& now.nanos + config.final_drain.nanos <= MAX_INSTANT_NANOS
            &&& count <= config.max_live_target_generations
            &&& count > 0 || config.completion == ManagedCompletionPolicy::ExplicitStop
        },
        ({
            let error = limits_error(config, count, max_commands, now);
            &&& error == Some(ManagedConfigError::ZeroEventCapacity) ==> config.event_capacity == 0
            &&& error == Some(ManagedConfigError::ZeroCommandCapacity) ==> config.command_capacity
                == 0
            &&& error == Some(ManagedConfigError::ZeroLiveGenerationLimit)
                ==> config.max_live_target_generations == 0
            &&& error == Some(ManagedConfigError::EmptyInitialTargets) ==> count == 0
            &&& error matches Some(ManagedConfigError::EventCapacityTooLarge {
                configured,
                maximum,
            }) ==> configured == config.event_capacity && maximum == usize::MAX / 2 && configured
                > maximum
            &&& error matches Some(ManagedConfigError::CommandCapacityTooLarge {
                configured,
                maximum,
            }) ==> configured == config.command_capacity && maximum == max_commands && configured
                > maximum
            &&& error matches Some(ManagedConfigError::UnschedulableFinalDrain { duration })
                ==> duration == config.final_drain && now.nanos + duration.nanos
                > MAX_INSTANT_NANOS
            &&& (error matches Some(ManagedConfigError::TooManyTargets { configured, limit })
                && count <= usize::MAX) ==> error->0->TooManyTargets_configured == count
                && error->0->limit == config.max_live_target_generations && count
                > config.max_live_target_generations
        }),
{
}

/// The initial targets are accepted exactly where no identifier is named twice
/// and every configuration passes its checks.
pub proof fn law_initial_targets_are_checked(
    base: ClientConfigView,
    wanted: Seq<TargetConfigView>,
    checks: Seq<TargetChecks>,
    i: int,
)
    requires
        0 <= i < wanted.len() < u64::MAX,
    ensures
        initially_refused(base, wanted, checks, i) <==> {
            ||| exists|j: int| 0 <= j < i && (#[trigger] wanted[j]).id == wanted[i].id
            ||| failed_check(effective_config(base, wanted[i]), checks[i]) is Some
        },
{
}

/// `after` goes on where `before` stood in its rounds, in a list that has come
/// to hold `len` targets: every place is taken in that list, and no round goes
/// over more than it holds.
pub open spec fn rounds_go_on(before: TaskView, after: TaskView, len: nat) -> bool {
    &&& len > 0 ==> {
        &&& after.cursor == before.cursor as int % len as int
        &&& after.timeout_cursor == before.timeout_cursor as int % len as int
        &&& after.send_cursor == before.send_cursor as int % len as int
    }
    &&& len == 0 ==> after.cursor == 0 && after.timeout_cursor == 0 && after.send_cursor == 0
    &&& before.scan_remaining <= len ==> after.scan_remaining == before.scan_remaining
    &&& before.scan_remaining > len ==> after.scan_remaining == len
    &&& before.burst_remaining <= len ==> after.burst_remaining == before.burst_remaining
    &&& before.burst_remaining > len ==> after.burst_remaining == len
    &&& before.stagger_remaining <= len ==> after.stagger_remaining == before.stagger_remaining
    &&& before.stagger_remaining > len ==> after.stagger_remaining == len
}

/// Rounds go on in what is left of the list once targets have left it, be it by
/// an update or because they are done.
pub proof fn law_rounds_go_on_in_a_shorter_list(
    task: TaskView,
    wanted: Seq<TargetConfigView>,
    now: Instant,
    i: int,
)
    requires
        task.targets.len() <= usize::MAX,
    ensures
        0 <= i < task.targets.len() && goes(task.targets[i], wanted) && goes_at_once(
            task.targets[i],
        ) ==> rounds_go_on(
            task,
            task.applied(wanted, now),
            remaining(task.targets, wanted).len(),
        ),
        task.pruned().targets.len() < task.targets.len() ==> rounds_go_on(
            task,
            task.pruned(),
            task.pruned().targets.len(),
        ),
{
    let kept = remaining(task.targets, wanted).len();
    lemma_remaining_len(task.targets, wanted);
    let pruned = task.pruned().targets.len();
    if kept > 0 {
        vstd::arithmetic::div_mod::lemma_mod_bound(task.cursor as int, kept as int);
        vstd::arithmetic::div_mod::lemma_mod_bound(task.timeout_cursor as int, kept as int);
        vstd::arithmetic::div_mod::lemma_mod_bound(task.send_cursor as int, kept as int);
    }
    if 0 < pruned < task.targets.len() {
        vstd::arithmetic::div_mod::lemma_mod_bound(task.cursor as int, pruned as int);
        vstd::arithmetic::div_mod::lemma_mod_bound(task.timeout_cursor as int, pruned as int);
        vstd::arithmetic::div_mod::lemma_mod_bound(task.send_cursor as int, pruned as int);
    }
    if 0 <= i < task.targets.len() && goes(task.targets[i], wanted) && goes_at_once(
        task.targets[i],
    ) {
        lemma_goes(task.targets[i], wanted);
        assert(leaves_now(task.targets[i], wanted));
        assert(some_leave(task.targets, wanted));
    }
}

proof fn lemma_remaining_len(targets: Seq<TargetView>, wanted: Seq<TargetConfigView>)
    ensures
        remaining(targets, wanted).len() <= targets.len(),
    decreases targets.len(),
{
    if targets.len() > 0 {
        lemma_remaining_len(targets.drop_last(), wanted);
    }
}

/// A target takes part in pacing, goes, and has work under way: pacing goes on
/// without it, while it stays in the list.
pub open spec fn leaves_pacing(target: TargetView, wanted: Seq<TargetConfigView>) -> bool {
    target.active && goes(target, wanted) && !goes_at_once(target)
}

/// A send gate that has opened is forgotten exactly where an update takes a
/// target out of pacing that stays in the list.
pub proof fn law_update_forgets_an_open_gate(
    task: TaskView,
    wanted: Seq<TargetConfigView>,
    now: Instant,
)
    requires
        task.send_gate matches Some(gate) && gate.nanos <= now.nanos,
    ensures
        task.applied(wanted, now).send_gate is None <==> exists|i: int|
            0 <= i < task.targets.len() && leaves_pacing(#[trigger] task.targets[i], wanted),
{
    assert forall|i: int| 0 <= i < task.targets.len() implies leaves_pacing(
        #[trigger] task.targets[i],
        wanted,
    ) == (outgoing(task.targets[i], wanted) && !leaves_now(task.targets[i], wanted)
        && task.targets[i].active) by {
        lemma_goes(task.targets[i], wanted);
    }
    if pacing_shrinks(task.targets, wanted) {
        let i = choose|i: int|
            0 <= i < task.targets.len() && outgoing(#[trigger] task.targets[i], wanted)
                && !leaves_now(task.targets[i], wanted) && task.targets[i].active;
        assert(leaves_pacing(task.targets[i], wanted));
    }
    if exists|i: int|
        0 <= i < task.targets.len() && leaves_pacing(#[trigger] task.targets[i], wanted) {
        let i = choose|i: int|
            0 <= i < task.targets.len() && leaves_pacing(#[trigger] task.targets[i], wanted);
        assert(outgoing(task.targets[i], wanted));
    }
}

/// A refusal says what an update was refused for: an identifier named twice, a
/// configuration that fails a check, numbers that do not suffice, or a list
/// that would be too long, and then how long it would be.
pub proof fn law_refusal_names_its_cause(
    task: TaskView,
    wanted: Seq<TargetConfigView>,
    checks: Seq<TargetChecks>,
    error: ManagedCommandApplyError,
    now: Instant,
)
    requires
        update_error(task, wanted, checks, error),
    ensures
        !update_accepted(task, wanted, checks),
        error matches ManagedCommandApplyError::DuplicateTargetId { id } ==> exists|i: int, j: int|
            0 <= i < j < wanted.len() && (#[trigger] wanted[i]).id == id@ && (
            #[trigger] wanted[j]).id == id@,
        error matches ManagedCommandApplyError::InvalidTarget { id, source } ==> exists|i: int|
            0 <= i < wanted.len() && (#[trigger] wanted[i]).id == id@ && failed_check(
                effective_config(task.config.client, wanted[i]),
                checks[i],
            ) is Some,
        error is GenerationExhausted ==> task.next_generation + task.added(wanted).len() > u64::MAX,
        error is CommandSequenceExhausted ==> task.applied_command_sequence == u64::MAX,
        error matches ManagedCommandApplyError::LiveGenerationLimitExceeded { required, limit } ==> {
            let live = task.applied(wanted, now).targets.len();
            &&& limit == task.config.max_live_target_generations
            &&& live > limit
            &&& live <= usize::MAX ==> required == live
            &&& live > usize::MAX ==> required == usize::MAX
        },
        !(error is Stopping) && !(error is AcknowledgementDisconnected) && !(error is DriverFailed),
{
    let base = task.config.client;
    match error {
        ManagedCommandApplyError::DuplicateTargetId { id } => {
            let j = choose|j: int|
                {
                    &&& #[trigger] first_refused(base, wanted, checks, j)
                    &&& repeated(wanted, j)
                    &&& id@ == wanted[j].id
                };
            let i = choose|i: int| 0 <= i < j && (#[trigger] wanted[i]).id == wanted[j].id;
            assert(wanted[i].id == id@ && wanted[j].id == id@);
            assert(refused(base, wanted, checks, j));
        },
        ManagedCommandApplyError::InvalidTarget { id, source } => {
            let i = choose|i: int|
                {
                    &&& #[trigger] first_refused(base, wanted, checks, i)
                    &&& !repeated(wanted, i)
                    &&& id@ == wanted[i].id
                    &&& check_error(
                        failed_check(effective_config(base, wanted[i]), checks[i])->0,
                        checks[i],
                        source,
                    )
                };
            assert(refused(base, wanted, checks, i));
            assert(wanted[i].id == id@);
        },
        _ => {},
    }
}

/// Initial targets are refused for an identifier named twice, a configuration
/// that fails a check, or more targets than there are generations, and the
/// error says which target it is.
pub proof fn law_initial_refusal_names_its_cause(
    base: ClientConfigView,
    wanted: Seq<TargetConfigView>,
    checks: Seq<TargetChecks>,
    error: ManagedConfigError,
)
    requires
        targets_error(base, wanted, checks, error),
    ensures
        error is DuplicateTargetId || error is InvalidTarget || error is GenerationExhausted,
        error matches ManagedConfigError::DuplicateTargetId { id } ==> exists|i: int, j: int|
            0 <= i < j < wanted.len() && (#[trigger] wanted[i]).id == id@ && (
            #[trigger] wanted[j]).id == id@,
        error matches ManagedConfigError::InvalidTarget { id, source } ==> exists|i: int|
            0 <= i < wanted.len() && (#[trigger] wanted[i]).id == id@ && failed_check(
                effective_config(base, wanted[i]),
                checks[i],
            ) is Some,
        error is GenerationExhausted ==> wanted.len() + 1 > u64::MAX,
{
    match error {
        ManagedConfigError::DuplicateTargetId { id } => {
            let j = choose|j: int|
                {
                    &&& #[trigger] first_initially_refused(base, wanted, checks, j)
                    &&& repeated(wanted, j)
                    &&& id@ == wanted[j].id
                };
            let i = choose|i: int| 0 <= i < j && (#[trigger] wanted[i]).id == wanted[j].id;
            assert(wanted[i].id == id@ && wanted[j].id == id@);
        },
        ManagedConfigError::InvalidTarget { id, source } => {
            let i = choose|i: int|
                {
                    &&& #[trigger] first_initially_refused(base, wanted, checks, i)
                    &&& !repeated(wanted, i)
                    &&& i + 2 <= u64::MAX
                    &&& id@ == wanted[i].id
                    &&& check_error(
                        failed_check(effective_config(base, wanted[i]), checks[i])->0,
                        checks[i],
                        source,
                    )
                };
            assert(wanted[i].id == id@);
        },
        _ => {},
    }
}

} // verus!
