//! What holds of the list of targets of a group: who joins, who leaves, whose
//! datagram it is, and until when the scheduler may wait.
use vstd::prelude::*;

use crate::config::{ClientConfigView, SocketConfig};
use crate::counting::{capped_sum, lemma_filter_empty, lemma_filter_last};
use crate::error::ClientError;
use crate::group::cadence_laws::law_earliest_is_the_first;
use crate::group::drain::ReceiverDrainState;
use crate::group::model::{ConfigView, ManagedGroupCompletionPolicy, OutcomeView};
use crate::group::pacing::PacingView;
use crate::group::registry::{
    active_positions, addition_count, addition_fails, changed, clamped_config, config_ids,
    drain_deadline, finished_outcomes, group_additions, group_updated, leaving, lemma_additions_len,
    open_deadline, order_after_refusal, start_refused, starting_targets, staying, unfinished,
    update_listed, update_refused, DatagramStep, GroupView, StartRefusal, UpdateRefusal,
};
use crate::group::schedule::{
    active_deadlines, active_ids, scheduler_next, slot_due, wait_deadline, SchedulerReport,
    SchedulerStage,
};
use crate::group::target::{SessionFacts, TargetStatus, TargetView};
use crate::group::transmit::{
    close_progress, probe_progress, CloseProgress, CloseResult, CloseStage, ProbeProgress,
    ProbeResult, ProbeStage,
};
use crate::group::validate::{
    entry_refused, family_flags_text, negotiation_text, targets_acceptable, targets_refused,
    GroupParams, TargetsRefusal,
};
use crate::net::SocketAddr;
use crate::timing::Instant;

verus! {

/// A target with this identifier is asked for.
pub open spec fn asked_for(wanted: Seq<ConfigView>, id: Seq<char>) -> bool {
    exists|k: int| 0 <= k < wanted.len() && (#[trigger] wanted[k]).id == id
}

/// An update keeps the targets it asks for, and lets go of all others, each in
/// order and as they are.
pub proof fn law_update_parts_the_targets(targets: Seq<TargetView>, wanted: Seq<ConfigView>)
    ensures
        staying(targets, wanted) == targets.filter(
            |target: TargetView| asked_for(wanted, target.id),
        ),
        leaving(targets, wanted) == targets.filter(
            |target: TargetView| !asked_for(wanted, target.id),
        ),
    decreases targets.len(),
{
    let stays = |target: TargetView| asked_for(wanted, target.id);
    let leaves = |target: TargetView| !asked_for(wanted, target.id);
    reveal(Seq::filter);
    if targets.len() > 0 {
        law_update_parts_the_targets(targets.drop_last(), wanted);
    }
    assert(staying(targets, wanted) =~= targets.filter(stays));
    assert(leaving(targets, wanted) =~= targets.filter(leaves));
}

/// A target with this identifier is in the list.
pub open spec fn listed(targets: Seq<TargetView>, id: Seq<char>) -> bool {
    exists|k: int| 0 <= k < targets.len() && (#[trigger] targets[k]).id == id
}

/// An update adds the targets it asks for that are not in the list, in order,
/// each as configured, with its own session, numbered on, and to open now.
pub proof fn law_update_adds_who_is_missing(
    targets: Seq<TargetView>,
    wanted: Seq<ConfigView>,
    sessions: Seq<Result<SessionFacts, ClientError>>,
    next_order: u64,
    now: Instant,
    i: int,
)
    requires
        sessions.len() == wanted.len(),
        0 <= i < wanted.len(),
        next_order + addition_count(targets, wanted, wanted.len() as int) <= u64::MAX,
    ensures
        ({
            let added = group_additions(targets, wanted, sessions, next_order, now);
            let place = addition_count(targets, wanted, i);
            &&& added.len() == addition_count(targets, wanted, wanted.len() as int)
            &&& !listed(targets, wanted[i].id) ==> {
                &&& place < added.len()
                &&& added[place as int].id == wanted[i].id
                &&& added[place as int].remote == wanted[i].remote
                &&& added[place as int].auth == wanted[i].auth
                &&& added[place as int].session == sessions[i]->Ok_0
                &&& added[place as int].order == next_order + place
                &&& added[place as int].status == (TargetStatus::Opening {
                    attempt: 0,
                    next_send_at: now,
                    awaiting_receiver_generation: None,
                })
            }
        }),
    decreases wanted.len(),
{
    let rest = wanted.drop_last();
    let added = group_additions(targets, wanted, sessions, next_order, now);
    let before = group_additions(targets, rest, sessions.drop_last(), next_order, now);
    lemma_additions_len(targets, wanted, sessions, next_order, now);
    lemma_additions_len(targets, rest, sessions.drop_last(), next_order, now);
    lemma_counted_prefix(targets, wanted, rest.len() as int);
    if i < rest.len() {
        assert(rest[i] == wanted[i]);
        lemma_counted_prefix(targets, wanted, i);
        law_update_adds_who_is_missing(targets, rest, sessions.drop_last(), next_order, now, i);
        if !listed(targets, wanted[i].id) {
            let place = addition_count(targets, wanted, i) as int;
            assert(added[place] == before[place]);
        }
    }
}

proof fn lemma_counted_prefix(targets: Seq<TargetView>, wanted: Seq<ConfigView>, upto: int)
    requires
        0 <= upto < wanted.len(),
    ensures
        addition_count(targets, wanted.drop_last(), upto) == addition_count(targets, wanted, upto),
    decreases upto,
{
    if upto > 0 {
        lemma_counted_prefix(targets, wanted, upto - 1);
        assert(wanted.drop_last()[upto - 1] == wanted[upto - 1]);
    }
}

/// After an update the desired set is what was asked for, and the targets that
/// stay stand before those that join. The outcomes, the cadence and the drains
/// are as they were.
pub proof fn law_update_sets_what_is_desired(
    group: GroupView,
    wanted: Seq<ConfigView>,
    sessions: Seq<Result<SessionFacts, ClientError>>,
    now: Instant,
)
    requires
        sessions.len() == wanted.len(),
        group.next_order + addition_count(group.targets, wanted, wanted.len() as int) <= u64::MAX,
    ensures
        ({
            let after = group_updated(group, wanted, sessions, now);
            let kept = staying(group.targets, wanted).len() as int;
            &&& after.desired.len() == wanted.len()
            &&& forall|i: int|
                0 <= i < wanted.len() ==> (#[trigger] after.desired[i]) == wanted[i].id
            &&& after.targets.take(kept) == staying(group.targets, wanted)
            &&& after.targets.skip(kept) == group_additions(
                group.targets,
                wanted,
                sessions,
                group.next_order,
                now,
            )
            &&& after.next_order == group.next_order + (after.targets.len() - kept)
            &&& after.records == group.records
            &&& after.drain == group.drain
            &&& after.outbox == group.outbox
            &&& after.client == group.client
        }),
{
    let after = group_updated(group, wanted, sessions, now);
    let kept = staying(group.targets, wanted);
    let added = group_additions(group.targets, wanted, sessions, group.next_order, now);
    lemma_additions_len(group.targets, wanted, sessions, group.next_order, now);
    assert(after.targets.take(kept.len() as int) =~= kept);
    assert(after.targets.skip(kept.len() as int) =~= added);
}

/// An update is refused that names a target twice, two targets at one address,
/// targets of both families, or a listed target under another configuration.
pub proof fn law_update_is_checked(
    group: GroupView,
    wanted: Seq<ConfigView>,
    open_timeouts: Result<(), ClientError>,
)
    ensures
        update_listed(group, wanted, open_timeouts) <==> {
            &&& open_timeouts is Ok
            &&& forall|i: int, j: int|
                0 <= i < j < wanted.len() ==> (#[trigger] wanted[i]).id != (
                #[trigger] wanted[j]).id && wanted[i].remote != wanted[j].remote
            &&& forall|i: int|
                0 <= i < wanted.len() ==> ((#[trigger] wanted[i]).remote is V4) == (
                group.family_remote is V4)
            &&& forall|i: int, k: int|
                0 <= i < wanted.len() && 0 <= k < group.targets.len() && (
                #[trigger] group.targets[k]).id == (#[trigger] wanted[i]).id
                    ==> group.targets[k].remote == wanted[i].remote && group.targets[k].auth
                    == wanted[i].auth
        },
{
    let family = Some(group.family_remote);
    if update_listed(group, wanted, open_timeouts) {
        assert forall|i: int, j: int| 0 <= i < j < wanted.len() implies (#[trigger] wanted[i]).id
            != (#[trigger] wanted[j]).id && wanted[i].remote != wanted[j].remote by {
            assert(!entry_refused(wanted, family, j));
        }
        assert forall|i: int| 0 <= i < wanted.len() implies ((#[trigger] wanted[i]).remote is V4)
            == (group.family_remote is V4) by {
            assert(!entry_refused(wanted, family, i));
        }
        assert forall|i: int, k: int|
            0 <= i < wanted.len() && 0 <= k < group.targets.len() && (
            #[trigger] group.targets[k]).id == (#[trigger] wanted[i]).id implies
            group.targets[k].remote == wanted[i].remote && group.targets[k].auth
            == wanted[i].auth by {
            assert(!changed(group.targets, wanted[i]));
        }
    }
    if open_timeouts is Ok && (forall|i: int, j: int|
        0 <= i < j < wanted.len() ==> (#[trigger] wanted[i]).id != (#[trigger] wanted[j]).id
            && wanted[i].remote != wanted[j].remote) && (forall|i: int|
        0 <= i < wanted.len() ==> ((#[trigger] wanted[i]).remote is V4) == (
        group.family_remote is V4)) && (forall|i: int, k: int|
        0 <= i < wanted.len() && 0 <= k < group.targets.len() && (#[trigger] group.targets[k]).id
            == (#[trigger] wanted[i]).id ==> group.targets[k].remote == wanted[i].remote
            && group.targets[k].auth == wanted[i].auth) {
        assert forall|i: int| 0 <= i < wanted.len() implies !#[trigger] entry_refused(
            wanted,
            family,
            i,
        ) by {
            assert(wanted[i].remote is V4 == group.family_remote is V4);
        }
        assert forall|i: int| 0 <= i < wanted.len() implies !changed(
            group.targets,
            #[trigger] wanted[i],
        ) by {}
    }
}

/// The targets of a group that starts have distinct identifiers and addresses
/// and are of one family, and there is at least one.
pub proof fn law_start_is_checked(configs: Seq<ConfigView>)
    ensures
        targets_acceptable(configs, None) <==> {
            &&& configs.len() > 0
            &&& forall|i: int, j: int|
                0 <= i < j < configs.len() ==> (#[trigger] configs[i]).id != (
                #[trigger] configs[j]).id && configs[i].remote != configs[j].remote
            &&& forall|i: int|
                0 <= i < configs.len() ==> ((#[trigger] configs[i]).remote is V4) == (
                configs[0].remote is V4)
        },
{
    if targets_acceptable(configs, None) {
        assert forall|i: int, j: int| 0 <= i < j < configs.len() implies (#[trigger] configs[i]).id
            != (#[trigger] configs[j]).id && configs[i].remote != configs[j].remote by {
            assert(!entry_refused(configs, None, j));
        }
        assert forall|i: int| 0 <= i < configs.len() implies ((#[trigger] configs[i]).remote is V4)
            == (configs[0].remote is V4) by {
            assert(!entry_refused(configs, None, i));
        }
    }
    if configs.len() > 0 && (forall|i: int, j: int|
        0 <= i < j < configs.len() ==> (#[trigger] configs[i]).id != (#[trigger] configs[j]).id
            && configs[i].remote != configs[j].remote) && (forall|i: int|
        0 <= i < configs.len() ==> ((#[trigger] configs[i]).remote is V4) == (
        configs[0].remote is V4)) {
        assert forall|i: int| 0 <= i < configs.len() implies !#[trigger] entry_refused(
            configs,
            None,
            i,
        ) by {
            assert((configs[i].remote is V4) == (configs[0].remote is V4));
        }
    }
}

/// A group starts with the targets it is given, in order, each as configured
/// and to open now.
pub proof fn law_group_starts_with_its_targets(
    configs: Seq<ConfigView>,
    sessions: Seq<Result<SessionFacts, ClientError>>,
    now: Instant,
    i: int,
)
    requires
        0 <= i < configs.len() <= u64::MAX,
    ensures
        ({
            let targets = starting_targets(configs, sessions, now);
            &&& targets.len() == configs.len()
            &&& targets[i].id == configs[i].id
            &&& targets[i].remote == configs[i].remote
            &&& targets[i].auth == configs[i].auth
            &&& targets[i].session == sessions[i]->Ok_0
            &&& targets[i].order == i
            &&& targets[i].status == (TargetStatus::Opening {
                attempt: 0,
                next_send_at: now,
                awaiting_receiver_generation: None,
            })
            &&& config_ids(configs).len() == configs.len()
            &&& config_ids(configs)[i] == configs[i].id
        }),
{
}

/// The receive timeout of a group is the configured one, and 20 milliseconds
/// where that is longer or there is none. Nothing else of the configuration
/// changes.
pub proof fn law_receive_timeout_is_clamped(client: ClientConfigView)
    ensures
        ({
            let after = clamped_config(client);
            let configured = client.socket_config.recv_timeout;
            &&& after == (ClientConfigView { socket_config: after.socket_config, ..client })
            &&& after.socket_config == (SocketConfig {
                recv_timeout: after.socket_config.recv_timeout,
                ..client.socket_config
            })
            &&& after.socket_config.recv_timeout is Some
            &&& after.socket_config.recv_timeout->0.nanos <= 20_000_000
            &&& configured is Some && configured->0.nanos <= 20_000_000
                ==> after.socket_config.recv_timeout == configured
            &&& configured is None || configured->0.nanos > 20_000_000
                ==> after.socket_config.recv_timeout->0.nanos == 20_000_000
        }),
{
}

/// The targets that have ended leave the list, in order, each with the outcome
/// of the reason it ended for. All others stay as they are.
pub proof fn law_collection_takes_who_has_ended(targets: Seq<TargetView>)
    requires
        forall|i: int|
            0 <= i < targets.len() && (#[trigger] targets[i]).status is Finished
                ==> targets[i].final_reason is Some,
    ensures
        unfinished(targets) == targets.filter(
            |target: TargetView| !(target.status is Finished),
        ),
        finished_outcomes(targets) == targets.filter(
            |target: TargetView| target.status is Finished,
        ).map_values(
            |target: TargetView|
                OutcomeView {
                    id: target.id,
                    remote: target.remote,
                    end_reason: target.final_reason->0,
                    packets_sent: target.session.packets_sent,
                    replies_received: target.counters.replies_received,
                    duplicates: target.counters.duplicates,
                    late: target.counters.late,
                    warning_events: target.counters.warning_events,
                },
        ),
    decreases targets.len(),
{
    let stays = |target: TargetView| !(target.status is Finished);
    let ended = |target: TargetView| target.status is Finished;
    let outcome = |target: TargetView|
        OutcomeView {
            id: target.id,
            remote: target.remote,
            end_reason: target.final_reason->0,
            packets_sent: target.session.packets_sent,
            replies_received: target.counters.replies_received,
            duplicates: target.counters.duplicates,
            late: target.counters.late,
            warning_events: target.counters.warning_events,
        };
    reveal(Seq::filter);
    if targets.len() > 0 {
        let rest = targets.drop_last();
        assert forall|i: int| 0 <= i < rest.len() && (#[trigger] rest[i]).status is Finished implies
            rest[i].final_reason is Some by {
            assert(targets[i] == rest[i]);
        }
        assert(targets[targets.len() - 1].status is Finished ==> targets.last().final_reason
            is Some);
        law_collection_takes_who_has_ended(rest);
        if ended(targets.last()) {
            assert(targets.filter(ended) =~= rest.filter(ended).push(targets.last()));
            assert(targets.filter(ended).map_values(outcome) =~= rest.filter(ended).map_values(
                outcome,
            ).push(outcome(targets.last())));
        } else {
            assert(targets.filter(ended) =~= rest.filter(ended));
        }
    }
    assert(unfinished(targets) =~= targets.filter(stays));
    assert(finished_outcomes(targets) =~= targets.filter(ended).map_values(outcome));
}

/// The history of a group counts every outcome, and each of them once: as
/// successful where the test was done or the peer closed it, as failed where it
/// failed, and as neither where the target was taken out.
pub proof fn law_group_history_counts_every_outcome(group: GroupView, outcomes: Seq<OutcomeView>)
    ensures
        ({
            let before = group.records;
            let after = group.recorded_all(outcomes).records;
            &&& after.total == capped_sum(before.total, outcomes.len())
            &&& after.successful == capped_sum(
                before.successful,
                outcomes.filter(
                    |outcome: OutcomeView|
                        outcome.end_reason is TestComplete || outcome.end_reason is NoTestComplete
                            || outcome.end_reason is PeerClosed,
                ).len(),
            )
            &&& after.failed == capped_sum(
                before.failed,
                outcomes.filter(
                    |outcome: OutcomeView|
                        outcome.end_reason is OpenFailed || outcome.end_reason is Failed,
                ).len(),
            )
            &&& after.peer_closed == capped_sum(
                before.peer_closed,
                outcomes.filter(|outcome: OutcomeView| outcome.end_reason is PeerClosed).len(),
            )
            &&& group.recorded_all(outcomes).peer_closed_target_count == capped_sum(
                group.peer_closed_target_count,
                outcomes.filter(|outcome: OutcomeView| outcome.end_reason is PeerClosed).len(),
            )
        }),
    decreases outcomes.len(),
{
    let successful = |outcome: OutcomeView|
        outcome.end_reason is TestComplete || outcome.end_reason is NoTestComplete
            || outcome.end_reason is PeerClosed;
    let failed = |outcome: OutcomeView|
        outcome.end_reason is OpenFailed || outcome.end_reason is Failed;
    let peer_closed = |outcome: OutcomeView| outcome.end_reason is PeerClosed;
    if outcomes.len() == 0 {
        assert(outcomes =~= Seq::empty());
        lemma_filter_empty(successful);
        lemma_filter_empty(failed);
        lemma_filter_empty(peer_closed);
    } else {
        law_group_history_counts_every_outcome(group, outcomes.drop_last());
        lemma_filter_last(outcomes, successful);
        lemma_filter_last(outcomes, failed);
        lemma_filter_last(outcomes, peer_closed);
    }
}

/// The history of a group retains the last 256 outcomes, oldest first, and
/// counts the others as discarded.
pub proof fn law_group_history_retains_most_recent(group: GroupView, outcomes: Seq<OutcomeView>)
    requires
        group.records.recent.len() <= 256,
    ensures
        ({
            let all = group.records.recent + outcomes;
            let after = group.recorded_all(outcomes).records;
            &&& after.recent == (if all.len() <= 256 {
                all
            } else {
                all.skip(all.len() - 256)
            })
            &&& after.discarded == capped_sum(
                group.records.discarded,
                (all.len() - after.recent.len()) as nat,
            )
        }),
    decreases outcomes.len(),
{
    let all = group.records.recent + outcomes;
    if outcomes.len() == 0 {
        assert(all =~= group.records.recent);
    } else {
        let rest = outcomes.drop_last();
        law_group_history_retains_most_recent(group, rest);
        let before = group.records.recent + rest;
        assert(all =~= before.push(outcomes.last()));
        let after = group.recorded_all(outcomes).records;
        if all.len() > 256 {
            assert(after.recent =~= all.skip(all.len() - 256));
        }
    }
}

/// The active targets are all that are active, in the order of the list.
pub proof fn law_active_targets_are_found(targets: Seq<TargetView>)
    requires
        targets.len() <= usize::MAX,
    ensures
        ({
            let active = active_positions(targets);
            &&& active.len() == targets.filter(|target: TargetView| target.status is Active).len()
            &&& forall|k: int|
                0 <= k < active.len() ==> (#[trigger] active[k]) < targets.len()
                    && targets[active[k] as int].status is Active
            &&& forall|k: int, l: int|
                0 <= k < l < active.len() ==> #[trigger] active[k] < #[trigger] active[l]
            &&& forall|i: int|
                0 <= i < targets.len() && (#[trigger] targets[i]).status is Active
                    ==> active.contains(i as usize)
        }),
    decreases targets.len(),
{
    let is_active = |target: TargetView| target.status is Active;
    if targets.len() == 0 {
        assert(targets =~= Seq::empty());
        lemma_filter_empty(is_active);
    } else {
        let rest = targets.drop_last();
        law_active_targets_are_found(rest);
        lemma_filter_last(targets, is_active);
        let before = active_positions(rest);
        let active = active_positions(targets);
        assert forall|k: int| 0 <= k < active.len() implies (#[trigger] active[k]) < targets.len()
            && targets[active[k] as int].status is Active by {
            if k < before.len() {
                assert(active[k] == before[k]);
                assert(rest[before[k] as int] == targets[before[k] as int]);
            }
        }
        assert forall|i: int| 0 <= i < targets.len() && (
        #[trigger] targets[i]).status is Active implies active.contains(i as usize) by {
            if i < rest.len() {
                assert(rest[i] == targets[i]);
                let k = choose|k: int| 0 <= k < before.len() && before[k] == i as usize;
                assert(active[k] == i as usize);
            } else {
                assert(active[active.len() - 1] == i as usize);
            }
        }
    }
}

/// The cadence is set up for the active targets, by their identifiers and by
/// when each of them may send.
pub proof fn law_cadence_follows_the_active_targets(group: GroupView, k: int)
    requires
        0 <= k < active_positions(group.targets).len(),
    ensures
        ({
            let index = active_positions(group.targets)[k] as int;
            &&& active_ids(group).len() == active_positions(group.targets).len()
            &&& active_deadlines(group).len() == active_positions(group.targets).len()
            &&& active_ids(group)[k] == group.targets[index].id
            &&& active_deadlines(group)[k] == group.targets[index].send_deadline()
        }),
{
}

/// Something of the target is due at `at` besides its sends: an open request
/// that no drain holds up, or the end of its drain.
pub open spec fn group_awaits(target: TargetView, at: Instant) -> bool {
    ||| target.status matches TargetStatus::Opening {
        next_send_at,
        awaiting_receiver_generation: None,
        ..
    } && next_send_at == at
    ||| target.status == (TargetStatus::Draining { deadline: at })
}

/// The scheduler sleeps past nothing, and wakes for a cause: at an open request
/// or the end of a drain, or at the next slot of the cadence where there is an
/// active target to use it.
pub proof fn law_scheduler_wakes_for_everything_due(group: GroupView, pacing: PacingView)
    ensures
        ({
            let wakeup = wait_deadline(group, pacing);
            let active = exists|i: int|
                0 <= i < group.targets.len() && (#[trigger] group.targets[i]).status is Active;
            &&& forall|i: int, at: Instant|
                0 <= i < group.targets.len() && #[trigger] group_awaits(group.targets[i], at)
                    ==> wakeup is Some && wakeup->0.nanos <= at.nanos
            &&& active && pacing.wakeup() is Some ==> wakeup is Some && wakeup->0.nanos
                <= pacing.wakeup()->0.nanos
            &&& wakeup is Some ==> {
                ||| exists|i: int|
                    0 <= i < group.targets.len() && group_awaits(
                        #[trigger] group.targets[i],
                        wakeup->0,
                    )
                ||| active && pacing.wakeup() == wakeup
            }
        }),
{
    let targets = group.targets;
    let opens = targets.map_values(|target: TargetView| open_deadline(target));
    let drains = targets.map_values(|target: TargetView| drain_deadline(target));
    law_earliest_is_the_first(opens);
    law_earliest_is_the_first(drains);
    lemma_some_active(targets);
    let wakeup = wait_deadline(group, pacing);
    let active = exists|i: int|
        0 <= i < targets.len() && (#[trigger] targets[i]).status is Active;
    assert forall|i: int, at: Instant|
        0 <= i < targets.len() && #[trigger] group_awaits(targets[i], at) implies wakeup is Some
        && wakeup->0.nanos <= at.nanos by {
        assert(opens[i] == open_deadline(targets[i]));
        assert(drains[i] == drain_deadline(targets[i]));
    }
    if wakeup is Some && !(active && pacing.wakeup() == wakeup) {
        if opens.contains(wakeup) {
            let i = choose|i: int| 0 <= i < opens.len() && opens[i] == wakeup;
            assert(group_awaits(targets[i], wakeup->0));
        } else {
            let i = choose|i: int| 0 <= i < drains.len() && drains[i] == wakeup;
            assert(group_awaits(targets[i], wakeup->0));
        }
    }
}

proof fn lemma_some_active(targets: Seq<TargetView>)
    ensures
        active_positions(targets).len() > 0 <==> exists|i: int|
            0 <= i < targets.len() && (#[trigger] targets[i]).status is Active,
    decreases targets.len(),
{
    if targets.len() > 0 {
        let rest = targets.drop_last();
        lemma_some_active(rest);
        if active_positions(rest).len() > 0 {
            let i = choose|i: int| 0 <= i < rest.len() && (#[trigger] rest[i]).status is Active;
            assert(targets[i] == rest[i]);
        }
        if exists|i: int| 0 <= i < targets.len() && (#[trigger] targets[i]).status is Active {
            let i = choose|i: int|
                0 <= i < targets.len() && (#[trigger] targets[i]).status is Active;
            if i < rest.len() {
                assert(rest[i] == targets[i]);
            }
        }
        if targets.last().status is Active {
            assert(targets[targets.len() - 1].status is Active);
        }
    }
}

/// Sends are made when there is an active target and the slot of the cadence
/// has come.
pub proof fn law_slot_comes_when_it_is_due(group: GroupView, pacing: PacingView, now: Instant)
    ensures
        slot_due(group, pacing, now) <==> {
            &&& exists|i: int|
                0 <= i < group.targets.len() && (#[trigger] group.targets[i]).status is Active
            &&& pacing.wakeup() is Some
            &&& pacing.wakeup()->0.nanos <= now.nanos
        },
{
    lemma_some_active(group.targets);
}

/// A datagram goes to the target at the address it came from, to be inspected
/// while that expects an open reply and processed once its session is open. It
/// is ignored where there is no such target.
pub proof fn law_datagram_goes_to_its_sender(
    group: GroupView,
    source: SocketAddr,
    step: DatagramStep,
    index: int,
)
    requires
        group.wf(),
        group.datagram_step(source, step),
        0 <= index < group.targets.len(),
        group.targets[index].remote == source,
    ensures
        ({
            let target = group.targets[index];
            let open = target.status is Active || target.status is Draining;
            let expects = target.expects_open_reply(group.drain.completed);
            &&& open ==> step == (DatagramStep::Process { index: index as usize })
            &&& !open && expects ==> step == (DatagramStep::Inspect { index: index as usize })
            &&& !open && !expects ==> step is Ignore
        }),
{
    let target = group.targets[index];
    assert forall|j: int| 0 <= j < group.targets.len() && j != index implies (
    #[trigger] group.targets[j]).remote != source by {
        if j < index {
            assert(group.targets[j].remote != group.targets[index].remote);
        } else {
            assert(group.targets[index].remote != group.targets[j].remote);
        }
    }
}

/// A datagram from an address without a target is ignored.
pub proof fn law_stranger_is_ignored(group: GroupView, source: SocketAddr, step: DatagramStep)
    requires
        group.datagram_step(source, step),
        forall|i: int|
            0 <= i < group.targets.len() ==> (#[trigger] group.targets[i]).remote != source,
    ensures
        step is Ignore,
{
}

/// A group completes on its own when it is to, had targets asked for, and none
/// is left.
pub proof fn law_group_completes(group: GroupView)
    ensures
        group.should_complete() <==> {
            &&& group.completion == ManagedGroupCompletionPolicy::AllTargetsComplete
            &&& group.desired.len() > 0
            &&& group.targets.len() == 0
        },
{
}

/// A request joins the drain that is under way, and otherwise starts the next.
pub proof fn law_drain_is_joined_or_started(drain: ReceiverDrainState)
    ensures
        drain.requested != drain.completed ==> drain.joined() == Some(drain),
        drain.requested == drain.completed && drain.requested < u64::MAX ==> (
        drain.joined() matches Some(joined) && joined.requested == drain.requested + 1
            && joined.completed == drain.completed),
        drain.requested == drain.completed && drain.requested == u64::MAX ==> drain.joined()
            is None,
{
}

/// The stages of the scheduler follow one another: control messages, opens,
/// losses, completion, collection, sends, and a wait where no slot was due.
pub proof fn law_scheduler_works_in_order(stage: SchedulerStage, report: SchedulerReport)
    requires
        report.fits(stage),
    ensures
        ({
            let next = scheduler_next(stage, report);
            &&& stage is Control && report == (SchedulerReport::Handled { cancelled: false })
                <==> next is Opens
            &&& stage is Opens <==> next is Timeouts
            &&& stage is Timeouts <==> next is Completion
            &&& stage is Completion <==> next is Collect
            &&& stage is Collect && report == (SchedulerReport::Collected { complete: false })
                <==> next is Sends
            &&& stage is Sends && report == (SchedulerReport::Sent { wait: true }) <==> next is Wait
            &&& next is Control <==> stage is Wait || (stage is Sends && report
                == (SchedulerReport::Sent { wait: false }))
        }),
{
}

/// A probe passes every stage, in order, before it is sent: the session is
/// open, the schedule permits it, it is prepared, both can commit it, there is
/// room for its report, and the commit is fixed.
pub proof fn law_probe_passes_every_stage(stage: ProbeStage)
    requires
        stage != ProbeStage::Commit,
    ensures
        ({
            let progress = probe_progress(stage, ProbeResult::Passed);
            &&& progress is Next
            &&& stage is EnsureOpen <==> progress->stage is Permit
            &&& stage is Permit <==> progress->stage is Prepare
            &&& stage is Prepare <==> progress->stage is PreflightSession
            &&& stage is PreflightSession <==> progress->stage is PreflightSchedule
            &&& stage is PreflightSchedule <==> progress->stage is Reserve
            &&& stage is Reserve <==> progress->stage is Finalize
            &&& stage is Finalize <==> progress->stage is Transmit
            &&& stage is Transmit <==> progress->stage is Commit
        }),
{
}

/// A stage that does not pass ends the attempt: skipped where there is no probe
/// to send, and failed with the error of the stage otherwise.
pub proof fn law_probe_that_does_not_pass_ends(stage: ProbeStage, result: ProbeResult)
    requires
        result.fits(stage),
        !(result is Passed),
    ensures
        ({
            let progress = probe_progress(stage, result);
            &&& progress is Done
            &&& result is Declined <==> progress->attempt is Skipped
            &&& result is Committed <==> progress->attempt is Sent
            &&& result matches ProbeResult::Failed { error }
                ==> progress->attempt->error == error
            &&& result matches ProbeResult::NotSent { error } ==> progress->attempt->error
                == ClientError::Socket(error)
            &&& result is NoRoom ==> progress->attempt->error is AllocationFailed
            &&& result matches ProbeResult::Committed { probe } ==> progress->attempt->probe
                == probe
        }),
{
}

/// A close is prepared, has room for its report, and is sent, in this order,
/// before it is committed.
pub proof fn law_close_passes_every_stage(stage: CloseStage, result: CloseResult)
    requires
        result.fits(stage),
    ensures
        ({
            let progress = close_progress(stage, result);
            &&& result is Passed <==> progress is Next
            &&& result is Passed ==> {
                &&& stage is Prepare <==> progress->stage is Reserve
                &&& stage is Reserve <==> progress->stage is Transmit
                &&& stage is Transmit <==> progress->stage is Commit
            }
            &&& result is Failed ==> progress->attempt is PrepareFailed
            &&& result is NoRoom ==> progress->attempt is ReserveFailed
            &&& result is NotSent ==> progress->attempt is SendFailed
            &&& result is Committed ==> progress->attempt is Sent
        }),
{
}

/// A server may change neither the interval nor the traffic class of a group,
/// and a group holds its targets to the family it is restricted to.
pub proof fn law_group_rules_hold(
    requested: GroupParams,
    negotiated: GroupParams,
    config: SocketConfig,
    remote: SocketAddr,
)
    ensures
        negotiation_text(requested, negotiated) is None <==> negotiated == requested,
        family_flags_text(config, remote) is None <==> !(config.ipv4_only && config.ipv6_only) && (
        config.ipv4_only ==> remote is V4) && (config.ipv6_only ==> remote is V6),
{
}

/// A target with the identifier of `config` is in the group.
pub open spec fn is_in_group(targets: Seq<TargetView>, config: ConfigView) -> bool {
    exists|k: int| 0 <= k < targets.len() && (#[trigger] targets[k]).id == config.id
}

proof fn lemma_additions_are_missing(targets: Seq<TargetView>, wanted: Seq<ConfigView>, upto: int)
    requires
        0 <= upto <= wanted.len(),
    ensures
        addition_count(targets, wanted, upto) == wanted.take(upto).filter(
            |config: ConfigView| !is_in_group(targets, config),
        ).len(),
    decreases upto,
{
    let missing = |config: ConfigView| !is_in_group(targets, config);
    if upto > 0 {
        lemma_additions_are_missing(targets, wanted, upto - 1);
        let part = wanted.take(upto);
        assert(part.drop_last() =~= wanted.take(upto - 1));
        assert(part.last() == wanted[upto - 1]);
        lemma_filter_last(part, missing);
    } else {
        assert(wanted.take(0) =~= Seq::<ConfigView>::empty());
        lemma_filter_empty(missing);
    }
}

/// A refused update uses up the numbers of the targets it would have added
/// before the one it was refused for, and that one's too where its session
/// could not be made. Refused for anything else it uses up none.
pub proof fn law_refused_update_uses_numbers_up(
    group: GroupView,
    wanted: Seq<ConfigView>,
    refusal: UpdateRefusal,
)
    requires
        refusal matches UpdateRefusal::OrderExhausted { index } ==> 0 <= index < wanted.len(),
        refusal matches UpdateRefusal::Session { index } ==> 0 <= index < wanted.len()
            && !is_in_group(group.targets, wanted[index]),
    ensures
        ({
            let missing = |config: ConfigView| !is_in_group(group.targets, config);
            let after = order_after_refusal(group, wanted, refusal);
            &&& refusal matches UpdateRefusal::OrderExhausted { index } ==> {
                let used = wanted.take(index).filter(missing).len();
                group.next_order + used <= u64::MAX ==> after == group.next_order + used
            }
            &&& refusal matches UpdateRefusal::Session { index } ==> {
                let used = wanted.take(index + 1).filter(missing).len();
                group.next_order + used <= u64::MAX ==> after == group.next_order + used
            }
            &&& refusal is OpenTimeouts || refusal is Targets || refusal is Changed ==> after
                == group.next_order
        }),
{
    if let UpdateRefusal::OrderExhausted { index } = refusal {
        lemma_additions_are_missing(group.targets, wanted, index);
    }
    if let UpdateRefusal::Session { index } = refusal {
        lemma_additions_are_missing(group.targets, wanted, index);
        lemma_additions_are_missing(group.targets, wanted, index + 1);
    }
}

/// A list of targets is refused for an identifier or an address that an earlier
/// one has too, or for one of another address family than `family`.
pub open spec fn refused_for(
    wanted: Seq<ConfigView>,
    family: SocketAddr,
    refusal: TargetsRefusal,
) -> bool {
    match refusal {
        TargetsRefusal::DuplicateId { index } => 0 <= index < wanted.len() && exists|j: int|
            0 <= j < index && (#[trigger] wanted[j]).id == wanted[index].id,
        TargetsRefusal::DuplicateRemote { index } => 0 <= index < wanted.len() && exists|j: int|
            0 <= j < index && (#[trigger] wanted[j]).remote == wanted[index].remote,
        TargetsRefusal::MixedFamilies { index } => 0 <= index < wanted.len() && (family is V4) != (
        wanted[index].remote is V4),
        TargetsRefusal::Empty => false,
    }
}

proof fn lemma_refused_for(
    wanted: Seq<ConfigView>,
    expected: Option<SocketAddr>,
    family: SocketAddr,
    refusal: TargetsRefusal,
)
    requires
        wanted.len() > 0,
        targets_refused(wanted, expected, refusal),
        expected == Some(family) || (expected is None && family == wanted[0].remote),
    ensures
        refused_for(wanted, family, refusal),
{
    match refusal {
        TargetsRefusal::DuplicateId { index } => {
            let j = choose|j: int| 0 <= j < index && (#[trigger] wanted[j]).id == wanted[index].id;
            assert(wanted[j].id == wanted[index].id);
        },
        TargetsRefusal::DuplicateRemote { index } => {
            let j = choose|j: int|
                0 <= j < index && (#[trigger] wanted[j]).remote == wanted[index].remote;
            assert(wanted[j].remote == wanted[index].remote);
        },
        TargetsRefusal::MixedFamilies { index } => {
            assert(entry_refused(wanted, expected, index));
        },
        TargetsRefusal::Empty => {},
    }
}

/// A group that does not start says what it was refused for, the first of what
/// there is.
pub proof fn law_start_refusal_names_its_cause(
    client: ClientConfigView,
    configs: Seq<ConfigView>,
    open_timeouts: Result<(), ClientError>,
    requested: Result<GroupParams, ClientError>,
    sessions: Seq<Result<SessionFacts, ClientError>>,
    refusal: StartRefusal,
)
    requires
        start_refused(client, configs, open_timeouts, requested, sessions, refusal),
    ensures
        refusal is Empty <==> configs.len() == 0,
        refusal is OpenTimeouts <==> configs.len() > 0 && open_timeouts is Err,
        refusal is Params <==> configs.len() > 0 && open_timeouts is Ok && requested is Err,
        refusal matches StartRefusal::OpenTimeouts { error } ==> open_timeouts == Err::<(), _>(
            error,
        ),
        refusal matches StartRefusal::Params { error } ==> requested == Err::<GroupParams, _>(
            error,
        ),
        refusal matches StartRefusal::Targets { refusal: inner } ==> refused_for(
            configs,
            configs[0].remote,
            inner,
        ),
        refusal is FamilyFlags ==> {
            let flags = client.socket_config;
            let remote = configs[0].remote;
            flags.ipv4_only && (flags.ipv6_only || remote is V6) || flags.ipv6_only && (
            flags.ipv4_only || remote is V4)
        },
        refusal matches StartRefusal::Session { index } ==> 0 <= index < sessions.len()
            && sessions[index] is Err && forall|j: int|
            0 <= j < index ==> (#[trigger] sessions[j]) is Ok,
{
    if let StartRefusal::Targets { refusal: inner } = refusal {
        lemma_refused_for(configs, None, configs[0].remote, inner);
    }
}

/// An update that is not taken says what it was refused for, the first of what
/// there is.
pub proof fn law_update_refusal_names_its_cause(
    group: GroupView,
    wanted: Seq<ConfigView>,
    open_timeouts: Result<(), ClientError>,
    sessions: Seq<Result<SessionFacts, ClientError>>,
    refusal: UpdateRefusal,
)
    requires
        update_refused(group, wanted, open_timeouts, sessions, refusal),
    ensures
        refusal is OpenTimeouts <==> open_timeouts is Err,
        refusal matches UpdateRefusal::OpenTimeouts { error } ==> open_timeouts == Err::<(), _>(
            error,
        ),
        refusal matches UpdateRefusal::Targets { refusal: inner } ==> refused_for(
            wanted,
            group.family_remote,
            inner,
        ),
        refusal matches UpdateRefusal::Changed { index } ==> 0 <= index < wanted.len() && exists|k: int|
            0 <= k < group.targets.len() && (#[trigger] group.targets[k]).id == wanted[index].id && (
            group.targets[k].remote != wanted[index].remote || group.targets[k].auth
                != wanted[index].auth),
        refusal matches UpdateRefusal::OrderExhausted { index } ==> 0 <= index < wanted.len()
            && !is_in_group(group.targets, wanted[index]) && group.next_order + wanted.take(
            index,
        ).filter(|config: ConfigView| !is_in_group(group.targets, config)).len() >= u64::MAX,
        refusal matches UpdateRefusal::Session { index } ==> 0 <= index < wanted.len()
            && !is_in_group(group.targets, wanted[index]) && sessions[index] is Err && forall|j: int|
            0 <= j < index && !is_in_group(group.targets, #[trigger] wanted[j]) ==> sessions[j]
                is Ok,
{
    match refusal {
        UpdateRefusal::Targets { refusal: inner } => {
            lemma_refused_for(wanted, Some(group.family_remote), group.family_remote, inner);
        },
        UpdateRefusal::Changed { index } => {
            let k = choose|k: int|
                0 <= k < group.targets.len() && (#[trigger] group.targets[k]).id
                    == wanted[index].id && !group.targets[k].same_config(wanted[index]);
            assert(group.targets[k].id == wanted[index].id);
        },
        UpdateRefusal::OrderExhausted { index } => {
            lemma_additions_are_missing(group.targets, wanted, index);
        },
        UpdateRefusal::Session { index } => {
            assert forall|j: int|
                0 <= j < index && !is_in_group(group.targets, #[trigger] wanted[j]) implies sessions[j]
                is Ok by {
                assert(!addition_fails(group.targets, wanted, sessions, group.next_order, j));
            }
        },
        _ => {},
    }
}

} // verus!
