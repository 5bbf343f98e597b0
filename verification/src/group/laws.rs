//! What holds of a group as a whole.
use vstd::prelude::*;

use crate::error::{ClientError, IoError};
use crate::event::ClientEvent;
use crate::group::drain::ReceiverDrainState;
use crate::group::model::{
    law_group_history_survives_eviction, ConfigView, EndReasonView, GroupEventView,
    ManagedGroupCompletionPolicy, ManagedTargetFailureKind, OutcomeView,
};
use crate::group::registry::{
    addition_count, addition_fails, changed, config_ids, drains_registered, finished_outcomes,
    group_additions, group_updated, known, lemma_additions_len, starting_targets, staying,
    unfinished, update_listed, wanted_id, GroupView,
};
use crate::group::target::{
    CloseAttempt, OpenInspection, OpenStep, ProbeAttempt, SessionFacts, TargetStatus, TargetView,
};
use crate::group::validate::{entry_refused, id_repeated, remote_repeated, targets_acceptable};
use crate::timing::{Duration, Instant};

verus! {

/// The targets with which a group starts are distinct, in order, and of one
/// address family.
pub proof fn law_start_is_well_formed(
    group: GroupView,
    configs: Seq<ConfigView>,
    sessions: Seq<Result<SessionFacts, ClientError>>,
    now: Instant,
)
    requires
        targets_acceptable(configs, None),
        configs.len() > 0,
        configs.len() <= u64::MAX,
        group.targets == starting_targets(configs, sessions, now),
        group.desired == config_ids(configs),
        group.next_order == configs.len(),
        group.family_remote == configs[0].remote,
    ensures
        group.wf(),
{
    assert forall|i: int, j: int| 0 <= i < j < group.targets.len() implies (
    #[trigger] group.targets[i]).id != (#[trigger] group.targets[j]).id && group.targets[i].remote
        != group.targets[j].remote && group.targets[i].order < group.targets[j].order by {
        assert(!entry_refused(configs, None, j));
        assert(!id_repeated(configs, j));
        assert(!remote_repeated(configs, j));
        assert(configs[i].id != configs[j].id);
        assert(configs[i].remote != configs[j].remote);
    }
    assert forall|i: int| 0 <= i < group.targets.len() implies (#[trigger] group.targets[i]).order
        < group.next_order && group.desired.contains(group.targets[i].id) && (
    group.targets[i].remote is V4) == (group.family_remote is V4) by {
        assert(group.desired[i] == group.targets[i].id);
        assert(!entry_refused(configs, None, i));
    }
}

proof fn lemma_staying(group: GroupView, targets: Seq<TargetView>, wanted: Seq<ConfigView>)
    requires
        group.wf(),
        targets.len() <= group.targets.len(),
        targets == group.targets.take(targets.len() as int),
    ensures
        ({
            let kept = staying(targets, wanted);
            &&& forall|i: int|
                0 <= i < kept.len() ==> wanted_id(wanted, (#[trigger] kept[i]).id) && exists|k: int|
                    0 <= k < targets.len() && targets[k] == kept[i]
            &&& forall|i: int, j: int|
                0 <= i < j < kept.len() ==> (#[trigger] kept[i]).id != (#[trigger] kept[j]).id
                    && kept[i].remote != kept[j].remote && kept[i].order < kept[j].order
        }),
    decreases targets.len(),
{
    if targets.len() > 0 {
        let rest = targets.drop_last();
        let at = targets.len() - 1;
        assert(rest =~= group.targets.take(at));
        assert(targets.last() == group.targets[at]);
        lemma_staying(group, rest, wanted);
        let before = staying(rest, wanted);
        let kept = staying(targets, wanted);
        assert forall|i: int| 0 <= i < kept.len() implies wanted_id(
            wanted,
            (#[trigger] kept[i]).id,
        ) && exists|k: int| 0 <= k < targets.len() && targets[k] == kept[i] by {
            if i < before.len() {
                assert(kept[i] == before[i]);
                let k = choose|k: int| 0 <= k < rest.len() && rest[k] == before[i];
                assert(targets[k] == kept[i]);
            } else {
                assert(targets[at] == kept[i]);
            }
        }
        assert forall|i: int, j: int| 0 <= i < j < kept.len() implies (#[trigger] kept[i]).id != (
        #[trigger] kept[j]).id && kept[i].remote != kept[j].remote && kept[i].order
            < kept[j].order by {
            assert(kept[i] == before[i]);
            if j < before.len() {
                assert(kept[j] == before[j]);
            } else {
                let k = choose|k: int| 0 <= k < rest.len() && rest[k] == before[i];
                assert(group.targets[k] == kept[i]);
                assert(group.targets[at] == kept[j]);
            }
        }
    }
}

proof fn lemma_group_additions(
    targets: Seq<TargetView>,
    wanted: Seq<ConfigView>,
    sessions: Seq<Result<SessionFacts, ClientError>>,
    next_order: u64,
    now: Instant,
)
    requires
        sessions.len() == wanted.len(),
        next_order + group_additions(targets, wanted, sessions, next_order, now).len() <= u64::MAX,
    ensures
        ({
            let added = group_additions(targets, wanted, sessions, next_order, now);
            &&& forall|k: int|
                0 <= k < added.len() ==> (#[trigger] added[k]).order == next_order + k
            &&& forall|k: int|
                0 <= k < added.len() ==> exists|i: int|
                    0 <= i < wanted.len() && wanted[i].id == (#[trigger] added[k]).id
                        && wanted[i].remote == added[k].remote && !known(
                        targets,
                        #[trigger] wanted[i].id,
                    )
        }),
    decreases wanted.len(),
{
    if wanted.len() > 0 {
        let rest = wanted.drop_last();
        lemma_group_additions(targets, rest, sessions.drop_last(), next_order, now);
        let before = group_additions(targets, rest, sessions.drop_last(), next_order, now);
        let added = group_additions(targets, wanted, sessions, next_order, now);
        assert forall|k: int| 0 <= k < added.len() implies exists|i: int|
            0 <= i < wanted.len() && wanted[i].id == (#[trigger] added[k]).id && wanted[i].remote
                == added[k].remote && !known(targets, #[trigger] wanted[i].id) by {
            if k < before.len() {
                assert(added[k] == before[k]);
                let i = choose|i: int|
                    0 <= i < rest.len() && rest[i].id == before[k].id && rest[i].remote
                        == before[k].remote && !known(targets, #[trigger] rest[i].id);
                assert(wanted[i] == rest[i]);
                assert(!known(targets, wanted[i].id));
            } else {
                let i = wanted.len() - 1;
                assert(!known(targets, wanted[i].id));
            }
        }
        assert forall|k: int| 0 <= k < added.len() implies (#[trigger] added[k]).order == next_order
            + k by {
            if k < before.len() {
                assert(added[k] == before[k]);
            }
        }
    }
}

proof fn lemma_group_additions_distinct(
    targets: Seq<TargetView>,
    wanted: Seq<ConfigView>,
    sessions: Seq<Result<SessionFacts, ClientError>>,
    next_order: u64,
    now: Instant,
)
    requires
        sessions.len() == wanted.len(),
        forall|j: int| 0 <= j < wanted.len() ==> !#[trigger] id_repeated(wanted, j),
        forall|j: int| 0 <= j < wanted.len() ==> !#[trigger] remote_repeated(wanted, j),
    ensures
        ({
            let added = group_additions(targets, wanted, sessions, next_order, now);
            &&& forall|i: int, j: int|
                0 <= i < j < added.len() ==> (#[trigger] added[i]).id != (#[trigger] added[j]).id
                    && added[i].remote != added[j].remote
            &&& forall|k: int|
                0 <= k < added.len() ==> exists|i: int|
                    0 <= i < wanted.len() && (#[trigger] wanted[i]).id == (#[trigger] added[k]).id
                        && wanted[i].remote == added[k].remote
        }),
    decreases wanted.len(),
{
    if wanted.len() > 0 {
        let rest = wanted.drop_last();
        let at = wanted.len() - 1;
        assert forall|j: int| 0 <= j < rest.len() implies !#[trigger] id_repeated(rest, j) by {
            assert(!id_repeated(wanted, j));
            if id_repeated(rest, j) {
                let k = choose|k: int| 0 <= k < j && (#[trigger] rest[k]).id == rest[j].id;
                assert(wanted[k].id == wanted[j].id);
            }
        }
        assert forall|j: int| 0 <= j < rest.len() implies !#[trigger] remote_repeated(rest, j) by {
            assert(!remote_repeated(wanted, j));
            if remote_repeated(rest, j) {
                let k = choose|k: int| 0 <= k < j && (#[trigger] rest[k]).remote == rest[j].remote;
                assert(wanted[k].remote == wanted[j].remote);
            }
        }
        lemma_group_additions_distinct(targets, rest, sessions.drop_last(), next_order, now);
        let before = group_additions(targets, rest, sessions.drop_last(), next_order, now);
        let added = group_additions(targets, wanted, sessions, next_order, now);
        assert(!id_repeated(wanted, at));
        assert(!remote_repeated(wanted, at));
        assert forall|k: int| 0 <= k < added.len() implies (exists|i: int|
            0 <= i < wanted.len() && (#[trigger] wanted[i]).id == (#[trigger] added[k]).id
                && wanted[i].remote == added[k].remote) && (k < before.len() ==> added[k].id
            != wanted[at].id && added[k].remote != wanted[at].remote) by {
            if k < before.len() {
                assert(added[k] == before[k]);
                let i = choose|i: int|
                    0 <= i < rest.len() && (#[trigger] rest[i]).id == before[k].id && rest[i].remote
                        == before[k].remote;
                assert(wanted[i] == rest[i]);
                assert(wanted[i].id != wanted[at].id);
                assert(wanted[i].remote != wanted[at].remote);
            } else {
                assert(wanted[at].id == added[k].id);
            }
        }
    }
}

/// An accepted update keeps the targets distinct, in order, of one address
/// family and within the desired set.
pub proof fn law_update_keeps_group_well_formed(
    group: GroupView,
    wanted: Seq<ConfigView>,
    open_timeouts: Result<(), ClientError>,
    sessions: Seq<Result<SessionFacts, ClientError>>,
    now: Instant,
)
    requires
        group.wf(),
        sessions.len() == wanted.len(),
        update_listed(group, wanted, open_timeouts),
        forall|j: int|
            0 <= j < wanted.len() ==> !#[trigger] addition_fails(
                group.targets,
                wanted,
                sessions,
                group.next_order,
                j,
            ),
    ensures
        group_updated(group, wanted, sessions, now).wf(),
{
    let kept = staying(group.targets, wanted);
    let added = group_additions(group.targets, wanted, sessions, group.next_order, now);
    let after = group_updated(group, wanted, sessions, now);
    assert(group.targets =~= group.targets.take(group.targets.len() as int));
    lemma_staying(group, group.targets, wanted);
    lemma_additions_len(group.targets, wanted, sessions, group.next_order, now);
    lemma_order_fits(group.targets, wanted, sessions, group.next_order, wanted.len() as int);
    lemma_group_additions(group.targets, wanted, sessions, group.next_order, now);
    assert forall|j: int| 0 <= j < wanted.len() implies !#[trigger] id_repeated(wanted, j) by {
        assert(!entry_refused(wanted, Some(group.family_remote), j));
    }
    assert forall|j: int| 0 <= j < wanted.len() implies !#[trigger] remote_repeated(wanted, j) by {
        assert(!entry_refused(wanted, Some(group.family_remote), j));
    }
    lemma_group_additions_distinct(group.targets, wanted, sessions, group.next_order, now);
    let all = after.targets;
    assert(all == kept + added);
    assert forall|i: int, j: int| 0 <= i < j < all.len() implies (#[trigger] all[i]).id != (
    #[trigger] all[j]).id && all[i].remote != all[j].remote && all[i].order < all[j].order by {
        if j < kept.len() {
            assert(all[i] == kept[i] && all[j] == kept[j]);
        } else if i >= kept.len() {
            assert(all[i] == added[i - kept.len()] && all[j] == added[j - kept.len()]);
        } else {
            let k = j - kept.len();
            assert(all[i] == kept[i] && all[j] == added[k]);
            let old = choose|old: int|
                0 <= old < group.targets.len() && group.targets[old] == kept[i];
            let new = choose|new: int|
                0 <= new < wanted.len() && wanted[new].id == added[k].id && wanted[new].remote
                    == added[k].remote && !known(group.targets, #[trigger] wanted[new].id);
            assert(known(group.targets, group.targets[old].id));
            assert(kept[i].id != added[k].id);
            assert(wanted_id(wanted, kept[i].id));
            let same = choose|same: int|
                0 <= same < wanted.len() && (#[trigger] wanted[same]).id == kept[i].id;
            assert(!changed(group.targets, wanted[same]));
            assert(group.targets[old].same_config(wanted[same]));
            assert(same != new);
            if same < new {
                assert(!remote_repeated(wanted, new));
                assert(wanted[same].remote != wanted[new].remote);
            } else {
                assert(!remote_repeated(wanted, same));
                assert(wanted[new].remote != wanted[same].remote);
            }
        }
    }
    assert forall|i: int| 0 <= i < all.len() implies (#[trigger] all[i]).order < after.next_order
        && after.desired.contains(all[i].id) && (all[i].remote is V4) == (after.family_remote
        is V4) by {
        if i < kept.len() {
            assert(all[i] == kept[i]);
            let k = choose|k: int| 0 <= k < group.targets.len() && group.targets[k] == kept[i];
            assert(wanted_id(wanted, kept[i].id));
            let w = choose|w: int| 0 <= w < wanted.len() && (#[trigger] wanted[w]).id == kept[i].id;
            assert(after.desired[w] == all[i].id);
        } else {
            let k = i - kept.len();
            assert(all[i] == added[k]);
            let w = choose|w: int|
                0 <= w < wanted.len() && (#[trigger] wanted[w]).id == added[k].id
                    && wanted[w].remote == added[k].remote;
            assert(after.desired[w] == all[i].id);
            assert(!entry_refused(wanted, Some(group.family_remote), w));
        }
    }
}

/// The order of joining does not run out before an addition fails for it.
pub proof fn lemma_order_fits(
    targets: Seq<TargetView>,
    wanted: Seq<ConfigView>,
    sessions: Seq<Result<SessionFacts, ClientError>>,
    next_order: u64,
    upto: int,
)
    requires
        0 <= upto <= wanted.len(),
        forall|j: int|
            0 <= j < upto ==> !#[trigger] addition_fails(
                targets,
                wanted,
                sessions,
                next_order,
                j,
            ),
    ensures
        next_order + addition_count(targets, wanted, upto) <= u64::MAX,
    decreases upto,
{
    if upto > 0 {
        lemma_order_fits(targets, wanted, sessions, next_order, upto - 1);
        assert(!addition_fails(targets, wanted, sessions, next_order, upto - 1));
    }
}

/// A target that stays in the desired set goes on as it is.
pub proof fn law_unchanged_target_is_not_restarted(
    group: GroupView,
    wanted: Seq<ConfigView>,
    sessions: Seq<Result<SessionFacts, ClientError>>,
    now: Instant,
    index: int,
)
    requires
        0 <= index < group.targets.len(),
        wanted_id(wanted, group.targets[index].id),
    ensures
        group_updated(group, wanted, sessions, now).targets.contains(group.targets[index]),
{
    lemma_stays(group.targets, wanted, index);
    let kept = staying(group.targets, wanted);
    let i = choose|i: int| 0 <= i < kept.len() && kept[i] == group.targets[index];
    assert(group_updated(group, wanted, sessions, now).targets[i] == group.targets[index]);
}

proof fn lemma_stays(targets: Seq<TargetView>, wanted: Seq<ConfigView>, index: int)
    requires
        0 <= index < targets.len(),
        wanted_id(wanted, targets[index].id),
    ensures
        staying(targets, wanted).contains(targets[index]),
    decreases targets.len(),
{
    let rest = targets.drop_last();
    let kept = staying(targets, wanted);
    if index == targets.len() - 1 {
        assert(kept.last() == targets[index]);
    } else {
        lemma_stays(rest, wanted, index);
        let before = staying(rest, wanted);
        let i = choose|i: int| 0 <= i < before.len() && before[i] == rest[index];
        assert(kept[i] == targets[index]);
    }
}

/// A group without desired targets stays alive and idle, and one that is to be
/// cancelled explicitly never completes on its own.
pub proof fn law_idle_group_stays_alive(group: GroupView)
    ensures
        group.desired.len() == 0 ==> !group.should_complete(),
        group.completion == ManagedGroupCompletionPolicy::ExplicitCancellation
            ==> !group.should_complete(),
        group.targets.len() > 0 ==> !group.should_complete(),
{
}

/// Every outcome is published, in order and exactly once, whether or not it is
/// still retained, and the peer-close count follows the outcomes alone.
pub proof fn law_every_outcome_is_published(group: GroupView, outcomes: Seq<OutcomeView>)
    ensures
        ({
            let after = group.recorded_all(outcomes);
            &&& after.outbox == group.outbox + outcomes.map_values(
                |outcome: OutcomeView| GroupEventView::TargetFinished { outcome },
            )
            &&& after.targets == group.targets
            &&& after.peer_closed_target_count >= group.peer_closed_target_count
            &&& group.peer_closed_target_count == group.records.peer_closed
                ==> after.peer_closed_target_count == after.records.peer_closed
            &&& group.records.consistent() ==> after.records.consistent()
        }),
    decreases outcomes.len(),
{
    let as_event = |outcome: OutcomeView| GroupEventView::TargetFinished { outcome };
    if outcomes.len() == 0 {
        assert(group.outbox + outcomes.map_values(as_event) =~= group.outbox);
    } else {
        let rest = outcomes.drop_last();
        law_every_outcome_is_published(group, rest);
        let before = group.recorded_all(rest);
        if before.records.consistent() {
            law_group_history_survives_eviction(before.records, outcomes.last());
        }
        assert(outcomes.map_values(as_event) =~= rest.map_values(as_event).push(
            as_event(outcomes.last()),
        ));
        assert(group.outbox + outcomes.map_values(as_event) =~= before.outbox.push(
            as_event(outcomes.last()),
        ));
    }
}

/// Every target that has ended yields one outcome and leaves the group; all
/// others stay.
pub proof fn law_collection_partitions_targets(targets: Seq<TargetView>)
    ensures
        unfinished(targets).len() + finished_outcomes(targets).len() == targets.len(),
        forall|i: int|
            0 <= i < unfinished(targets).len() ==> !((#[trigger] unfinished(targets)[i]).status
                is Finished),
    decreases targets.len(),
{
    if targets.len() > 0 {
        law_collection_partitions_targets(targets.drop_last());
    }
}

/// All open attempts that expire together wait for one drain, which is not
/// completed when they are registered.
pub proof fn law_expired_attempts_share_one_drain(
    targets: Seq<TargetView>,
    drain: ReceiverDrainState,
    now: Instant,
)
    requires
        drain.wf(),
        drain.joined() is Some,
    ensures
        ({
            let (after, state) = drains_registered(targets, drain, now);
            &&& after.len() == targets.len()
            &&& state.wf()
            &&& state == drain || state == drain.joined()->0
            &&& state.joined() is Some
            &&& forall|i: int|
                0 <= i < targets.len() && (#[trigger] targets[i]).awaits_drain(now) ==> {
                    &&& state == drain.joined()->0
                    &&& after[i].status matches TargetStatus::Opening {
                        awaiting_receiver_generation: Some(generation),
                        ..
                    } && generation == state.requested && generation > state.completed
                }
            &&& forall|i: int|
                0 <= i < targets.len() && !(#[trigger] targets[i]).awaits_drain(now) ==> after[i]
                    == targets[i]
        }),
    decreases targets.len(),
{
    if targets.len() > 0 {
        let rest = targets.drop_last();
        law_expired_attempts_share_one_drain(rest, drain, now);
        let (before, middle) = drains_registered(rest, drain, now);
        let (after, state) = drains_registered(targets, drain, now);
        assert forall|i: int| 0 <= i < rest.len() implies after[i] == before[i] && rest[i]
            == #[trigger] targets[i] by {}
        assert(forall|i: int| 0 <= i < rest.len() ==> (#[trigger] rest[i]) == targets[i]);
    }
}

/// A reply can open a target only while an attempt stands: not before the first
/// request, and not once the drain that gave the attempt up is completed.
pub proof fn law_reply_needs_standing_attempt(target: TargetView, completed: u64)
    ensures
        target.status matches TargetStatus::Opening { attempt: 0, .. }
            ==> !target.expects_open_reply(completed),
        (target.status matches TargetStatus::Opening {
            awaiting_receiver_generation: Some(generation),
            ..
        } && completed >= generation) ==> !target.expects_open_reply(completed),
{
}

/// An attempt that has expired is followed by another one, or by the failure to
/// open, only after the receiver has found its queue empty.
pub proof fn law_retry_waits_for_drain(
    target: TargetView,
    completed: u64,
    now: Instant,
    sent_at: Instant,
    timeouts: Seq<Duration>,
)
    requires
        target.final_reason is None,
        target.status matches TargetStatus::Opening { attempt, .. } && attempt > 0,
    ensures
        ({
            let (after, step) = target.open_stepped(completed, now, sent_at, timeouts);
            let waiting = target.status->awaiting_receiver_generation;
            &&& waiting is None ==> step == OpenStep::Wait && after == target
            &&& (waiting matches Some(generation) && completed < generation) ==> step
                == OpenStep::Wait && after == target
            &&& step is Failed && target.status->attempt >= timeouts.len() ==> {
                &&& after.final_reason matches Some(EndReasonView::OpenFailed(failure))
                    && failure.kind == ManagedTargetFailureKind::OpeningTimeout
            }
        }),
{
}

/// Both are the same target, whatever became of it.
pub open spec fn same_target(first: TargetView, second: TargetView) -> bool {
    first.id == second.id && first.remote == second.remote && first.order == second.order
}

/// Nothing that happens to a target changes which target it is.
pub proof fn law_target_keeps_its_identity(
    target: TargetView,
    inspection: OpenInspection,
    result: Result<Vec<ClientEvent>, ClientError>,
    session: SessionFacts,
    sent: Result<(), IoError>,
    reason: EndReasonView,
    close: Option<CloseAttempt>,
    probe: ProbeAttempt,
    timeouts: Seq<Duration>,
    completed: u64,
    now: Instant,
    sent_at: Instant,
    final_drain: u128,
)
    ensures
        same_target(target, target.marked(reason)),
        same_target(target, target.inspected(inspection)),
        same_target(target, target.processed(result, session)),
        same_target(target, target.open_stepped(completed, now, sent_at, timeouts).0),
        same_target(target, target.open_sent(sent_at, sent)),
        same_target(target, target.expired(result, session)),
        same_target(target, target.completion(now, final_drain).0),
        same_target(target, target.closed(reason, close).0),
        same_target(target, target.probed(probe).0),
{
}

/// A step of one target keeps the group well formed and leaves all other
/// targets alone.
pub proof fn law_target_step_keeps_group_well_formed(
    group: GroupView,
    index: int,
    after: TargetView,
    events: Seq<GroupEventView>,
)
    requires
        group.wf(),
        0 <= index < group.targets.len(),
        same_target(group.targets[index], after),
    ensures
        ({
            let stepped = group.with_target(index, after).reporting(events);
            &&& stepped.wf()
            &&& forall|j: int|
                0 <= j < group.targets.len() && j != index ==> (#[trigger] stepped.targets[j])
                    == group.targets[j]
        }),
{
    let stepped = group.with_target(index, after).reporting(events);
    assert forall|i: int| 0 <= i < stepped.targets.len() implies same_target(
        group.targets[i],
        #[trigger] stepped.targets[i],
    ) by {}
    lemma_same_targets_keep_wf(group, stepped);
}

proof fn lemma_same_targets_keep_wf(group: GroupView, after: GroupView)
    requires
        group.wf(),
        after.targets.len() == group.targets.len(),
        after.desired == group.desired,
        after.next_order == group.next_order,
        after.family_remote == group.family_remote,
        forall|i: int|
            0 <= i < group.targets.len() ==> same_target(
                group.targets[i],
                #[trigger] after.targets[i],
            ),
    ensures
        after.wf(),
{
    assert forall|i: int, j: int| 0 <= i < j < after.targets.len() implies (
    #[trigger] after.targets[i]).id != (#[trigger] after.targets[j]).id && after.targets[i].remote
        != after.targets[j].remote && after.targets[i].order < after.targets[j].order by {
        assert(same_target(group.targets[i], after.targets[i]));
        assert(same_target(group.targets[j], after.targets[j]));
    }
    assert forall|i: int| 0 <= i < after.targets.len() implies (#[trigger] after.targets[i]).order
        < after.next_order && after.desired.contains(after.targets[i].id) && (
    after.targets[i].remote is V4) == (after.family_remote is V4) by {
        assert(same_target(group.targets[i], after.targets[i]));
    }
}

/// Waiting for a drain and a failure of the socket keep the group well formed.
pub proof fn law_group_steps_keep_well_formed(
    group: GroupView,
    reason: EndReasonView,
    drain: ReceiverDrainState,
    now: Instant,
)
    requires
        group.wf(),
    ensures
        (GroupView {
            targets: drains_registered(group.targets, group.drain, now).0,
            drain: drains_registered(group.targets, group.drain, now).1,
            ..group
        }).wf(),
        (GroupView {
            targets: group.targets.map_values(|target: TargetView| target.marked(reason)),
            ..group
        }).wf(),
        (GroupView { drain, ..group }).wf(),
{
    let (registered, after) = drains_registered(group.targets, group.drain, now);
    lemma_registration_keeps_targets(group.targets, group.drain, now);
    lemma_same_targets_keep_wf(
        group,
        GroupView { targets: registered, drain: after, ..group },
    );
    let failed = group.targets.map_values(|target: TargetView| target.marked(reason));
    assert forall|i: int| 0 <= i < group.targets.len() implies same_target(
        group.targets[i],
        #[trigger] failed[i],
    ) by {}
    lemma_same_targets_keep_wf(group, GroupView { targets: failed, ..group });
}

proof fn lemma_registration_keeps_targets(
    targets: Seq<TargetView>,
    drain: ReceiverDrainState,
    now: Instant,
)
    ensures
        ({
            let after = drains_registered(targets, drain, now).0;
            &&& after.len() == targets.len()
            &&& forall|i: int|
                0 <= i < targets.len() ==> same_target(targets[i], #[trigger] after[i])
        }),
    decreases targets.len(),
{
    if targets.len() > 0 {
        let rest = targets.drop_last();
        lemma_registration_keeps_targets(rest, drain, now);
        let before = drains_registered(rest, drain, now).0;
        let after = drains_registered(targets, drain, now).0;
        assert forall|i: int| 0 <= i < targets.len() implies same_target(
            targets[i],
            #[trigger] after[i],
        ) by {
            if i < rest.len() {
                assert(after[i] == before[i]);
                assert(rest[i] == targets[i]);
            }
        }
    }
}

/// Collecting the targets that have ended keeps the group well formed and
/// leaves none of them behind.
pub proof fn law_collection_keeps_group_well_formed(group: GroupView)
    requires
        group.wf(),
    ensures
        ({
            let after = GroupView {
                targets: unfinished(group.targets),
                ..group.recorded_all(finished_outcomes(group.targets))
            };
            &&& after.wf()
            &&& after.desired == group.desired
        }),
{
    lemma_recording_frame(group, finished_outcomes(group.targets));
    lemma_unfinished_places(group.targets);
    let kept = unfinished(group.targets);
    assert forall|i: int, j: int| 0 <= i < j < kept.len() implies (#[trigger] kept[i]).id != (
    #[trigger] kept[j]).id && kept[i].remote != kept[j].remote && kept[i].order
        < kept[j].order by {
        let a = kept_place(group.targets, i);
        let b = kept_place(group.targets, j);
        assert(group.targets[a] == kept[i]);
        assert(group.targets[b] == kept[j]);
    }
    assert forall|i: int| 0 <= i < kept.len() implies (#[trigger] kept[i]).order < group.next_order
        && group.desired.contains(kept[i].id) && (kept[i].remote is V4) == (
    group.family_remote is V4) by {
        assert(group.targets[kept_place(group.targets, i)] == kept[i]);
    }
}

/// Where the target at `i` of those that have not ended stands in the list.
spec fn kept_place(targets: Seq<TargetView>, i: int) -> int
    decreases targets.len(),
{
    if targets.len() == 0 {
        0
    } else if i < unfinished(targets.drop_last()).len() {
        kept_place(targets.drop_last(), i)
    } else {
        targets.len() - 1
    }
}

proof fn lemma_unfinished_places(targets: Seq<TargetView>)
    ensures
        ({
            let kept = unfinished(targets);
            &&& forall|i: int|
                0 <= i < kept.len() ==> 0 <= #[trigger] kept_place(targets, i) < targets.len()
                    && targets[kept_place(targets, i)] == kept[i]
            &&& forall|i: int, j: int|
                0 <= i < j < kept.len() ==> #[trigger] kept_place(targets, i)
                    < #[trigger] kept_place(targets, j)
        }),
    decreases targets.len(),
{
    if targets.len() > 0 {
        let rest = targets.drop_last();
        lemma_unfinished_places(rest);
        let kept = unfinished(targets);
        let before = unfinished(rest);
        assert forall|i: int| 0 <= i < kept.len() implies 0 <= #[trigger] kept_place(targets, i)
            < targets.len() && targets[kept_place(targets, i)] == kept[i] by {
            if i < before.len() {
                assert(kept[i] == before[i]);
                assert(rest[kept_place(rest, i)] == before[i]);
            }
        }
        assert forall|i: int, j: int| 0 <= i < j < kept.len() implies #[trigger] kept_place(
            targets,
            i,
        ) < #[trigger] kept_place(targets, j) by {
            assert(i < before.len());
            assert(0 <= kept_place(rest, i) < rest.len());
            if j < before.len() {
                assert(kept_place(rest, i) < kept_place(rest, j));
            }
        }
    }
}

proof fn lemma_recording_frame(group: GroupView, outcomes: Seq<OutcomeView>)
    ensures
        ({
            let after = group.recorded_all(outcomes);
            &&& after.targets == group.targets
            &&& after.desired == group.desired
            &&& after.next_order == group.next_order
            &&& after.family_remote == group.family_remote
        }),
    decreases outcomes.len(),
{
    if outcomes.len() > 0 {
        lemma_recording_frame(group, outcomes.drop_last());
    }
}

} // verus!
