//! What holds of updates of the desired target set.
use vstd::prelude::*;

use crate::config::ClientConfigView;
use crate::history::{law_eviction_preserves_aggregates, HistoryView};
use crate::model::{ManagedClientConfigView, OutcomeView, TargetConfigView};
use crate::task::construct::{initial_targets, initially_refused};
use crate::task::drive_view::prunable;
use crate::task::plan::update_accepted;
use crate::task::plan_view::{
    additions, departures, effective_config, names, outgoing, refused, remaining,
    repeated, running, TargetChecks,
};
use crate::task::target::TargetView;
use crate::task::view::TaskView;
use crate::timing::Instant;

verus! {

/// A driver as it is constructed is well formed.
pub proof fn law_construction_is_well_formed(
    config: ManagedClientConfigView,
    wanted: Seq<TargetConfigView>,
    checks: Seq<TargetChecks>,
)
    requires
        wanted.len() <= config.max_live_target_generations,
        forall|i: int|
            0 <= i < wanted.len() ==> !#[trigger] initially_refused(
                config.client,
                wanted,
                checks,
                i,
            ),
    ensures
        TaskView::initial(
            config,
            initial_targets(config.client, wanted),
            (wanted.len() + 1) as u64,
        ).wf(),
{
    let targets = initial_targets(config.client, wanted);
    if wanted.len() > 0 {
        assert(!initially_refused(config.client, wanted, checks, wanted.len() - 1));
    }
    assert forall|i: int, j: int| 0 <= i < j < targets.len() implies (
    #[trigger] targets[i]).instance.generation < (#[trigger] targets[j]).instance.generation
        && targets[i].instance.id != targets[j].instance.id by {
        assert(!initially_refused(config.client, wanted, checks, j));
        assert(!repeated(wanted, j));
        assert(wanted[i].id != wanted[j].id);
    }
}

/// The list that stays keeps increasing generations and distinct desired
/// identifiers.
proof fn lemma_remaining_wf(task: TaskView, targets: Seq<TargetView>, wanted: Seq<TargetConfigView>)
    requires
        task.wf(),
        targets.len() <= task.targets.len(),
        targets == task.targets.take(targets.len() as int),
    ensures
        ({
            let kept = remaining(targets, wanted);
            &&& forall|i: int, j: int|
                0 <= i < j < kept.len() ==> (#[trigger] kept[i]).instance.generation < (
                #[trigger] kept[j]).instance.generation
            &&& forall|i: int|
                0 <= i < kept.len() ==> {
                    let target = #[trigger] kept[i];
                    &&& target.instance.generation < task.next_generation
                    &&& target.instance.id == target.config.id
                    &&& target.desired ==> target.retirement is None && wanted.contains(
                        target.config,
                    ) && running(targets, target.config)
                    &&& target.active ==> target.state is Active
                }
            &&& forall|i: int, j: int|
                0 <= i < j < kept.len() && (#[trigger] kept[i]).desired && (
                #[trigger] kept[j]).desired ==> kept[i].instance.id != kept[j].instance.id
            &&& targets.len() > 0 ==> forall|i: int|
                0 <= i < kept.len() ==> (#[trigger] kept[i]).instance.generation
                    <= targets.last().instance.generation
            &&& forall|i: int|
                0 <= i < kept.len() && (#[trigger] kept[i]).desired ==> exists|k: int|
                    0 <= k < targets.len() && (#[trigger] targets[k]).desired && targets[k].instance
                        == kept[i].instance
        }),
    decreases targets.len(),
{
    if targets.len() > 0 {
        let rest = targets.drop_last();
        let last = targets.last();
        let at = targets.len() - 1;
        assert(rest =~= task.targets.take(at));
        assert(last == task.targets[at]);
        lemma_remaining_wf(task, rest, wanted);
        let before = remaining(rest, wanted);
        let kept = remaining(targets, wanted);
        if rest.len() > 0 {
            assert(rest.last() == task.targets[at - 1]);
            assert(task.targets[at - 1].instance.generation < task.targets[at].instance.generation);
        }
        assert forall|i: int| 0 <= i < kept.len() implies (#[trigger] kept[i]).instance.generation
            <= last.instance.generation && (i < before.len() ==> kept[i] == before[i]
            && kept[i].instance.generation < last.instance.generation) by {
            if i < before.len() {
                assert(before[i].instance.generation <= rest.last().instance.generation);
            }
        }
        assert forall|i: int| 0 <= i < kept.len() && (#[trigger] kept[i]).desired implies exists|
            k: int,
        |
            0 <= k < targets.len() && (#[trigger] targets[k]).desired && targets[k].instance
                == kept[i].instance by {
            if i < before.len() {
                let k = choose|k: int|
                    0 <= k < rest.len() && (#[trigger] rest[k]).desired && rest[k].instance
                        == before[i].instance;
                assert(targets[k] == rest[k]);
            } else {
                assert(targets[at].desired);
            }
        }
        assert forall|i: int| 0 <= i < kept.len() && (#[trigger] kept[i]).desired implies running(
            targets,
            kept[i].config,
        ) by {
            if i < before.len() {
                assert(running(rest, before[i].config));
                let k = choose|k: int|
                    0 <= k < rest.len() && (#[trigger] rest[k]).desired && rest[k].config
                        == before[i].config;
                assert(targets[k] == rest[k]);
            } else {
                assert(targets[at].desired && targets[at].config == kept[i].config);
            }
        }
        assert forall|i: int, j: int|
            0 <= i < j < kept.len() && (#[trigger] kept[i]).desired && (
            #[trigger] kept[j]).desired implies kept[i].instance.id != kept[j].instance.id by {
            if j >= before.len() {
                assert(kept[i] == before[i]);
                let k = choose|k: int|
                    0 <= k < rest.len() && (#[trigger] rest[k]).desired && rest[k].instance
                        == before[i].instance;
                assert(task.targets[k] == rest[k]);
                assert(task.targets[at].desired);
            } else {
                assert(kept[i] == before[i] && kept[j] == before[j]);
            }
        }
    }
}

proof fn lemma_additions(
    targets: Seq<TargetView>,
    wanted: Seq<TargetConfigView>,
    base: ClientConfigView,
    next_generation: u64,
)
    requires
        next_generation + additions(targets, wanted, base, next_generation).len() <= u64::MAX,
    ensures
        ({
            let added = additions(targets, wanted, base, next_generation);
            forall|k: int|
                0 <= k < added.len() ==> {
                    let target = #[trigger] added[k];
                    &&& target.instance.generation == next_generation + k
                    &&& exists|i: int|
                        0 <= i < wanted.len() && target == TargetView::fresh(
                            #[trigger] wanted[i],
                            (next_generation + k) as u64,
                            effective_config(base, wanted[i]),
                        ) && !running(targets, wanted[i])
                }
        }),
    decreases wanted.len(),
{
    if wanted.len() > 0 {
        let rest = wanted.drop_last();
        let before = additions(targets, rest, base, next_generation);
        lemma_additions(targets, rest, base, next_generation);
        let added = additions(targets, wanted, base, next_generation);
        assert forall|k: int| 0 <= k < added.len() implies {
            let target = #[trigger] added[k];
            &&& target.instance.generation == next_generation + k
            &&& exists|i: int|
                0 <= i < wanted.len() && target == TargetView::fresh(
                    #[trigger] wanted[i],
                    (next_generation + k) as u64,
                    effective_config(base, wanted[i]),
                ) && !running(targets, wanted[i])
        } by {
            if k < before.len() {
                assert(added[k] == before[k]);
                let i = choose|i: int|
                    0 <= i < rest.len() && before[k] == TargetView::fresh(
                        #[trigger] rest[i],
                        (next_generation + k) as u64,
                        effective_config(base, rest[i]),
                    ) && !running(targets, rest[i]);
                assert(wanted[i] == rest[i]);
            } else {
                assert(wanted[wanted.len() - 1] == wanted.last());
            }
        }
    }
}

/// Distinct additions come from distinct entries of the desired set.
proof fn lemma_additions_distinct(
    targets: Seq<TargetView>,
    wanted: Seq<TargetConfigView>,
    base: ClientConfigView,
    next_generation: u64,
)
    requires
        forall|j: int| 0 <= j < wanted.len() ==> !#[trigger] repeated(wanted, j),
    ensures
        ({
            let added = additions(targets, wanted, base, next_generation);
            &&& forall|i: int, j: int|
                0 <= i < j < added.len() ==> (#[trigger] added[i]).instance.id != (
                #[trigger] added[j]).instance.id
            &&& forall|i: int|
                0 <= i < added.len() ==> names(wanted, (#[trigger] added[i]).instance.id)
        }),
    decreases wanted.len(),
{
    if wanted.len() > 0 {
        let rest = wanted.drop_last();
        let at = wanted.len() - 1;
        assert forall|j: int| 0 <= j < rest.len() implies !#[trigger] repeated(rest, j) by {
            assert(!repeated(wanted, j));
            if repeated(rest, j) {
                let k = choose|k: int| 0 <= k < j && (#[trigger] rest[k]).id == rest[j].id;
                assert(wanted[k].id == wanted[j].id);
            }
        }
        lemma_additions_distinct(targets, rest, base, next_generation);
        let before = additions(targets, rest, base, next_generation);
        let added = additions(targets, wanted, base, next_generation);
        assert(!repeated(wanted, at));
        assert forall|i: int| 0 <= i < added.len() implies names(
            wanted,
            (#[trigger] added[i]).instance.id,
        ) && (i < before.len() ==> added[i].instance.id != wanted[at].id) by {
            if i < before.len() {
                assert(names(rest, before[i].instance.id));
                let k = choose|k: int|
                    0 <= k < rest.len() && (#[trigger] rest[k]).id == before[i].instance.id;
                assert(wanted[k] == rest[k]);
                if wanted[k].id == wanted[at].id {
                    assert(repeated(wanted, at));
                }
            } else {
                assert(wanted[at].id == added[i].instance.id);
            }
        }
    }
}

proof fn lemma_recorded_all(history: HistoryView, outcomes: Seq<OutcomeView>)
    requires
        history.consistent(),
    ensures
        history.recorded_all(outcomes).consistent(),
        history.recorded_all(outcomes).limit == history.limit,
    decreases outcomes.len(),
{
    if outcomes.len() > 0 {
        lemma_recorded_all(history, outcomes.drop_last());
        law_eviction_preserves_aggregates(
            history.recorded_all(outcomes.drop_last()),
            outcomes.last(),
        );
    }
}

/// An accepted update keeps the driver well formed: generations stay unique and
/// increasing across the whole task, a new target gets one that was never used
/// before, no identifier is desired twice, and no more targets are kept than
/// the limit allows.
pub proof fn law_update_keeps_well_formed(
    task: TaskView,
    wanted: Seq<TargetConfigView>,
    checks: Seq<TargetChecks>,
    now: Instant,
)
    requires
        task.wf(),
        update_accepted(task, wanted, checks),
    ensures
        task.applied(wanted, now).wf(),
        task.applied(wanted, now).next_generation >= task.next_generation,
        task.applied(wanted, now).applied_command_sequence == task.applied_command_sequence + 1,
        task.applied(wanted, now).targets.len() <= task.config.max_live_target_generations,
{
    let kept = remaining(task.targets, wanted);
    let added = task.added(wanted);
    let after = task.applied(wanted, now);
    assert(task.targets =~= task.targets.take(task.targets.len() as int));
    lemma_remaining_wf(task, task.targets, wanted);
    lemma_additions(task.targets, wanted, task.config.client, task.next_generation);
    assert forall|j: int| 0 <= j < wanted.len() implies !#[trigger] repeated(wanted, j) by {
        assert(!refused(task.config.client, wanted, checks, j));
    }
    lemma_additions_distinct(task.targets, wanted, task.config.client, task.next_generation);
    lemma_recorded_all(task.history, departures(task.targets, wanted));
    assert(after.targets == kept + added);
    let all = after.targets;
    assert forall|i: int, j: int| 0 <= i < j < all.len() implies (
    #[trigger] all[i]).instance.generation < (#[trigger] all[j]).instance.generation by {
        if i < kept.len() {
            assert(all[i] == kept[i]);
        } else {
            assert(all[i] == added[i - kept.len()]);
        }
        if j < kept.len() {
            assert(all[j] == kept[j]);
        } else {
            assert(all[j] == added[j - kept.len()]);
        }
    }
    assert forall|i: int| 0 <= i < all.len() implies {
        let target = #[trigger] all[i];
        &&& target.instance.generation < after.next_generation
        &&& target.instance.id == target.config.id
        &&& target.desired ==> target.retirement is None
        &&& target.active ==> target.state is Active
    } by {
        if i < kept.len() {
            assert(all[i] == kept[i]);
        } else {
            assert(all[i] == added[i - kept.len()]);
        }
    }
    assert forall|i: int, j: int|
        0 <= i < j < all.len() && (#[trigger] all[i]).desired && (
        #[trigger] all[j]).desired implies all[i].instance.id != all[j].instance.id by {
        if j < kept.len() {
            assert(all[i] == kept[i] && all[j] == kept[j]);
        } else if i >= kept.len() {
            assert(all[i] == added[i - kept.len()] && all[j] == added[j - kept.len()]);
        } else {
            assert(all[i] == kept[i] && all[j] == added[j - kept.len()]);
            let k = j - kept.len();
            let b = choose|b: int|
                0 <= b < wanted.len() && added[k] == TargetView::fresh(
                    #[trigger] wanted[b],
                    (task.next_generation + k) as u64,
                    effective_config(task.config.client, wanted[b]),
                ) && !running(task.targets, wanted[b]);
            assert(wanted.contains(kept[i].config));
            let a = choose|a: int| 0 <= a < wanted.len() && wanted[a] == kept[i].config;
            if wanted[a].id == wanted[b].id {
                if a < b {
                    assert(!repeated(wanted, b));
                    assert(wanted[a].id != wanted[b].id);
                } else if b < a {
                    assert(!repeated(wanted, a));
                    assert(wanted[b].id != wanted[a].id);
                }
                assert(a == b);
                assert(running(task.targets, kept[i].config));
            }
        }
    }
}

/// A desired target whose configuration stays in the desired set is kept as it
/// is: its session, its generation and its counts are untouched.
pub proof fn law_identical_target_is_preserved(
    task: TaskView,
    wanted: Seq<TargetConfigView>,
    index: int,
    now: Instant,
)
    requires
        0 <= index < task.targets.len(),
        task.targets[index].desired,
        wanted.contains(task.targets[index].config),
    ensures
        task.applied(wanted, now).targets.contains(task.targets[index]),
{
    lemma_remaining_keeps(task.targets, wanted, index);
    let kept = remaining(task.targets, wanted);
    let i = choose|i: int| 0 <= i < kept.len() && kept[i] == task.targets[index];
    assert(task.applied(wanted, now).targets[i] == task.targets[index]);
}

proof fn lemma_remaining_keeps(targets: Seq<TargetView>, wanted: Seq<TargetConfigView>, index: int)
    requires
        0 <= index < targets.len(),
        !outgoing(targets[index], wanted),
    ensures
        remaining(targets, wanted).contains(targets[index]),
    decreases targets.len(),
{
    let rest = targets.drop_last();
    let kept = remaining(targets, wanted);
    if index == targets.len() - 1 {
        assert(kept.last() == targets[index]);
    } else {
        lemma_remaining_keeps(rest, wanted, index);
        let before = remaining(rest, wanted);
        let i = choose|i: int| 0 <= i < before.len() && before[i] == rest[index];
        assert(kept[i] == targets[index]);
    }
}

/// After an accepted update exactly the wanted configurations are desired.
pub proof fn law_desired_set_is_what_was_asked_for(
    task: TaskView,
    wanted: Seq<TargetConfigView>,
    checks: Seq<TargetChecks>,
    now: Instant,
    config: TargetConfigView,
)
    requires
        task.wf(),
        update_accepted(task, wanted, checks),
    ensures
        wanted.contains(config) <==> running(task.applied(wanted, now).targets, config),
{
    let kept = remaining(task.targets, wanted);
    let added = task.added(wanted);
    let all = task.applied(wanted, now).targets;
    assert(all == kept + added);
    assert(task.targets =~= task.targets.take(task.targets.len() as int));
    lemma_remaining_wf(task, task.targets, wanted);
    lemma_additions(task.targets, wanted, task.config.client, task.next_generation);
    if running(all, config) {
        let i = choose|i: int|
            0 <= i < all.len() && (#[trigger] all[i]).desired && all[i].config == config;
        if i < kept.len() {
            assert(all[i] == kept[i]);
        } else {
            let k = i - kept.len();
            assert(all[i] == added[k]);
            let b = choose|b: int|
                0 <= b < wanted.len() && added[k] == TargetView::fresh(
                    #[trigger] wanted[b],
                    (task.next_generation + k) as u64,
                    effective_config(task.config.client, wanted[b]),
                ) && !running(task.targets, wanted[b]);
            assert(wanted[b] == config);
        }
    }
    if wanted.contains(config) {
        if running(task.targets, config) {
            let i = choose|i: int|
                0 <= i < task.targets.len() && (#[trigger] task.targets[i]).desired
                    && task.targets[i].config == config;
            law_identical_target_is_preserved(task, wanted, i, now);
            let j = choose|j: int| 0 <= j < all.len() && all[j] == task.targets[i];
            assert(all[j].desired && all[j].config == config);
        } else {
            let b = choose|b: int| 0 <= b < wanted.len() && wanted[b] == config;
            lemma_addition_exists(
                task.targets,
                wanted,
                task.config.client,
                task.next_generation,
                b,
            );
            let k = choose|k: int|
                0 <= k < added.len() && (#[trigger] added[k]).config == config && added[k].desired;
            assert(all[kept.len() + k] == added[k]);
        }
    }
}

proof fn lemma_addition_exists(
    targets: Seq<TargetView>,
    wanted: Seq<TargetConfigView>,
    base: ClientConfigView,
    next_generation: u64,
    b: int,
)
    requires
        0 <= b < wanted.len(),
        !running(targets, wanted[b]),
    ensures
        exists|k: int|
            0 <= k < additions(targets, wanted, base, next_generation).len() && (
            #[trigger] additions(targets, wanted, base, next_generation)[k]).config == wanted[b]
                && additions(targets, wanted, base, next_generation)[k].desired,
    decreases wanted.len(),
{
    let rest = wanted.drop_last();
    let added = additions(targets, wanted, base, next_generation);
    if b == wanted.len() - 1 {
        assert(added.last().config == wanted[b] && added.last().desired);
    } else {
        lemma_addition_exists(targets, rest, base, next_generation, b);
        let before = additions(targets, rest, base, next_generation);
        let k = choose|k: int|
            0 <= k < before.len() && (#[trigger] before[k]).config == rest[b] && before[k].desired;
        assert(added[k] == before[k]);
    }
}

/// Dropping ended targets keeps the driver well formed and leaves no cursor
/// beyond the list and no more work than there are targets.
pub proof fn law_pruning_leaves_no_stale_work(task: TaskView)
    requires
        task.wf(),
        exists|i: int| 0 <= i < task.targets.len() && prunable(#[trigger] task.targets[i]),
    ensures
        task.pruned().wf(),
        ({
            let after = task.pruned();
            let len = after.targets.len();
            &&& len < task.targets.len()
            &&& len == 0 ==> after.cursor == 0 && after.send_cursor == 0 && after.timeout_cursor
                == 0
            &&& len > 0 ==> after.cursor < len && after.send_cursor < len && after.timeout_cursor
                < len
            &&& after.scan_remaining <= len
            &&& after.burst_remaining <= len
            &&& after.stagger_remaining <= len
            &&& forall|i: int| 0 <= i < len ==> !prunable(#[trigger] after.targets[i])
        }),
{
    let keeps = |target: TargetView| !prunable(target);
    let kept = task.targets.filter(keeps);
    assert(task.targets =~= task.targets.take(task.targets.len() as int));
    lemma_filtered(task, task.targets, keeps);
    let i = choose|i: int| 0 <= i < task.targets.len() && prunable(#[trigger] task.targets[i]);
    lemma_filter_drops(task.targets, keeps, i);
    if kept.len() > 0 {
        let len = kept.len() as int;
        vstd::arithmetic::div_mod::lemma_mod_bound(task.cursor as int, len);
        vstd::arithmetic::div_mod::lemma_mod_bound(task.send_cursor as int, len);
        vstd::arithmetic::div_mod::lemma_mod_bound(task.timeout_cursor as int, len);
    }
}

proof fn lemma_filter_drops(
    targets: Seq<TargetView>,
    keeps: spec_fn(TargetView) -> bool,
    i: int,
)
    requires
        0 <= i < targets.len(),
        !keeps(targets[i]),
    ensures
        targets.filter(keeps).len() < targets.len(),
    decreases targets.len(),
{
    reveal(Seq::filter);
    let rest = targets.drop_last();
    if i < rest.len() {
        lemma_filter_drops(rest, keeps, i);
    } else {
        lemma_filter_short(rest, keeps);
    }
}

proof fn lemma_filter_short(targets: Seq<TargetView>, keeps: spec_fn(TargetView) -> bool)
    ensures
        targets.filter(keeps).len() <= targets.len(),
    decreases targets.len(),
{
    reveal(Seq::filter);
    if targets.len() > 0 {
        lemma_filter_short(targets.drop_last(), keeps);
    }
}

proof fn lemma_filtered(
    task: TaskView,
    targets: Seq<TargetView>,
    keeps: spec_fn(TargetView) -> bool,
)
    requires
        task.wf(),
        targets.len() <= task.targets.len(),
        targets == task.targets.take(targets.len() as int),
    ensures
        ({
            let kept = targets.filter(keeps);
            &&& kept.len() <= targets.len()
            &&& forall|i: int, j: int|
                0 <= i < j < kept.len() ==> (#[trigger] kept[i]).instance.generation < (
                #[trigger] kept[j]).instance.generation
            &&& forall|i: int|
                0 <= i < kept.len() ==> keeps(#[trigger] kept[i]) && exists|k: int|
                    0 <= k < targets.len() && targets[k] == kept[i]
            &&& forall|i: int, j: int|
                0 <= i < j < kept.len() && (#[trigger] kept[i]).desired && (
                #[trigger] kept[j]).desired ==> kept[i].instance.id != kept[j].instance.id
        }),
    decreases targets.len(),
{
    reveal(Seq::filter);
    if targets.len() > 0 {
        let rest = targets.drop_last();
        let at = targets.len() - 1;
        assert(rest =~= task.targets.take(at));
        assert(targets.last() == task.targets[at]);
        lemma_filtered(task, rest, keeps);
        let before = rest.filter(keeps);
        let kept = targets.filter(keeps);
        assert forall|i: int| 0 <= i < kept.len() implies keeps(#[trigger] kept[i]) && exists|
            k: int,
        |
            0 <= k < targets.len() && targets[k] == kept[i] by {
            if i < before.len() {
                assert(kept[i] == before[i]);
                let k = choose|k: int| 0 <= k < rest.len() && rest[k] == before[i];
                assert(targets[k] == kept[i]);
            } else {
                assert(targets[at] == kept[i]);
            }
        }
        assert forall|i: int, j: int| 0 <= i < j < kept.len() implies {
            &&& (#[trigger] kept[i]).instance.generation < (#[trigger] kept[j]).instance.generation
            &&& kept[i].desired && kept[j].desired ==> kept[i].instance.id != kept[j].instance.id
        } by {
            assert(kept[i] == before[i]);
            if j < before.len() {
                assert(kept[j] == before[j]);
            } else {
                let k = choose|k: int| 0 <= k < rest.len() && rest[k] == before[i];
                assert(task.targets[k] == kept[i]);
                assert(task.targets[at] == kept[j]);
            }
        }
    }
}

} // verus!
