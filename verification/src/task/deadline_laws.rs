//! What holds of the instant that the driver wakes up at.
use vstd::prelude::*;

use crate::model::ManagedPacing;
use crate::task::drive_view::{first_sending, first_waiting};
use crate::task::target::{TargetStateView, TargetView};
use crate::task::view::{active_count, DriverState, TaskView};
use crate::timing::Instant;

verus! {

/// A pending probe of the target expires, its drain ends or its close is given
/// up at `at`.
pub open spec fn awaits(target: TargetView, at: Instant) -> bool {
    ||| target.state matches TargetStateView::Active { facts } && facts.next_probe_timeout == Some(
        at,
    )
    ||| target.state matches TargetStateView::Draining { facts, .. } && facts.next_probe_timeout
        == Some(at)
    ||| target.state matches TargetStateView::Draining { deadline, .. } && deadline == at
    ||| target.state matches TargetStateView::Closing { deadline, .. } && deadline == at
}

/// The target wants to send at `at`, and no send of it waits already.
pub open spec fn wants_send(target: TargetView, at: Instant) -> bool {
    &&& target.desired
    &&& target.retirement is None
    &&& !target.send_waiting
    &&& target.state matches TargetStateView::Active { facts } && facts.next_send == Some(at)
}

/// The target takes part in pacing.
pub open spec fn is_paced(target: TargetView) -> bool {
    target.active && target.desired && target.retirement is None
}

/// The send gate holds sends back: the driver runs staggered and some target
/// takes part in pacing.
pub open spec fn gate_counts(task: TaskView) -> bool {
    &&& task.state == DriverState::Running
    &&& task.config.pacing == ManagedPacing::Staggered
    &&& exists|i: int| 0 <= i < task.targets.len() && is_paced(#[trigger] task.targets[i])
}

proof fn lemma_active_count(targets: Seq<TargetView>)
    ensures
        active_count(targets) > 0 <==> exists|i: int|
            0 <= i < targets.len() && is_paced(#[trigger] targets[i]),
    decreases targets.len(),
{
    if targets.len() > 0 {
        let rest = targets.drop_last();
        lemma_active_count(rest);
        if active_count(rest) > 0 {
            let i = choose|i: int| 0 <= i < rest.len() && is_paced(#[trigger] rest[i]);
            assert(targets[i] == rest[i]);
        }
        if exists|i: int| 0 <= i < targets.len() && is_paced(#[trigger] targets[i]) {
            let i = choose|i: int| 0 <= i < targets.len() && is_paced(#[trigger] targets[i]);
            if i < rest.len() {
                assert(rest[i] == targets[i]);
            }
        }
        if is_paced(targets.last()) {
            assert(is_paced(targets[targets.len() - 1]));
        }
    }
}

proof fn lemma_first_waiting(targets: Seq<TargetView>)
    ensures
        forall|i: int, at: Instant|
            0 <= i < targets.len() && #[trigger] awaits(targets[i], at) ==> first_waiting(targets)
                is Some && first_waiting(targets)->0.nanos <= at.nanos,
        first_waiting(targets) matches Some(first) ==> exists|i: int|
            0 <= i < targets.len() && awaits(#[trigger] targets[i], first),
    decreases targets.len(),
{
    if targets.len() > 0 {
        let rest = targets.drop_last();
        lemma_first_waiting(rest);
        assert forall|i: int, at: Instant|
            0 <= i < targets.len() && #[trigger] awaits(targets[i], at) implies first_waiting(
            targets,
        ) is Some && first_waiting(targets)->0.nanos <= at.nanos by {
            if i < rest.len() {
                assert(awaits(rest[i], at));
            }
        }
        if let Some(first) = first_waiting(targets) {
            if first_waiting(rest) == Some(first) {
                let i = choose|i: int| 0 <= i < rest.len() && awaits(#[trigger] rest[i], first);
                assert(targets[i] == rest[i]);
            } else {
                assert(awaits(targets[targets.len() - 1], first));
            }
        }
    }
}

proof fn lemma_first_sending(targets: Seq<TargetView>)
    ensures
        forall|i: int, at: Instant|
            0 <= i < targets.len() && #[trigger] wants_send(targets[i], at) ==> first_sending(
                targets,
            ) is Some && first_sending(targets)->0.nanos <= at.nanos,
        first_sending(targets) matches Some(first) ==> exists|i: int|
            0 <= i < targets.len() && wants_send(#[trigger] targets[i], first),
    decreases targets.len(),
{
    if targets.len() > 0 {
        let rest = targets.drop_last();
        lemma_first_sending(rest);
        assert forall|i: int, at: Instant|
            0 <= i < targets.len() && #[trigger] wants_send(targets[i], at) implies first_sending(
            targets,
        ) is Some && first_sending(targets)->0.nanos <= at.nanos by {
            if i < rest.len() {
                assert(wants_send(rest[i], at));
            }
        }
        if let Some(first) = first_sending(targets) {
            if first_sending(rest) == Some(first) {
                let i = choose|i: int| 0 <= i < rest.len() && wants_send(#[trigger] rest[i], first);
                assert(targets[i] == rest[i]);
            } else {
                assert(wants_send(targets[targets.len() - 1], first));
            }
        }
    }
}

/// The driver sleeps past nothing: it wakes no later than a pending probe
/// expires, a drain ends or a close is given up, and no later than a target
/// wants to send, where a staggered send waits for the send gate.
pub proof fn law_wakes_for_everything_due(task: TaskView, i: int, at: Instant)
    requires
        0 <= i < task.targets.len(),
    ensures
        awaits(task.targets[i], at) ==> (task.deadline() matches Some(wakeup) && wakeup.nanos
            <= at.nanos),
        wants_send(task.targets[i], at) ==> (task.deadline() matches Some(wakeup) && (wakeup.nanos
            <= at.nanos || (gate_counts(task) && (task.send_gate matches Some(gate) && wakeup.nanos
            <= gate.nanos)))),
{
    lemma_first_waiting(task.targets);
    lemma_first_sending(task.targets);
    lemma_active_count(task.targets);
}

/// The driver wakes for a cause: at an instant at which something of a target
/// is due, or at which the send gate opens. A send that the send gate holds back is
/// no cause, and where there is no cause the driver sets no alarm.
pub proof fn law_wakes_for_a_cause(task: TaskView)
    ensures
        task.deadline() matches Some(wakeup) ==> {
            ||| exists|i: int| 0 <= i < task.targets.len() && awaits(#[trigger] task.targets[i], wakeup)
            ||| (exists|i: int|
                0 <= i < task.targets.len() && wants_send(#[trigger] task.targets[i], wakeup)) && (
            gate_counts(task) ==> !(task.send_gate matches Some(gate) && wakeup.nanos < gate.nanos))
            ||| gate_counts(task) && task.send_gate == Some(wakeup)
        },
{
    lemma_first_waiting(task.targets);
    lemma_first_sending(task.targets);
    lemma_active_count(task.targets);
}

/// With a send gate that counts, the driver wakes by the time the send gate opens
/// even where no target wants to send, and where nothing is due before the
/// gate opens it wakes exactly then or later.
pub proof fn law_wakes_when_the_gate_opens(task: TaskView)
    requires
        gate_counts(task),
        task.send_gate is Some,
        forall|i: int, at: Instant|
            0 <= i < task.targets.len() ==> !#[trigger] awaits(task.targets[i], at),
    ensures
        task.deadline() is Some,
        task.deadline()->0.nanos >= task.send_gate->0.nanos,
        (forall|i: int, at: Instant|
            0 <= i < task.targets.len() && #[trigger] wants_send(task.targets[i], at) ==> at.nanos
                <= task.send_gate->0.nanos) ==> task.deadline() == task.send_gate,
{
    lemma_first_waiting(task.targets);
    lemma_first_sending(task.targets);
    lemma_active_count(task.targets);
    let send = first_sending(task.targets);
    if let Some(first) = first_waiting(task.targets) {
        let i = choose|i: int|
            0 <= i < task.targets.len() && awaits(#[trigger] task.targets[i], first);
        assert(awaits(task.targets[i], first));
    }
    if let Some(first) = send {
        let i = choose|i: int|
            0 <= i < task.targets.len() && wants_send(#[trigger] task.targets[i], first);
        assert(wants_send(task.targets[i], first));
    }
}

} // verus!
