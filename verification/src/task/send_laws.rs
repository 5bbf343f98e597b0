//! What holds of the passes over the targets, of sends and their spacing, and
//! of the search for due probes.
use vstd::prelude::*;

use crate::counting::{lemma_filter_empty, lemma_filter_last};
use crate::model::{EndReasonView, ManagedTargetFailurePhase};
use crate::ring::lemma_ring_step;
use crate::task::drive_view::{
    in_backlog, overdue, pass_indices, pass_work, ring, round_left, sendable, SendObservation,
    SendPoll, SendResult, StaggerStep,
};
use crate::task::deadline_laws::is_paced;
use crate::task::send::stagger_planned;
use crate::task::session_laws::{
    drain_started, failed_in, law_session_events_are_published, loss_due,
};
use crate::task::target::{TargetStateView, TargetView};
use crate::task::view::{
    active_count, active_spacing, future_gate, gate_after_addition, lemma_client_events_frame,
    sending_count, shortest_interval, spacing, EffectView, TaskView, TimeoutBacklogEntry,
};
use crate::timing::{Duration, Instant, MAX_INSTANT_NANOS};

verus! {

/// One pass looks at consecutive positions of the ring, as many as are left of
/// the round but no more than 128, and the next pass goes on behind them.
pub proof fn law_pass_visits_consecutive_targets(task: TaskView)
    requires
        0 < task.targets.len() <= usize::MAX,
    ensures
        ({
            let len = task.targets.len();
            let left = if task.scan_remaining == 0 {
                len as int
            } else {
                task.scan_remaining as int
            };
            let visited = pass_indices(task.cursor, task.scan_remaining, len);
            let after = task.target_pass_taken();
            &&& visited.len() == (if left <= 128 {
                left
            } else {
                128
            })
            &&& visited[0] == task.cursor as int % len as int
            &&& forall|k: int|
                0 <= k < visited.len() ==> 0 <= (#[trigger] visited[k]) < len
            &&& forall|k: int|
                0 <= k < visited.len() - 1 ==> visited[k + 1] == (if (#[trigger] visited[k]) + 1
                    == len {
                    0
                } else {
                    visited[k] + 1
                })
            &&& after.scan_remaining == left - visited.len()
            &&& after.cursor == (if visited.last() + 1 == len {
                0
            } else {
                visited.last() + 1
            })
            &&& after == (TaskView {
                cursor: after.cursor,
                scan_remaining: after.scan_remaining,
                ..task
            })
        }),
{
    let len = task.targets.len();
    lemma_pass(task.cursor, task.scan_remaining, len);
    lemma_pass_end(task.cursor, task.scan_remaining, len);
}

/// Where a pass ends, and how many targets it visits.
proof fn lemma_pass_end(cursor: usize, left: usize, len: nat)
    requires
        0 < len <= usize::MAX,
    ensures
        ({
            let visited = pass_indices(cursor, left, len);
            let whole = if left == 0 {
                len as int
            } else {
                left as int
            };
            let end = ring(cursor, pass_work(left, len), len);
            &&& pass_work(left, len) == visited.len()
            &&& round_left(left, len) == whole
            &&& visited.len() == (if whole <= 128 {
                whole
            } else {
                128
            })
            &&& 0 <= end < len
            &&& end == (if visited.last() + 1 == len {
                0
            } else {
                visited.last() + 1
            })
        }),
{
    let work = pass_work(left, len);
    lemma_pass(cursor, left, len);
    lemma_ring_step(cursor as int + work as int - 1, len as int);
    lemma_ring_step(cursor as int + work as int, len as int);
}

proof fn lemma_pass(cursor: usize, left: usize, len: nat)
    requires
        0 < len <= usize::MAX,
    ensures
        ({
            let visited = pass_indices(cursor, left, len);
            &&& visited.len() > 0
            &&& visited[0] == cursor as int % len as int
            &&& forall|k: int|
                0 <= k < visited.len() ==> 0 <= (#[trigger] visited[k]) < len && visited[k]
                    == ring(cursor, k as nat, len)
            &&& forall|k: int|
                0 <= k < visited.len() - 1 ==> visited[k + 1] == (if (#[trigger] visited[k]) + 1
                    == len {
                    0
                } else {
                    visited[k] + 1
                })
        }),
{
    let visited = pass_indices(cursor, left, len);
    lemma_ring_step(cursor as int, len as int);
    assert forall|k: int| 0 <= k < visited.len() implies 0 <= (#[trigger] visited[k]) < len
        && visited[k] == ring(cursor, k as nat, len) by {
        lemma_ring_step(cursor as int + k, len as int);
    }
    assert forall|k: int| 0 <= k < visited.len() - 1 implies visited[k + 1] == (if (
    #[trigger] visited[k]) + 1 == len {
        0
    } else {
        visited[k] + 1
    }) by {
        lemma_ring_step(cursor as int + k, len as int);
        assert(visited[k + 1] == ring(cursor, (k + 1) as nat, len));
    }
}

/// A burst pass lets targets send in the same way.
pub proof fn law_burst_visits_consecutive_targets(task: TaskView)
    requires
        0 < task.targets.len() <= usize::MAX,
    ensures
        ({
            let len = task.targets.len();
            let left = if task.burst_remaining == 0 {
                len as int
            } else {
                task.burst_remaining as int
            };
            let visited = pass_indices(task.send_cursor, task.burst_remaining, len);
            let after = task.burst_pass_taken();
            &&& visited.len() == (if left <= 128 {
                left
            } else {
                128
            })
            &&& visited[0] == task.send_cursor as int % len as int
            &&& after.burst_remaining == left - visited.len()
            &&& after.send_cursor == (if visited.last() + 1 == len {
                0
            } else {
                visited.last() + 1
            })
            &&& after == (TaskView {
                send_cursor: after.send_cursor,
                burst_remaining: after.burst_remaining,
                ..task
            })
        }),
{
    let len = task.targets.len();
    lemma_pass(task.send_cursor, task.burst_remaining, len);
    lemma_pass_end(task.send_cursor, task.burst_remaining, len);
}

/// A pass over a list with nothing in it does nothing.
pub proof fn law_pass_over_nothing(task: TaskView)
    requires
        task.targets.len() == 0,
    ensures
        task.target_pass_taken() == task,
        task.burst_pass_taken() == task,
{
}

/// A target can send when it is wanted and active, its next probe is due, and
/// no loss of it is.
pub proof fn law_due_target_can_send(target: TargetView, now: Instant)
    ensures
        sendable(target, now) <==> {
            &&& target.desired
            &&& target.retirement is None
            &&& target.state is Active
            &&& target.state->Active_facts.next_send is Some
            &&& target.state->Active_facts.next_send->0.nanos <= now.nanos
            &&& !loss_due(target.state->Active_facts, now)
        },
        overdue(target, now) <==> {
            ||| target.state is Active && loss_due(target.state->Active_facts, now)
            ||| target.state is Draining && loss_due(target.state->Draining_facts, now)
        },
{
}

/// Some target takes part in pacing, and the send gate is open.
pub open spec fn stagger_open(task: TaskView, now: Instant) -> bool {
    &&& exists|i: int| 0 <= i < task.targets.len() && is_paced(#[trigger] task.targets[i])
    &&& task.send_gate is None || task.send_gate->0.nanos <= now.nanos
}

proof fn lemma_paced(targets: Seq<TargetView>)
    ensures
        active_count(targets) > 0 <==> exists|i: int|
            0 <= i < targets.len() && is_paced(#[trigger] targets[i]),
    decreases targets.len(),
{
    if targets.len() > 0 {
        let rest = targets.drop_last();
        lemma_paced(rest);
        if active_count(rest) > 0 {
            let i = choose|i: int| 0 <= i < rest.len() && is_paced(#[trigger] rest[i]);
            assert(targets[i] == rest[i]);
        }
        if exists|i: int| 0 <= i < targets.len() && is_paced(#[trigger] targets[i]) {
            let i = choose|i: int| 0 <= i < targets.len() && is_paced(#[trigger] targets[i]);
            if i < rest.len() {
                assert(rest[i] == targets[i]);
            }
        }
        if is_paced(targets.last()) {
            assert(is_paced(targets[targets.len() - 1]));
        }
    }
}

/// While the send gate is closed, or no target takes part in pacing, nothing is
/// sent and nothing changes.
pub proof fn law_closed_gate_holds_sends(
    before: TaskView,
    now: Instant,
    step: StaggerStep,
    after: TaskView,
)
    requires
        stagger_planned(before, now, step, after),
        !stagger_open(before, now),
    ensures
        step == (StaggerStep::Idle { more: false }),
        after == before,
{
    lemma_paced(before.targets);
}

/// The target that is picked for a staggered send can send, and none between
/// it and the one whose turn it was could. The next round starts behind it.
pub proof fn law_staggered_sends_go_in_turn(
    before: TaskView,
    now: Instant,
    index: usize,
    after: TaskView,
)
    requires
        0 < before.targets.len() <= usize::MAX,
        stagger_planned(before, now, StaggerStep::Attempt { index }, after),
    ensures
        ({
            let len = before.targets.len() as int;
            let first = before.send_cursor as int % len;
            &&& stagger_open(before, now)
            &&& index < len
            &&& sendable(before.targets[index as int], now)
            &&& forall|passed: int|
                0 <= passed < len && (if first <= index {
                    first <= passed < index
                } else {
                    first <= passed || passed < index
                }) ==> !sendable(#[trigger] before.targets[passed], now)
            &&& after.send_cursor == (if index + 1 == len {
                0
            } else {
                index + 1
            })
            &&& after.stagger_remaining == 0
            &&& after.targets.len() == len
            &&& forall|i: int|
                0 <= i < len ==> (#[trigger] after.targets[i]) == before.targets[i]
                    || after.targets[i] == (TargetView {
                    send_waiting: false,
                    ..before.targets[i]
                })
            &&& after.send_gate == before.send_gate
            &&& after.outbox == before.outbox
        }),
{
    lemma_paced(before.targets);
    let len = before.targets.len();
    let n = len as int;
    let first = before.send_cursor as int % n;
    let cursor = before.send_cursor;
    let seen = choose|seen: nat|
        {
            &&& seen < pass_work(before.stagger_remaining, len)
            &&& index == ring(cursor, seen, len)
            &&& index < len
            &&& sendable(before.targets[index as int], now)
            &&& forall|k: nat|
                k < seen ==> !sendable(before.targets[#[trigger] ring(cursor, k, len)], now)
            &&& after == (TaskView {
                send_cursor: ring(cursor, seen + 1, len) as usize,
                stagger_remaining: 0,
                ..#[trigger] before.stagger_scanned(seen)
            })
        };
    lemma_scan_frame(before, seen);
    lemma_ring_step(cursor as int + seen as int, n);
    lemma_ring_step(cursor as int, n);
    assert forall|passed: int|
        0 <= passed < n && (if first <= index {
            first <= passed < index
        } else {
            first <= passed || passed < index
        }) implies !sendable(#[trigger] before.targets[passed], now) by {
        let k = if passed >= first {
            passed - first
        } else {
            passed - first + n
        };
        lemma_ring_at(cursor, k as nat, len, passed);
        lemma_ring_distance(cursor, seen, len, index as int);
        if k >= seen {
            // A whole round would have passed the picked target on the way.
            let d = if index >= first {
                index - first
            } else {
                index - first + n
            };
            lemma_ring_at(cursor, d as nat, len, index as int);
            assert(d > k);
            assert(false);
        }
        assert(!sendable(before.targets[ring(cursor, k as nat, len)], now));
    }
}

/// `index` stands `step` places behind the cursor.
proof fn lemma_ring_at(cursor: usize, step: nat, len: nat, index: int)
    requires
        len > 0,
        0 <= index < len,
        cursor as int % len as int + step == index || cursor as int % len as int + step == index
            + len,
    ensures
        ring(cursor, step, len) == index,
{
    let n = len as int;
    let first = cursor as int % n;
    vstd::arithmetic::div_mod::lemma_fundamental_div_mod(cursor as int, n);
    let q = cursor as int / n;
    let total = cursor as int + step as int;
    if first + step == index {
        assert(total == q * n + index) by (nonlinear_arith)
            requires
                cursor as int == n * q + first,
                total == cursor as int + step,
                first + step == index,
        ;
        vstd::arithmetic::div_mod::lemma_fundamental_div_mod_converse(total, n, q, index);
    } else {
        assert(total == (q + 1) * n + index) by (nonlinear_arith)
            requires
                cursor as int == n * q + first,
                total == cursor as int + step,
                first + step == index + n,
        ;
        vstd::arithmetic::div_mod::lemma_fundamental_div_mod_converse(total, n, q + 1, index);
    }
}

/// The distance from the cursor to `index` is at most `step`.
proof fn lemma_ring_distance(cursor: usize, step: nat, len: nat, index: int)
    requires
        len > 0,
        ring(cursor, step, len) == index,
    ensures
        ({
            let first = cursor as int % len as int;
            let d = if index >= first {
                index - first
            } else {
                index - first + len
            };
            d <= step
        }),
{
    let n = len as int;
    let first = cursor as int % n;
    lemma_ring_step(cursor as int, n);
    lemma_ring_step(cursor as int + step as int, n);
    if step < n {
        if first + step < n {
            lemma_ring_at(cursor, step, len, first + step);
        } else {
            lemma_ring_at(cursor, step, len, first + step - n);
        }
    }
}

/// A search that finds nobody has looked at its whole share of the round, and a
/// whole round where the list is short enough. Nothing but the search itself
/// and the waiting marks of targets that need not send changes.
pub proof fn law_idle_search_found_nobody(
    before: TaskView,
    now: Instant,
    more: bool,
    after: TaskView,
    index: int,
)
    requires
        0 < before.targets.len() <= 128,
        before.stagger_remaining == 0,
        stagger_open(before, now),
        stagger_planned(before, now, StaggerStep::Idle { more }, after),
        0 <= index < before.targets.len(),
    ensures
        !more,
        !sendable(before.targets[index], now),
        after.targets.len() == before.targets.len(),
        after.targets[index] == before.targets[index] || after.targets[index] == (TargetView {
            send_waiting: false,
            ..before.targets[index]
        }),
        after.outbox == before.outbox,
        after.send_gate == before.send_gate,
{
    lemma_paced(before.targets);
    let len = before.targets.len();
    let n = len as int;
    let cursor = before.send_cursor;
    let first = cursor as int % n;
    lemma_ring_step(cursor as int, n);
    let k = if index >= first {
        index - first
    } else {
        index - first + n
    };
    lemma_ring_at(cursor, k as nat, len, index);
    assert(!sendable(before.targets[ring(cursor, k as nat, len)], now));
    lemma_scan_frame(before, len);
}

proof fn lemma_scan_frame(task: TaskView, seen: nat)
    requires
        0 < task.targets.len() <= usize::MAX,
        seen <= round_left(task.stagger_remaining, task.targets.len()),
    ensures
        ({
            let after = task.stagger_scanned(seen);
            &&& after == (TaskView {
                targets: after.targets,
                send_cursor: after.send_cursor,
                stagger_remaining: after.stagger_remaining,
                ..task
            })
            &&& after.targets.len() == task.targets.len()
            &&& after.stagger_remaining == round_left(task.stagger_remaining, task.targets.len())
                - seen
            &&& forall|i: int|
                0 <= i < task.targets.len() ==> (#[trigger] after.targets[i]) == task.targets[i]
                    || after.targets[i] == (TargetView {
                    send_waiting: false,
                    ..task.targets[i]
                })
        }),
    decreases seen,
{
    if seen > 0 {
        lemma_scan_frame(task, (seen - 1) as nat);
        let before = task.stagger_scanned((seen - 1) as nat);
        let len = task.targets.len() as int;
        lemma_ring_step(before.send_cursor as int, len);
        let index = before.send_cursor as int % len;
        let after = task.stagger_scanned(seen);
        assert forall|i: int| 0 <= i < task.targets.len() implies (#[trigger] after.targets[i])
            == task.targets[i] || after.targets[i] == (TargetView {
            send_waiting: false,
            ..task.targets[i]
        }) by {
            let at = before.targets[i];
            assert(at == task.targets[i] || at == (TargetView {
                send_waiting: false,
                ..task.targets[i]
            }));
        }
    }
}

proof fn lemma_scan_wakes(task: TaskView, seen: nat)
    requires
        0 < task.targets.len() <= usize::MAX,
        seen <= round_left(task.stagger_remaining, task.targets.len()),
    ensures
        ({
            let after = task.stagger_scanned(seen);
            let len = task.targets.len();
            &&& after.send_cursor as int % len as int == ring(task.send_cursor, seen, len)
            &&& forall|k: nat|
                k < seen ==> {
                    let i = #[trigger] ring(task.send_cursor, k, len);
                    task.targets[i].sends() ==> !after.targets[i].send_waiting
                }
            &&& forall|i: int|
                0 <= i < len && !task.targets[i].sends() ==> (#[trigger] after.targets[i])
                    == task.targets[i]
        }),
    decreases seen,
{
    if seen > 0 {
        let last = (seen - 1) as nat;
        lemma_scan_wakes(task, last);
        lemma_scan_frame(task, last);
        lemma_scan_frame(task, seen);
        let before = task.stagger_scanned(last);
        let after = task.stagger_scanned(seen);
        let len = task.targets.len() as int;
        let index = before.send_cursor as int % len;
        lemma_ring_step(before.send_cursor as int, len);
        lemma_ring_step(task.send_cursor as int + last as int, len);
        lemma_ring_step(index + 1, len);
        vstd::arithmetic::div_mod::lemma_small_mod((index + 1) as nat % len as nat, len as nat);
        vstd::arithmetic::div_mod::lemma_add_mod_noop(
            task.send_cursor as int + last as int,
            1,
            len,
        );
        vstd::arithmetic::div_mod::lemma_add_mod_noop(index, 1, len);
        vstd::arithmetic::div_mod::lemma_mod_twice(task.send_cursor as int + last as int, len);
        assert((index + 1) % len == (task.send_cursor as int + last as int + 1) % len);
        assert forall|k: nat| k < seen implies {
            let i = #[trigger] ring(task.send_cursor, k, len as nat);
            task.targets[i].sends() ==> !after.targets[i].send_waiting
        } by {
            let i = ring(task.send_cursor, k, len as nat);
            lemma_ring_step(task.send_cursor as int + k as int, len);
            assert(before.targets[i].sends() == task.targets[i].sends());
            if k == last {
                assert(i == index);
            }
        }
        assert forall|i: int| 0 <= i < len && !task.targets[i].sends() implies (
        #[trigger] after.targets[i]) == task.targets[i] by {
            assert(before.targets[i] == task.targets[i]);
        }
    }
}

/// A search lets every target that it looks at and that may send try again, and
/// leaves the others as they are.
pub proof fn law_search_wakes_whom_it_looks_at(
    before: TaskView,
    now: Instant,
    step: StaggerStep,
    after: TaskView,
    i: int,
)
    requires
        0 < before.targets.len() <= 128,
        before.stagger_remaining == 0,
        stagger_open(before, now),
        stagger_planned(before, now, step, after),
        0 <= i < before.targets.len(),
        step matches StaggerStep::Attempt { index } ==> {
            let first = before.send_cursor as int % before.targets.len() as int;
            if first <= index {
                first <= i < index
            } else {
                first <= i || i < index
            }
        },
    ensures
        before.targets[i].sends() ==> !after.targets[i].send_waiting,
        !before.targets[i].sends() ==> after.targets[i] == before.targets[i],
{
    lemma_paced(before.targets);
    let len = before.targets.len();
    let n = len as int;
    let cursor = before.send_cursor;
    let first = cursor as int % n;
    lemma_ring_step(cursor as int, n);
    let k = if i >= first {
        i - first
    } else {
        i - first + n
    };
    lemma_ring_at(cursor, k as nat, len, i);
    match step {
        StaggerStep::Idle { .. } => {
            lemma_scan_wakes(before, len);
            assert(ring(cursor, k as nat, len) == i);
        },
        StaggerStep::Attempt { index } => {
            let seen = choose|seen: nat|
                {
                    &&& seen < pass_work(before.stagger_remaining, len)
                    &&& index == ring(cursor, seen, len)
                    &&& index < len
                    &&& sendable(before.targets[index as int], now)
                    &&& forall|k: nat|
                        k < seen ==> !sendable(before.targets[#[trigger] ring(cursor, k, len)], now)
                    &&& after == (TaskView {
                        send_cursor: ring(cursor, seen + 1, len) as usize,
                        stagger_remaining: 0,
                        ..#[trigger] before.stagger_scanned(seen)
                    })
                };
            lemma_ring_distance(cursor, seen, len, index as int);
            lemma_scan_wakes(before, seen);
            assert(k < seen);
            assert(ring(cursor, k as nat, len) == i);
        },
    }
}

/// The send gate closes for the spacing after a send that the network took, and
/// only then.
pub proof fn law_accepted_send_closes_the_gate(
    task: TaskView,
    index: int,
    observed: SendObservation,
    share: Option<(usize, Duration)>,
    now: Instant,
    clock: Instant,
)
    requires
        0 <= index < task.targets.len(),
        task.targets[index].state is Active,
        observed.poll is Sent ==> observed.schedule_error is None,
        !(observed.poll is Failed),
    ensures
        ({
            let after = task.send_made(index, observed, share, now, clock).0;
            let accepted = observed.facts.packets_sent > observed.packets_before && !(observed.poll
                is Pending);
            &&& accepted && share is Some ==> {
                &&& after.last_stagger_send == Some(observed.accepted_at)
                &&& observed.accepted_at.nanos + (share->0).1.nanos <= MAX_INSTANT_NANOS ==> (
                after.send_gate matches Some(gate) && gate.nanos == observed.accepted_at.nanos
                    + (share->0).1.nanos)
            }
            &&& !accepted || share is None ==> after.send_gate == task.send_gate
                && after.last_stagger_send == task.last_stagger_send
        }),
{
    if let SendPoll::Sent { events } = observed.poll {
        let noted = task.acceptance_recorded(
            observed.result(),
            share,
            observed.accepted_at,
        ).with_packets_sent(index, observed.facts.packets_sent);
        let settled = noted.with_target(
            index,
            TargetView { send_waiting: observed.poll is Pending, ..noted.targets[index] },
        ).with_state(index, TargetStateView::Active { facts: observed.facts });
        lemma_client_events_frame(settled, index, events@);
    }
}

/// A send that was made is counted, its events are published, and its target
/// goes on with what its session says of itself. It waits where the socket was
/// not ready, and only then.
pub proof fn law_send_is_taken_in(
    task: TaskView,
    index: int,
    observed: SendObservation,
    share: Option<(usize, Duration)>,
    now: Instant,
    clock: Instant,
)
    requires
        0 <= index < task.targets.len(),
        task.targets[index].state is Active,
        !(observed.poll is Failed),
        observed.poll is Sent && observed.facts.packets_sent > observed.packets_before
            ==> observed.schedule_error is None,
    ensures
        ({
            let (after, result) = task.send_made(index, observed, share, now, clock);
            let accepted = observed.facts.packets_sent > observed.packets_before;
            &&& after.targets[index].state == (TargetStateView::Active { facts: observed.facts })
            &&& after.targets[index].counters.packets_sent == observed.facts.packets_sent
            &&& after.targets[index].send_waiting == (observed.poll is Pending)
            &&& observed.poll is Pending ==> result == SendResult::Pending && after.outbox
                == task.outbox
            &&& observed.poll matches SendPoll::Sent { events } ==> {
                &&& result == (SendResult::Ready { accepted })
                &&& after.outbox.len() == task.outbox.len() + events@.len()
                &&& forall|k: int|
                    0 <= k < events@.len() ==> (#[trigger] after.outbox[task.outbox.len() + k])
                        == (EffectView::Event {
                        event: crate::model::EventView::Client {
                            target: task.targets[index].instance,
                            event: events@[k],
                        },
                    })
            }
            &&& after.history == task.history
        }),
{
    if let SendPoll::Sent { events } = observed.poll {
        let noted = task.acceptance_recorded(
            observed.result(),
            share,
            observed.accepted_at,
        ).with_packets_sent(index, observed.facts.packets_sent);
        let settled = noted.with_target(
            index,
            TargetView { send_waiting: observed.poll is Pending, ..noted.targets[index] },
        ).with_state(index, TargetStateView::Active { facts: observed.facts });
        lemma_client_events_frame(settled, index, events@);
        law_session_events_are_published(settled, index, events@);
    }
}

/// A send that failed, and one after which the schedule fails, drain the target
/// with that failure as the reason for which it ends.
pub proof fn law_failed_send_drains(
    task: TaskView,
    index: int,
    observed: SendObservation,
    share: Option<(usize, Duration)>,
    now: Instant,
    clock: Instant,
)
    requires
        0 <= index < task.targets.len(),
        task.targets[index].state is Active,
        observed.poll is Failed || (observed.poll is Sent && observed.facts.packets_sent
            > observed.packets_before && observed.schedule_error is Some),
    ensures
        ({
            let (after, result) = task.send_made(index, observed, share, now, clock);
            let accepted = observed.facts.packets_sent > observed.packets_before;
            &&& result == (SendResult::Failed { accepted })
            &&& after.targets[index].counters.packets_sent == observed.facts.packets_sent
            &&& !after.targets[index].send_waiting
            &&& exists|reason: EndReasonView|
                failed_in(
                    reason,
                    if observed.poll is Failed {
                        ManagedTargetFailurePhase::Sending
                    } else {
                        ManagedTargetFailurePhase::Timing
                    },
                ) && #[trigger] drain_started(task, after, index, observed.facts, reason, clock)
        }),
{
    let after = task.send_made(index, observed, share, now, clock).0;
    match observed.poll {
        SendPoll::Sent { events } => {
            let noted = task.acceptance_recorded(
                observed.result(),
                share,
                observed.accepted_at,
            ).with_packets_sent(index, observed.facts.packets_sent);
            let settled = noted.with_target(
                index,
                TargetView { send_waiting: false, ..noted.targets[index] },
            ).with_state(index, TargetStateView::Active { facts: observed.facts });
            lemma_client_events_frame(settled, index, events@);
            let reason = EndReasonView::Failed(
                crate::model::classified(
                    ManagedTargetFailurePhase::Timing,
                    observed.schedule_error->0,
                ),
            );
            assert(drain_started(task, after, index, observed.facts, reason, clock));
        },
        SendPoll::Failed { error } => {
            let reason = EndReasonView::Failed(
                crate::model::classified(ManagedTargetFailurePhase::Sending, error),
            );
            assert(drain_started(task, after, index, observed.facts, reason, clock));
        },
        SendPoll::Pending => {},
    }
}

/// The spacing is a share of the interval as equal as whole nanoseconds allow:
/// all shares together fall short of the interval by less than one for each.
pub proof fn law_spacing_fills_the_interval(interval: Duration, count: nat)
    requires
        count > 0,
    ensures
        ({
            let part = spacing(interval, count).nanos;
            &&& part >= 1
            &&& interval.nanos >= count ==> part * count <= interval.nanos < part * count + count
            &&& interval.nanos < count ==> part == 1
        }),
{
    let d = interval.nanos as int;
    let n = count as int;
    let q = d / n;
    assert(q * n <= d && d < q * n + n && (d >= n ==> q >= 1) && (d < n ==> q == 0) && q <= d)
        by (nonlinear_arith)
        requires
            q == d / n,
            n > 0,
            d >= 0,
    ;
}

/// A target that may send.
pub open spec fn may_send(target: TargetView) -> bool {
    target.desired && target.retirement is None && target.state is Active
}

/// The interval that is shared out is the shortest of those that the targets
/// which may send have negotiated, and it is shared among all of them.
pub proof fn law_shortest_interval_is_shared(targets: Seq<TargetView>)
    ensures
        active_spacing(targets) is None <==> forall|i: int|
            0 <= i < targets.len() ==> !may_send(#[trigger] targets[i]),
        active_spacing(targets) matches Some((count, share)) ==> {
            &&& count == targets.filter(|target: TargetView| may_send(target)).len()
            &&& exists|i: int|
                0 <= i < targets.len() && may_send(#[trigger] targets[i]) && share == spacing(
                    targets[i].state->Active_facts.probe_interval,
                    count,
                ) && forall|j: int|
                    0 <= j < targets.len() && may_send(#[trigger] targets[j])
                        ==> targets[i].state->Active_facts.probe_interval.nanos
                        <= targets[j].state->Active_facts.probe_interval.nanos
        },
{
    lemma_shortest(targets);
    lemma_sending_count(targets);
}

proof fn lemma_sending_count(targets: Seq<TargetView>)
    ensures
        sending_count(targets) == targets.filter(|target: TargetView| may_send(target)).len(),
    decreases targets.len(),
{
    let wanted = |target: TargetView| may_send(target);
    if targets.len() == 0 {
        assert(targets =~= Seq::empty());
        lemma_filter_empty(wanted);
    } else {
        lemma_sending_count(targets.drop_last());
        lemma_filter_last(targets, wanted);
    }
}

proof fn lemma_shortest(targets: Seq<TargetView>)
    ensures
        shortest_interval(targets) is None <==> forall|i: int|
            0 <= i < targets.len() ==> !may_send(#[trigger] targets[i]),
        shortest_interval(targets) matches Some(shortest) ==> exists|i: int|
            0 <= i < targets.len() && may_send(#[trigger] targets[i]) && shortest
                == targets[i].state->Active_facts.probe_interval && forall|j: int|
                0 <= j < targets.len() && may_send(#[trigger] targets[j]) ==> shortest.nanos
                    <= targets[j].state->Active_facts.probe_interval.nanos,
    decreases targets.len(),
{
    if targets.len() > 0 {
        let rest = targets.drop_last();
        let last = targets.len() - 1;
        lemma_shortest(rest);
        assert forall|i: int| 0 <= i < rest.len() implies #[trigger] targets[i] == rest[i] by {}
        if shortest_interval(targets) is None {
            assert forall|i: int| 0 <= i < targets.len() implies !may_send(
                #[trigger] targets[i],
            ) by {
                if i < rest.len() {
                    assert(!may_send(rest[i]));
                }
            }
        } else {
            let shortest = shortest_interval(targets)->0;
            if shortest_interval(rest) == Some(shortest) {
                let i = choose|i: int|
                    0 <= i < rest.len() && may_send(#[trigger] rest[i]) && shortest
                        == rest[i].state->Active_facts.probe_interval && forall|j: int|
                        0 <= j < rest.len() && may_send(#[trigger] rest[j]) ==> shortest.nanos
                            <= rest[j].state->Active_facts.probe_interval.nanos;
                assert(may_send(targets[i]));
                assert forall|j: int| 0 <= j < targets.len() && may_send(#[trigger] targets[j]) implies
                    shortest.nanos <= targets[j].state->Active_facts.probe_interval.nanos by {
                    if j < rest.len() {
                        assert(may_send(rest[j]));
                    }
                }
            } else {
                assert(may_send(targets[last]));
                assert forall|j: int| 0 <= j < targets.len() && may_send(#[trigger] targets[j]) implies
                    shortest.nanos <= targets[j].state->Active_facts.probe_interval.nanos by {
                    if j < rest.len() {
                        assert(may_send(rest[j]));
                    }
                }
            }
        }
    }
}

/// When a target joins, a send gate in the future moves to the new spacing
/// after the last send where that is sooner and still in the future. A gate
/// that has passed, and one that the new spacing has overtaken, is dropped.
pub proof fn law_joining_target_moves_the_gate(
    gate: Option<Instant>,
    last: Instant,
    count: nat,
    share: Duration,
    now: Instant,
)
    requires
        last.nanos + share.nanos <= MAX_INSTANT_NANOS,
    ensures
        ({
            let after = gate_after_addition(gate, Some(last), Some((count, share)), now);
            let planned = last.nanos + share.nanos;
            &&& gate is None || gate->0.nanos <= now.nanos || planned <= now.nanos ==> after is None
            &&& gate is Some && gate->0.nanos > now.nanos && planned > now.nanos ==> {
                &&& after is Some
                &&& planned < gate->0.nanos ==> after->0.nanos == planned
                &&& planned >= gate->0.nanos ==> after == gate
            }
        }),
{
}

/// A gate in the future stays when a target leaves, and one that has passed is
/// dropped.
pub proof fn law_leaving_target_keeps_the_gate(gate: Option<Instant>, now: Instant)
    ensures
        gate is Some && gate->0.nanos > now.nanos ==> future_gate(gate, now) == gate,
        gate is None || gate->0.nanos <= now.nanos ==> future_gate(gate, now) is None,
{
}

/// The state that a target enters decides whether it takes part in pacing, and
/// the send gate moves only where that changes.
pub proof fn law_state_decides_pacing(
    task: TaskView,
    index: int,
    state: TargetStateView,
    clock: Instant,
)
    requires
        0 <= index < task.targets.len(),
    ensures
        ({
            let after = task.installed(index, state, clock);
            let joins = state is Active && !task.targets[index].active;
            let leaves = !(state is Active) && task.targets[index].active;
            &&& after.targets[index].state == state
            &&& after.targets[index].active == (state is Active)
            &&& !joins && !leaves ==> after.send_gate == task.send_gate
            &&& leaves ==> after.send_gate == (if task.send_gate is Some && task.send_gate->0.nanos
                > clock.nanos {
                task.send_gate
            } else {
                None
            })
            &&& joins && after.send_gate is Some ==> task.send_gate is Some
                && after.send_gate->0.nanos <= task.send_gate->0.nanos && after.send_gate->0.nanos
                > clock.nanos
            &&& joins ==> after.send_gate == gate_after_addition(
                task.send_gate,
                task.last_stagger_send,
                active_spacing(after.targets),
                clock,
            )
        }),
{
}

/// The search for due probes looks at consecutive targets and lists those it
/// finds, behind what is listed already and none of them twice. It changes
/// nothing else.
pub proof fn law_search_lists_due_targets(task: TaskView, seen: nat, now: Instant)
    requires
        0 < task.targets.len() <= usize::MAX,
    ensures
        ({
            let after = task.discovered(seen, now);
            let old = task.timeout_backlog;
            let new = after.timeout_backlog;
            &&& after == (TaskView {
                timeout_cursor: after.timeout_cursor,
                timeout_backlog: new,
                timeout_budget: 128,
                ..task
            })
            &&& after.timeout_cursor as int % task.targets.len() as int == ring(
                task.timeout_cursor,
                seen,
                task.targets.len(),
            )
            &&& old.len() <= new.len()
            &&& new.take(old.len() as int) == old
            &&& forall|i: int|
                old.len() <= i < new.len() ==> {
                    let entry = #[trigger] new[i];
                    &&& entry.index < task.targets.len()
                    &&& entry.generation == task.targets[entry.index as int].instance.generation
                    &&& overdue(task.targets[entry.index as int], now)
                }
            &&& forall|k: nat|
                k < seen && overdue(
                    task.targets[#[trigger] ring(task.timeout_cursor, k, task.targets.len())],
                    now,
                ) ==> in_backlog(
                    new,
                    ring(task.timeout_cursor, k, task.targets.len()),
                    task.targets[ring(
                        task.timeout_cursor,
                        k,
                        task.targets.len(),
                    )].instance.generation,
                )
        }),
    decreases seen,
{
    let len = task.targets.len();
    let n = len as int;
    let old = task.timeout_backlog;
    lemma_ring_step(task.timeout_cursor as int + seen as int, n);
    if seen == 0 {
        assert(old.take(old.len() as int) =~= old);
    } else {
        let before = task.discovered((seen - 1) as nat, now);
        let after = task.discovered(seen, now);
        law_search_lists_due_targets(task, (seen - 1) as nat, now);
        lemma_ring_step(task.timeout_cursor as int + seen as int - 1, n);
        lemma_ring_step(before.timeout_cursor as int, n);
        let index = before.timeout_cursor as int % n;
        vstd::arithmetic::div_mod::lemma_small_mod(
            ring(task.timeout_cursor, seen, len) as nat,
            len,
        );
        let new = after.timeout_backlog;
        assert(new.take(old.len() as int) =~= old) by {
            assert(before.timeout_backlog.take(old.len() as int) =~= old);
            assert forall|i: int| 0 <= i < old.len() implies new[i] == old[i] by {
                assert(before.timeout_backlog.take(old.len() as int)[i] == old[i]);
            }
        }
        assert forall|k: nat|
            k < seen && overdue(
                task.targets[#[trigger] ring(task.timeout_cursor, k, len)],
                now,
            ) implies in_backlog(
            new,
            ring(task.timeout_cursor, k, len),
            task.targets[ring(task.timeout_cursor, k, len)].instance.generation,
        ) by {
            let at = ring(task.timeout_cursor, k, len);
            let generation = task.targets[at].instance.generation;
            if k < seen - 1 || in_backlog(before.timeout_backlog, at, generation) {
                assert(in_backlog(before.timeout_backlog, at, generation));
                let i = choose|i: int|
                    0 <= i < before.timeout_backlog.len() && (
                    #[trigger] before.timeout_backlog[i]).index == at
                        && before.timeout_backlog[i].generation == generation;
                assert(new[i] == before.timeout_backlog[i]);
            } else {
                assert(at == index);
                assert(new[new.len() - 1].index == at && new[new.len() - 1].generation
                    == generation);
            }
        }
    }
}

/// A pass looks at every target, or at 128 of them where there are more.
pub proof fn law_search_is_bounded(task: TaskView)
    ensures
        task.inspections() == (if task.targets.len() <= 128 {
            task.targets.len()
        } else {
            128
        }),
{
}

/// What is taken from the backlog is its first entry that still names a target
/// with a due probe. Only entries that no longer do are dropped on the way.
pub proof fn law_backlog_drops_what_is_out_of_date(task: TaskView, now: Instant)
    ensures
        ({
            let left = task.backlog_trimmed(now);
            let dropped = task.timeout_backlog.len() - left.len();
            let stands = |entry: TimeoutBacklogEntry|
                entry.index < task.targets.len() && task.targets[entry.index as int].instance.generation
                    == entry.generation && overdue(task.targets[entry.index as int], now);
            &&& 0 <= dropped
            &&& left == task.timeout_backlog.skip(dropped)
            &&& left.len() > 0 ==> stands(left[0])
            &&& forall|i: int| 0 <= i < dropped ==> !stands(#[trigger] task.timeout_backlog[i])
        }),
    decreases task.timeout_backlog.len(),
{
    let backlog = task.timeout_backlog;
    if backlog.len() == 0 || task.current(backlog[0], now) {
        assert(backlog.skip(0) =~= backlog);
    } else {
        let rest = TaskView { timeout_backlog: backlog.drop_first(), ..task };
        law_backlog_drops_what_is_out_of_date(rest, now);
        let left = rest.backlog_trimmed(now);
        let dropped = backlog.len() - left.len();
        assert(left =~= backlog.skip(dropped));
        let stands = |entry: TimeoutBacklogEntry|
            entry.index < task.targets.len() && task.targets[entry.index as int].instance.generation
                == entry.generation && overdue(task.targets[entry.index as int], now);
        assert forall|i: int| 0 <= i < dropped implies !stands(#[trigger] backlog[i]) by {
            if i > 0 {
                assert(rest.timeout_backlog[i - 1] == backlog[i]);
            }
        }
    }
}

} // verus!
