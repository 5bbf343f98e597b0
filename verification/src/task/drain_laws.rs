//! What holds of draining, closing and ending targets, and of the passes.
use vstd::prelude::*;

use crate::model::{classified, EndReasonView, EventView, FailureView, ManagedTargetFailurePhase};
use crate::ring::lemma_ring_step;
use crate::task::drive_view::{overdue, ring, sendable, SendObservation, SendPoll};
use crate::task::laws::{lemma_local_change_keeps_wf, local_change};
use crate::task::target::{
    ClientFacts, ClosePoll, ReceivePoll, TargetPoll, TargetStateView, TargetView, TimeoutPoll,
};
use crate::task::view::{
    drain_deadline, expiry_due, first_failure, lemma_client_events_frame, received_events,
    EffectView, TaskView,
};
use crate::timing::{Duration, Instant};

verus! {

/// The reason for which a winding-down target ends, as long as it winds down.
pub open spec fn primary_end(state: TargetStateView) -> Option<EndReasonView> {
    match state {
        TargetStateView::Draining { primary_end, .. } => Some(primary_end),
        TargetStateView::Closing { primary_end, .. } => Some(primary_end),
        _ => None,
    }
}

/// The first failure of a winding-down target, as long as it winds down.
pub open spec fn cleanup_failure(state: TargetStateView) -> Option<FailureView> {
    match state {
        TargetStateView::Draining { cleanup_failure, .. } => cleanup_failure,
        TargetStateView::Closing { cleanup_failure, .. } => cleanup_failure,
        _ => None,
    }
}

/// `after` ends the target at `index` with the outcome that `end_reason` and
/// `cleanup` make.
pub open spec fn ended(
    before: TaskView,
    after: TaskView,
    index: int,
    end_reason: EndReasonView,
    cleanup: Option<FailureView>,
) -> bool {
    &&& after.targets[index].state is Terminal
    &&& exists|target: TargetView|
        {
            &&& target.instance == before.targets[index].instance
            &&& after.history == before.history.recorded(
                #[trigger] target.outcome(end_reason, cleanup),
            )
        }
}

/// Draining and closing a target never change why it ends, save that the peer
/// closed it first, and never replace the first failure on the way.
pub proof fn law_cleanup_preserves_primary_outcome(
    task: TaskView,
    index: int,
    poll: TargetPoll,
    facts: ClientFacts,
    now: Instant,
    clock: Instant,
)
    requires
        0 <= index < task.targets.len(),
        primary_end(task.targets[index].state) is Some,
    ensures
        ({
            let before = task.targets[index].state;
            let after = task.polled(index, poll, facts, now, clock).0;
            let state = after.targets[index].state;
            ||| primary_end(state) == primary_end(before) && (cleanup_failure(before) is Some
                ==> cleanup_failure(state) == cleanup_failure(before)) && after.history
                == task.history
            ||| exists|cleanup: Option<FailureView>|
                {
                    &&& #[trigger] ended(task, after, index, primary_end(before)->0, cleanup)
                    &&& cleanup_failure(before) is Some ==> cleanup == cleanup_failure(before)
                }
            ||| before is Draining && facts.peer_closed && ended(
                task,
                after,
                index,
                EndReasonView::PeerClosed,
                cleanup_failure(before),
            )
        }),
{
    let before = task.targets[index].state;
    let after = task.polled(index, poll, facts, now, clock).0;
    match before {
        TargetStateView::Draining { .. } => {
            reveal(TaskView::draining_polled);
            if let TargetPoll::Receive { poll: received } = poll {
                lemma_client_events_frame(task, index, received_events(received));
                let reported = task.client_events(index, received_events(received));
                let noted = reported.with_packets_sent(index, facts.packets_sent);
                if !expiry_due(before->Draining_facts, now) && !(received is Failed)
                    && facts.peer_closed {
                    let outcome = noted.targets[index].outcome(
                        EndReasonView::PeerClosed,
                        cleanup_failure(before),
                    );
                    assert(after.history == task.history.recorded(outcome));
                }
            }
        },
        TargetStateView::Closing { .. } => {
            reveal(TaskView::closing_polled);
            if let TargetPoll::Close { poll: closed } = poll {
                let noted = task.with_packets_sent(index, facts.packets_sent);
                if let ClosePoll::Closed { events } = closed {
                    lemma_client_events_frame(noted, index, events@);
                    let reported = noted.client_events(index, events@);
                    assert(after.history == task.history.recorded(
                        reported.targets[index].outcome(
                            primary_end(before)->0,
                            cleanup_failure(before),
                        ),
                    ));
                    assert(ended(
                        task,
                        after,
                        index,
                        primary_end(before)->0,
                        cleanup_failure(before),
                    ));
                } else if after.targets[index].state is Terminal {
                    let failure = match closed {
                        ClosePoll::Failed { error } => classified(
                            ManagedTargetFailurePhase::Closing,
                            error,
                        ),
                        _ => crate::task::view::close_timeout(),
                    };
                    let cleanup = first_failure(cleanup_failure(before), failure);
                    assert(after.history == task.history.recorded(
                        noted.targets[index].outcome(primary_end(before)->0, cleanup),
                    ));
                    assert(ended(task, after, index, primary_end(before)->0, cleanup));
                }
            }
        },
        _ => {},
    }
}

/// A peer that closes the session is decisive for an active target that is not
/// to end otherwise: the target ends at once as closed by its peer.
pub proof fn law_peer_close_is_authoritative(
    task: TaskView,
    index: int,
    received: ReceivePoll,
    facts: ClientFacts,
    now: Instant,
    clock: Instant,
)
    requires
        0 <= index < task.targets.len(),
        task.targets[index].state is Active,
        !task.retiring(index),
        !expiry_due(task.targets[index].state->Active_facts, now),
        !(received is Failed),
        facts.peer_closed,
    ensures
        ({
            let poll = TargetPoll::Receive { poll: received };
            let after = task.polled(index, poll, facts, now, clock).0;
            ended(task, after, index, EndReasonView::PeerClosed, None)
        }),
{
    reveal(TaskView::active_polled);
    lemma_client_events_frame(task, index, received_events(received));
    let noted = task.client_events(index, received_events(received)).with_packets_sent(
        index,
        facts.packets_sent,
    );
    let poll = TargetPoll::Receive { poll: received };
    let after = task.polled(index, poll, facts, now, clock).0;
    assert(after.history == task.history.recorded(
        noted.targets[index].outcome(EndReasonView::PeerClosed, None),
    ));
}

/// A drain ends no later than first planned: its deadline moves only closer,
/// and what is left of its receives after the deadline only shrinks.
pub proof fn law_drain_only_shortens(
    task: TaskView,
    index: int,
    poll: TargetPoll,
    facts: ClientFacts,
    now: Instant,
    clock: Instant,
)
    requires
        0 <= index < task.targets.len(),
        task.targets[index].state is Draining,
        task.polled(index, poll, facts, now, clock).0.targets[index].state is Draining,
    ensures
        ({
            let before = task.targets[index].state;
            let after = task.polled(index, poll, facts, now, clock).0.targets[index].state;
            &&& after->Draining_deadline.nanos <= before->Draining_deadline.nanos
            &&& after->Draining_drain_started_at == before->Draining_drain_started_at
            &&& after->Draining_post_deadline_receives_remaining
                <= before->Draining_post_deadline_receives_remaining
            &&& poll.answers(task.request(index, now)) && !expiry_due(before->Draining_facts, now)
                && now.nanos >= after->Draining_deadline.nanos
                ==> after->Draining_post_deadline_receives_remaining
                < before->Draining_post_deadline_receives_remaining
        }),
{
    reveal(TaskView::draining_polled);
    if let TargetPoll::Receive { poll: received } = poll {
        lemma_client_events_frame(task, index, received_events(received));
    }
}

/// A drain lasts at least the final drain beyond its start and beyond the
/// deadline of every probe that could still be answered late.
pub proof fn law_drain_covers_late_replies(
    latest: Option<Instant>,
    started_at: Instant,
    final_drain: Duration,
)
    requires
        drain_deadline(latest, started_at, final_drain) is Some,
    ensures
        ({
            let deadline = drain_deadline(latest, started_at, final_drain)->0;
            &&& deadline.nanos >= started_at.nanos + final_drain.nanos
            &&& latest matches Some(latest) ==> deadline.nanos >= latest.nanos + final_drain.nanos
        }),
{
}

/// A target that has ended stays as it is: no step, expiration or send changes
/// it or records a second outcome.
pub proof fn law_ended_target_is_final(
    task: TaskView,
    index: int,
    poll: TargetPoll,
    timeout: TimeoutPoll,
    facts: ClientFacts,
    now: Instant,
    clock: Instant,
)
    requires
        0 <= index < task.targets.len(),
        task.targets[index].state is Terminal,
    ensures
        task.polled(index, poll, facts, now, clock) == (task, false),
        task.expired(index, timeout, facts, now, clock) == task,
        !sendable(task.targets[index], now),
        !overdue(task.targets[index], now),
{
}

/// A target that is to end, or whose due probes are not yet reported lost, is
/// never asked to send.
pub proof fn law_send_waits_for_losses(target: TargetView, now: Instant)
    ensures
        overdue(target, now) ==> !sendable(target, now),
        target.retirement is Some ==> !sendable(target, now),
        !target.desired ==> !sendable(target, now),
{
}

/// The change of a target's state is reported right after the status that
/// shows it, and its outcome right after the status that counts it.
pub proof fn law_status_precedes_event(
    task: TaskView,
    index: int,
    state: TargetStateView,
    end_reason: EndReasonView,
    cleanup: Option<FailureView>,
    clock: Instant,
)
    requires
        0 <= index < task.targets.len(),
    ensures
        ({
            let after = task.installed(index, state, clock);
            let n = task.outbox.len() as int;
            &&& after.outbox.len() == n + 2
            &&& after.outbox[n] matches EffectView::Status { status } && status.targets[index].lifecycle
                == state.lifecycle() && status.targets[index].target
                == task.targets[index].instance
            &&& after.outbox[n + 1] == (EffectView::Event {
                event: EventView::TargetStateChanged {
                    target: task.targets[index].instance,
                    lifecycle: state.lifecycle(),
                },
            })
        }),
        ({
            let after = task.finished(index, end_reason, cleanup, clock);
            let outcome = task.targets[index].outcome(end_reason, cleanup);
            let n = task.outbox.len() as int;
            &&& after.outbox.len() == n + 4
            &&& after.outbox[n + 2] matches EffectView::Status { status }
                && status.total_target_outcomes == task.history.recorded(outcome).total
                && status.recent_target_outcomes == task.history.recorded(outcome).recent
            &&& after.outbox[n + 3] == (EffectView::Event {
                event: EventView::TargetFinished { outcome },
            })
        }),
{
}

/// A send keeps all other targets, the desired set and the generations.
pub proof fn law_send_is_local(
    task: TaskView,
    index: int,
    observed: SendObservation,
    spacing: Option<(usize, Duration)>,
    now: Instant,
    clock: Instant,
)
    requires
        0 <= index < task.targets.len(),
        task.targets[index].state is Active,
    ensures
        local_change(task, task.send_made(index, observed, spacing, now, clock).0, index),
{
    let facts = observed.facts;
    let noted = task.acceptance_recorded(
        observed.result(),
        spacing,
        observed.accepted_at,
    ).with_packets_sent(index, facts.packets_sent);
    let settled = noted.with_target(
        index,
        TargetView { send_waiting: observed.poll is Pending, ..noted.targets[index] },
    ).with_state(index, TargetStateView::Active { facts });
    assert(local_change(task, settled, index));
    if let SendPoll::Sent { events } = observed.poll {
        lemma_client_events_frame(settled, index, events@);
        let reported = settled.client_events(index, events@);
        assert(local_change(task, reported, index));
    }
}

/// A send keeps the driver well formed.
pub proof fn law_send_keeps_well_formed(
    task: TaskView,
    index: int,
    observed: SendObservation,
    spacing: Option<(usize, Duration)>,
    now: Instant,
    clock: Instant,
)
    requires
        task.wf(),
        0 <= index < task.targets.len(),
        task.targets[index].state is Active,
    ensures
        task.send_made(index, observed, spacing, now, clock).0.wf(),
{
    law_send_is_local(task, index, observed, spacing, now, clock);
    lemma_local_change_keeps_wf(
        task,
        task.send_made(index, observed, spacing, now, clock).0,
        index,
    );
}

/// A full round from any cursor visits every target.
pub proof fn law_round_visits_every_target(cursor: usize, len: nat, index: int)
    requires
        0 <= index < len,
    ensures
        exists|step: nat| step < len && #[trigger] ring(cursor, step, len) == index,
{
    let start = cursor as int % len as int;
    lemma_ring_step(cursor as int, len as int);
    let step = if index >= start {
        (index - start) as nat
    } else {
        (index - start + len) as nat
    };
    let n = len as int;
    let q = cursor as int / n;
    vstd::arithmetic::div_mod::lemma_fundamental_div_mod(cursor as int, n);
    let total = cursor as int + step as int;
    if index >= start {
        assert(total == q * n + index) by (nonlinear_arith)
            requires
                cursor as int == n * q + start,
                total == cursor as int + (index - start),
        ;
        vstd::arithmetic::div_mod::lemma_fundamental_div_mod_converse(total, n, q, index);
    } else {
        assert(total == (q + 1) * n + index) by (nonlinear_arith)
            requires
                cursor as int == n * q + start,
                total == cursor as int + (index - start + n),
        ;
        vstd::arithmetic::div_mod::lemma_fundamental_div_mod_converse(total, n, q + 1, index);
    }
    assert(ring(cursor, step, len) == index);
}

} // verus!
