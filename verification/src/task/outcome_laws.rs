//! Every target that ends yields one outcome.
use vstd::prelude::*;

use crate::event::ClientEvent;
use crate::model::{classified, EndReasonView, FailureView, ManagedTargetFailurePhase};
use crate::task::target::{
    ClientFacts, ClosePoll, ConnectPoll, OpenPoll, TargetPoll, TargetStateView, TimeoutPoll,
};
use crate::task::view::{
    close_timeout, first_failure, lemma_client_events_frame, received_events, TaskView,
};
use crate::timing::Instant;

verus! {

/// The history gains one outcome of the target where it has ended, and none
/// where it has not.
pub open spec fn outcome_kept(before: TaskView, after: TaskView, index: int) -> bool {
    if after.targets[index].state is Terminal {
        exists|reason: EndReasonView, cleanup: Option<FailureView>|
            after.history == before.history.recorded(
                #[trigger] after.targets[index].outcome(reason, cleanup),
            )
    } else {
        after.history == before.history
    }
}

proof fn lemma_finish_records(
    task: TaskView,
    index: int,
    reason: EndReasonView,
    cleanup: Option<FailureView>,
    clock: Instant,
)
    requires
        0 <= index < task.targets.len(),
    ensures
        outcome_kept(task, task.finished(index, reason, cleanup, clock), index),
{
    let after = task.finished(index, reason, cleanup, clock);
    assert(after.targets[index].outcome(reason, cleanup) == task.targets[index].outcome(
        reason,
        cleanup,
    ));
}

/// Counting and reporting events of a session records nothing.
proof fn lemma_events_record_nothing(task: TaskView, index: int, events: Seq<ClientEvent>)
    requires
        0 <= index < task.targets.len(),
    ensures
        task.client_events(index, events).history == task.history,
        task.client_events(index, events).targets.len() == task.targets.len(),
        task.client_events(index, events).targets[index].state == task.targets[index].state,
{
    lemma_client_events_frame(task, index, events);
}

proof fn lemma_connecting_records(task: TaskView, index: int, poll: TargetPoll, clock: Instant)
    requires
        0 <= index < task.targets.len(),
    ensures
        task.targets[index].state is Pending ==> outcome_kept(
            task,
            task.pending_polled(index, clock).0,
            index,
        ),
        task.targets[index].state is Connecting ==> outcome_kept(
            task,
            task.connecting_polled(index, poll, clock).0,
            index,
        ),
{
    reveal(TaskView::pending_polled);
    reveal(TaskView::connecting_polled);
    lemma_finish_records(task, index, task.retirement(index), None, clock);
    if let TargetPoll::Connect { poll: ConnectPoll::Failed { error } } = poll {
        lemma_finish_records(
            task,
            index,
            EndReasonView::Failed(classified(ManagedTargetFailurePhase::Connecting, error)),
            None,
            clock,
        );
    }
}

proof fn lemma_opening_records(
    task: TaskView,
    index: int,
    poll: TargetPoll,
    facts: ClientFacts,
    clock: Instant,
)
    requires
        0 <= index < task.targets.len(),
        task.targets[index].state is Opening,
    ensures
        outcome_kept(task, task.opening_polled(index, poll, facts, clock).0, index),
{
    reveal(TaskView::opening_polled);
    lemma_finish_records(
        task.with_packets_sent(index, facts.packets_sent),
        index,
        task.retirement(index),
        None,
        clock,
    );
    match poll {
        TargetPoll::Open { poll: OpenPoll::Started { event } } => {
            lemma_events_record_nothing(task, index, seq![event]);
        },
        TargetPoll::Open { poll: OpenPoll::NoTestCompleted { event } } => {
            lemma_events_record_nothing(task, index, seq![event]);
            let reported = task.client_events(index, seq![event]);
            lemma_finish_records(reported, index, task.retirement(index), None, clock);
            lemma_finish_records(reported, index, EndReasonView::NoTestComplete, None, clock);
        },
        TargetPoll::Open { poll: OpenPoll::Failed { error, stopped } } => {
            let failure = classified(ManagedTargetFailurePhase::Opening, error);
            lemma_finish_records(task, index, task.retirement(index), None, clock);
            lemma_finish_records(task, index, task.retirement(index), Some(failure), clock);
            lemma_finish_records(task, index, EndReasonView::Failed(failure), None, clock);
        },
        _ => {},
    }
}

proof fn lemma_active_records(
    task: TaskView,
    index: int,
    poll: TargetPoll,
    facts: ClientFacts,
    now: Instant,
    clock: Instant,
)
    requires
        0 <= index < task.targets.len(),
        task.targets[index].state is Active,
    ensures
        outcome_kept(task, task.active_polled(index, poll, facts, now, clock).0, index),
{
    reveal(TaskView::active_polled);
    if let TargetPoll::Receive { poll: received } = poll {
        lemma_events_record_nothing(task, index, received_events(received));
        lemma_finish_records(
            task.client_events(index, received_events(received)).with_packets_sent(
                index,
                facts.packets_sent,
            ),
            index,
            EndReasonView::PeerClosed,
            None,
            clock,
        );
    }
}

proof fn lemma_draining_records(
    task: TaskView,
    index: int,
    poll: TargetPoll,
    facts: ClientFacts,
    now: Instant,
    clock: Instant,
)
    requires
        0 <= index < task.targets.len(),
        task.targets[index].state is Draining,
    ensures
        outcome_kept(task, task.draining_polled(index, poll, facts, now, clock).0, index),
{
    reveal(TaskView::draining_polled);
    if let TargetPoll::Receive { poll: received } = poll {
        lemma_events_record_nothing(task, index, received_events(received));
        lemma_finish_records(
            task.client_events(index, received_events(received)).with_packets_sent(
                index,
                facts.packets_sent,
            ),
            index,
            EndReasonView::PeerClosed,
            task.targets[index].state->Draining_cleanup_failure,
            clock,
        );
    }
}

proof fn lemma_closing_records(
    task: TaskView,
    index: int,
    poll: TargetPoll,
    facts: ClientFacts,
    now: Instant,
    clock: Instant,
)
    requires
        0 <= index < task.targets.len(),
        task.targets[index].state is Closing,
    ensures
        outcome_kept(task, task.closing_polled(index, poll, facts, now, clock).0, index),
{
    reveal(TaskView::closing_polled);
    let noted = task.with_packets_sent(index, facts.packets_sent);
    let primary = task.targets[index].state->Closing_primary_end;
    let cleanup = task.targets[index].state->Closing_cleanup_failure;
    match poll {
        TargetPoll::Close { poll: ClosePoll::Pending } => {
            lemma_finish_records(
                noted,
                index,
                primary,
                first_failure(cleanup, close_timeout()),
                clock,
            );
        },
        TargetPoll::Close { poll: ClosePoll::Closed { events } } => {
            lemma_events_record_nothing(noted, index, events@);
            lemma_finish_records(
                noted.client_events(index, events@),
                index,
                primary,
                cleanup,
                clock,
            );
        },
        TargetPoll::Close { poll: ClosePoll::Failed { error } } => {
            lemma_finish_records(
                noted,
                index,
                primary,
                first_failure(cleanup, classified(ManagedTargetFailurePhase::Closing, error)),
                clock,
            );
        },
        _ => {},
    }
}

/// A step of a target that has not ended records its outcome exactly where it
/// ends the target.
pub proof fn law_ending_records_one_outcome(
    task: TaskView,
    index: int,
    poll: TargetPoll,
    facts: ClientFacts,
    now: Instant,
    clock: Instant,
)
    requires
        0 <= index < task.targets.len(),
        !(task.targets[index].state is Terminal),
    ensures
        outcome_kept(task, task.polled(index, poll, facts, now, clock).0, index),
{
    match task.targets[index].state {
        TargetStateView::Pending { .. } => {
            lemma_connecting_records(task, index, poll, clock);
        },
        TargetStateView::Connecting => {
            lemma_connecting_records(task, index, poll, clock);
        },
        TargetStateView::Opening { .. } => {
            lemma_opening_records(task, index, poll, facts, clock);
        },
        TargetStateView::Active { .. } => {
            lemma_active_records(task, index, poll, facts, now, clock);
        },
        TargetStateView::Draining { .. } => {
            lemma_draining_records(task, index, poll, facts, now, clock);
        },
        TargetStateView::Closing { .. } => {
            lemma_closing_records(task, index, poll, facts, now, clock);
        },
        TargetStateView::Terminal => {},
    }
}

/// Expiring a probe ends no target and records nothing.
pub proof fn law_expiry_ends_no_target(
    task: TaskView,
    index: int,
    poll: TimeoutPoll,
    facts: ClientFacts,
    now: Instant,
    clock: Instant,
)
    requires
        0 <= index < task.targets.len(),
        !(task.targets[index].state is Terminal),
    ensures
        ({
            let after = task.expired(index, poll, facts, now, clock);
            &&& !(after.targets[index].state is Terminal)
            &&& after.history == task.history
        }),
{
    if let TimeoutPoll::Expired { events } = poll {
        lemma_events_record_nothing(task, index, events@);
    }
}

} // verus!
