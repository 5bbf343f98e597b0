//! What holds of the driver as a whole.
use vstd::prelude::*;

use crate::error::ClientError;
use crate::event::ClientEvent;
use crate::history::law_eviction_preserves_aggregates;
use crate::model::{classified, EndReasonView, FailureView, ManagedTargetFailurePhase};
use crate::task::target::{
    ClientFacts, ClosePoll, ConnectPoll, OpenPoll, ReceivePoll, TargetPoll, TargetStateView,
    TimeoutPoll,
};
use crate::task::view::{
    close_timeout, duration_overflow, received_events, first_failure, lemma_client_events_frame,
    EffectView, TaskView,
};
use crate::timing::Instant;

verus! {

impl TaskView {
    /// Generations increase along the list and lie below the next one, no two
    /// desired targets share an identifier, only desired targets are free of a
    /// retirement, pacing counts only open sessions, and the counts of outcomes
    /// agree.
    pub open spec fn wf(self) -> bool {
        &&& forall|i: int, j: int|
            0 <= i < j < self.targets.len() ==> (#[trigger] self.targets[i]).instance.generation < (
            #[trigger] self.targets[j]).instance.generation
        &&& forall|i: int|
            0 <= i < self.targets.len() ==> {
                let target = #[trigger] self.targets[i];
                &&& target.instance.generation < self.next_generation
                &&& target.instance.id == target.config.id
                &&& target.desired ==> target.retirement is None
                &&& target.active ==> target.state is Active
            }
        &&& forall|i: int, j: int|
            0 <= i < j < self.targets.len() && (#[trigger] self.targets[i]).desired && (
            #[trigger] self.targets[j]).desired ==> self.targets[i].instance.id
                != self.targets[j].instance.id
        &&& self.history.consistent()
        &&& self.targets.len() <= self.config.max_live_target_generations
    }
}

/// `after` differs from `before` only in how the target at `index` stands, in
/// the outcomes recorded, in pacing and in what is reported.
pub open spec fn local_change(before: TaskView, after: TaskView, index: int) -> bool {
    &&& after.targets.len() == before.targets.len()
    &&& forall|j: int|
        0 <= j < before.targets.len() && j != index ==> #[trigger] after.targets[j]
            == before.targets[j]
    &&& after.targets[index].instance == before.targets[index].instance
    &&& after.targets[index].config == before.targets[index].config
    &&& after.targets[index].desired == before.targets[index].desired
    &&& after.targets[index].retirement == before.targets[index].retirement
    &&& (before.targets[index].active ==> before.targets[index].state is Active) ==> (
    after.targets[index].active ==> after.targets[index].state is Active)
    &&& after.next_generation == before.next_generation
    &&& after.applied_command_sequence == before.applied_command_sequence
    &&& after.config == before.config
    &&& after.state == before.state
    &&& before.history.consistent() ==> after.history.consistent()
    &&& after.history.limit == before.history.limit
}

/// A change of one target alone keeps the driver well formed.
pub proof fn lemma_local_change_keeps_wf(before: TaskView, after: TaskView, index: int)
    requires
        before.wf(),
        0 <= index < before.targets.len(),
        local_change(before, after, index),
    ensures
        after.wf(),
{
    assert forall|i: int| 0 <= i < after.targets.len() implies {
        let target = #[trigger] after.targets[i];
        &&& target.instance == before.targets[i].instance
        &&& target.config == before.targets[i].config
        &&& target.desired == before.targets[i].desired
        &&& target.retirement == before.targets[i].retirement
        &&& target.active ==> target.state is Active
    } by {
        let target = before.targets[i];
    }
}

proof fn lemma_events_local(task: TaskView, index: int, events: Seq<ClientEvent>)
    requires
        0 <= index < task.targets.len(),
    ensures
        local_change(task, task.client_events(index, events), index),
        task.client_events(index, events).targets[index].state == task.targets[index].state,
        task.client_events(index, events).history == task.history,
{
    lemma_client_events_frame(task, index, events);
}

proof fn lemma_installed_local(task: TaskView, index: int, state: TargetStateView, clock: Instant)
    requires
        0 <= index < task.targets.len(),
    ensures
        local_change(task, task.installed(index, state, clock), index),
        task.installed(index, state, clock).targets[index].state == state,
        task.installed(index, state, clock).history == task.history,
{
}

proof fn lemma_finished_local(
    task: TaskView,
    index: int,
    end_reason: EndReasonView,
    cleanup_failure: Option<FailureView>,
    clock: Instant,
)
    requires
        0 <= index < task.targets.len(),
    ensures
        local_change(task, task.finished(index, end_reason, cleanup_failure, clock), index),
        task.finished(index, end_reason, cleanup_failure, clock).targets[index].state is Terminal,
        task.finished(index, end_reason, cleanup_failure, clock).history == task.history.recorded(
            task.targets[index].outcome(end_reason, cleanup_failure),
        ),
{
    lemma_installed_local(task, index, TargetStateView::Terminal, clock);
    if task.history.consistent() {
        law_eviction_preserves_aggregates(
            task.history,
            task.targets[index].outcome(end_reason, cleanup_failure),
        );
    }
}

proof fn lemma_close_local(
    task: TaskView,
    index: int,
    primary_end: EndReasonView,
    cleanup_failure: Option<FailureView>,
    now: Instant,
    clock: Instant,
)
    requires
        0 <= index < task.targets.len(),
    ensures
        ({
            let after = task.close_begun(index, primary_end, cleanup_failure, now, clock);
            &&& local_change(task, after, index)
            &&& after.history == task.history
            &&& after.targets[index].state is Closing
            &&& after.targets[index].state->Closing_primary_end == primary_end
            &&& cleanup_failure is Some ==> after.targets[index].state->Closing_cleanup_failure
                == cleanup_failure
        }),
{
}

proof fn lemma_drain_local(
    task: TaskView,
    index: int,
    facts: ClientFacts,
    primary_end: EndReasonView,
    clock: Instant,
)
    requires
        0 <= index < task.targets.len(),
    ensures
        local_change(task, task.drain_begun(index, facts, primary_end, clock), index),
        task.drain_begun(index, facts, primary_end, clock).history == task.history,
{
}

proof fn lemma_session_failed_local(
    task: TaskView,
    index: int,
    facts: ClientFacts,
    phase: ManagedTargetFailurePhase,
    error: ClientError,
    drain: bool,
    now: Instant,
    clock: Instant,
)
    requires
        0 <= index < task.targets.len(),
    ensures
        local_change(
            task,
            task.session_failed(index, facts, phase, error, drain, now, clock),
            index,
        ),
{
}

proof fn lemma_local_trans(first: TaskView, second: TaskView, third: TaskView, index: int)
    requires
        0 <= index < first.targets.len(),
        local_change(first, second, index),
        local_change(second, third, index),
    ensures
        local_change(first, third, index),
{
    assert forall|j: int| 0 <= j < first.targets.len() && j != index implies #[trigger] third.targets[j]
        == first.targets[j] by {
        assert(second.targets[j] == first.targets[j]);
    }
}

proof fn lemma_packets_local(task: TaskView, index: int, packets_sent: u64)
    requires
        0 <= index < task.targets.len(),
    ensures
        local_change(task, task.with_packets_sent(index, packets_sent), index),
        task.with_packets_sent(index, packets_sent).history == task.history,
{
}

proof fn lemma_state_local(task: TaskView, index: int, state: TargetStateView)
    requires
        0 <= index < task.targets.len(),
        task.targets[index].state is Active ==> state is Active,
        task.targets[index].active ==> task.targets[index].state is Active,
    ensures
        local_change(task, task.with_state(index, state), index),
{
}

proof fn lemma_opening_local(
    task: TaskView,
    index: int,
    poll: TargetPoll,
    facts: ClientFacts,
    clock: Instant,
)
    requires
        0 <= index < task.targets.len(),
        task.targets[index].state is Opening,
        !task.targets[index].active,
    ensures
        local_change(task, task.opening_polled(index, poll, facts, clock).0, index),
{
    reveal(TaskView::opening_polled);
    let counted = task.with_packets_sent(index, facts.packets_sent);
    lemma_packets_local(task, index, facts.packets_sent);
    lemma_finished_local(counted, index, task.retirement(index), None, clock);
    lemma_local_trans(
        task,
        counted,
        counted.finished(index, task.retirement(index), None, clock),
        index,
    );
    match poll {
        TargetPoll::Open { poll: OpenPoll::Pending { in_flight } } => {
            lemma_state_local(task, index, TargetStateView::Opening { in_flight });
        },
        TargetPoll::Open { poll: OpenPoll::Started { event } } => {
            let reported = task.client_events(index, seq![event]);
            lemma_events_local(task, index, seq![event]);
            if task.retiring(index) {
                let noted = reported.with_packets_sent(index, facts.packets_sent);
                lemma_packets_local(reported, index, facts.packets_sent);
                lemma_local_trans(task, reported, noted, index);
                let reason = task.retirement(index);
                lemma_drain_local(noted, index, facts, reason, clock);
                lemma_local_trans(
                    task,
                    noted,
                    noted.drain_begun(index, facts, reason, clock),
                    index,
                );
            } else {
                let state = TargetStateView::Active { facts };
                lemma_installed_local(reported, index, state, clock);
                lemma_local_trans(task, reported, reported.installed(index, state, clock), index);
            }
        },
        TargetPoll::Open { poll: OpenPoll::NoTestCompleted { event } } => {
            let reported = task.client_events(index, seq![event]);
            lemma_events_local(task, index, seq![event]);
            let reason = if task.retiring(index) {
                task.retirement(index)
            } else {
                EndReasonView::NoTestComplete
            };
            lemma_finished_local(reported, index, reason, None, clock);
            lemma_local_trans(
                task,
                reported,
                reported.finished(index, reason, None, clock),
                index,
            );
        },
        TargetPoll::Open { poll: OpenPoll::Failed { error, stopped } } => {
            let failure = classified(ManagedTargetFailurePhase::Opening, error);
            lemma_finished_local(task, index, EndReasonView::Failed(failure), None, clock);
            lemma_finished_local(task, index, task.retirement(index), None, clock);
            lemma_finished_local(task, index, task.retirement(index), Some(failure), clock);
        },
        _ => {},
    }
}

proof fn lemma_active_local(
    task: TaskView,
    index: int,
    poll: TargetPoll,
    facts: ClientFacts,
    now: Instant,
    clock: Instant,
)
    requires
        0 <= index < task.targets.len(),
        task.targets[index].state is Active,
    ensures
        local_change(task, task.active_polled(index, poll, facts, now, clock).0, index),
{
    reveal(TaskView::active_polled);
    if task.retiring(index) {
        let dropped = task.effect(
            EffectView::DiscardPreparedProbe { target: task.targets[index].instance },
        );
        let noted = dropped.with_packets_sent(index, facts.packets_sent);
        lemma_packets_local(dropped, index, facts.packets_sent);
        lemma_drain_local(noted, index, facts, task.retirement(index), clock);
        lemma_local_trans(
            dropped,
            noted,
            noted.drain_begun(index, facts, task.retirement(index), clock),
            index,
        );
    } else if let TargetPoll::Receive { poll: received } = poll {
        let reported = task.client_events(index, received_events(received));
        lemma_events_local(task, index, received_events(received));
        let noted = reported.with_packets_sent(index, facts.packets_sent);
        lemma_packets_local(reported, index, facts.packets_sent);
        lemma_local_trans(task, reported, noted, index);
        lemma_finished_local(noted, index, EndReasonView::PeerClosed, None, clock);
        lemma_local_trans(
            task,
            noted,
            noted.finished(index, EndReasonView::PeerClosed, None, clock),
            index,
        );
        lemma_drain_local(noted, index, facts, EndReasonView::TestComplete, clock);
        lemma_local_trans(
            task,
            noted,
            noted.drain_begun(index, facts, EndReasonView::TestComplete, clock),
            index,
        );
        let still = reported.with_state(index, TargetStateView::Active { facts });
        assert(local_change(task, still, index));
        if let ReceivePoll::Failed { error } = received {
            lemma_session_failed_local(
                task,
                index,
                facts,
                ManagedTargetFailurePhase::Receiving,
                error,
                false,
                now,
                clock,
            );
        }
    }
}

proof fn lemma_draining_local(
    task: TaskView,
    index: int,
    poll: TargetPoll,
    facts: ClientFacts,
    now: Instant,
    clock: Instant,
)
    requires
        0 <= index < task.targets.len(),
        task.targets[index].state is Draining,
        !task.targets[index].active,
    ensures
        local_change(task, task.draining_polled(index, poll, facts, now, clock).0, index),
{
    reveal(TaskView::draining_polled);
    if let TargetPoll::Receive { poll: received } = poll {
        let primary_end = task.targets[index].state->Draining_primary_end;
        let cleanup = task.targets[index].state->Draining_cleanup_failure;
        let reported = task.client_events(index, received_events(received));
        lemma_events_local(task, index, received_events(received));
        if let ReceivePoll::Failed { error } = received {
            let noted = task.with_packets_sent(index, facts.packets_sent);
            lemma_packets_local(task, index, facts.packets_sent);
            let failure = first_failure(
                cleanup,
                classified(ManagedTargetFailurePhase::Receiving, error),
            );
            lemma_close_local(noted, index, primary_end, failure, now, clock);
            lemma_local_trans(
                task,
                noted,
                noted.close_begun(index, primary_end, failure, now, clock),
                index,
            );
        }
        let noted = reported.with_packets_sent(index, facts.packets_sent);
        lemma_packets_local(reported, index, facts.packets_sent);
        lemma_local_trans(task, reported, noted, index);
        lemma_finished_local(noted, index, EndReasonView::PeerClosed, cleanup, clock);
        lemma_local_trans(
            task,
            noted,
            noted.finished(index, EndReasonView::PeerClosed, cleanup, clock),
            index,
        );
        let overflow = first_failure(cleanup, duration_overflow());
        lemma_close_local(reported, index, primary_end, overflow, now, clock);
        lemma_local_trans(
            task,
            reported,
            reported.close_begun(index, primary_end, overflow, now, clock),
            index,
        );
        lemma_close_local(reported, index, primary_end, cleanup, now, clock);
        lemma_local_trans(
            task,
            reported,
            reported.close_begun(index, primary_end, cleanup, now, clock),
            index,
        );
        let after = task.draining_polled(index, poll, facts, now, clock).0;
        if after.targets[index].state is Draining {
            assert(after == task || after == reported.with_state(
                index,
                after.targets[index].state,
            ));
            assert(local_change(task, after, index));
        }
    }
}

proof fn lemma_closing_local(
    task: TaskView,
    index: int,
    poll: TargetPoll,
    facts: ClientFacts,
    now: Instant,
    clock: Instant,
)
    requires
        0 <= index < task.targets.len(),
        task.targets[index].state is Closing,
    ensures
        local_change(task, task.closing_polled(index, poll, facts, now, clock).0, index),
{
    reveal(TaskView::closing_polled);
    if let TargetPoll::Close { poll: closed } = poll {
        let primary_end = task.targets[index].state->Closing_primary_end;
        let cleanup = task.targets[index].state->Closing_cleanup_failure;
        let noted = task.with_packets_sent(index, facts.packets_sent);
        lemma_packets_local(task, index, facts.packets_sent);
        match closed {
            ClosePoll::Pending => {
                let failure = first_failure(cleanup, close_timeout());
                lemma_finished_local(noted, index, primary_end, failure, clock);
                lemma_local_trans(
                    task,
                    noted,
                    noted.finished(index, primary_end, failure, clock),
                    index,
                );
            },
            ClosePoll::Closed { events } => {
                let reported = noted.client_events(index, events@);
                lemma_events_local(noted, index, events@);
                lemma_local_trans(task, noted, reported, index);
                lemma_finished_local(reported, index, primary_end, cleanup, clock);
                lemma_local_trans(
                    task,
                    reported,
                    reported.finished(index, primary_end, cleanup, clock),
                    index,
                );
            },
            ClosePoll::Failed { error } => {
                let failure = first_failure(
                    cleanup,
                    classified(ManagedTargetFailurePhase::Closing, error),
                );
                lemma_finished_local(noted, index, primary_end, failure, clock);
                lemma_local_trans(
                    task,
                    noted,
                    noted.finished(index, primary_end, failure, clock),
                    index,
                );
            },
        }
    }
}

proof fn lemma_connecting_local(task: TaskView, index: int, poll: TargetPoll, clock: Instant)
    requires
        0 <= index < task.targets.len(),
    ensures
        task.targets[index].state is Pending ==> local_change(
            task,
            task.pending_polled(index, clock).0,
            index,
        ),
        task.targets[index].state is Connecting ==> local_change(
            task,
            task.connecting_polled(index, poll, clock).0,
            index,
        ),
{
    reveal(TaskView::pending_polled);
    reveal(TaskView::connecting_polled);
    lemma_finished_local(task, index, task.retirement(index), None, clock);
    if let TargetPoll::Connect { poll: ConnectPoll::Failed { error } } = poll {
        lemma_finished_local(
            task,
            index,
            EndReasonView::Failed(classified(ManagedTargetFailurePhase::Connecting, error)),
            None,
            clock,
        );
    }
}

/// A step of one target leaves all other targets, the desired set and the
/// generations alone, whatever was observed, and keeps the driver well formed.
pub proof fn law_step_is_local(
    task: TaskView,
    index: int,
    poll: TargetPoll,
    facts: ClientFacts,
    now: Instant,
    clock: Instant,
)
    requires
        task.wf(),
        0 <= index < task.targets.len(),
    ensures
        local_change(task, task.polled(index, poll, facts, now, clock).0, index),
        task.polled(index, poll, facts, now, clock).0.wf(),
{
    let target = task.targets[index];
    match target.state {
        TargetStateView::Pending { .. } => {
            lemma_connecting_local(task, index, poll, clock);
        },
        TargetStateView::Connecting => {
            lemma_connecting_local(task, index, poll, clock);
        },
        TargetStateView::Opening { .. } => {
            lemma_opening_local(task, index, poll, facts, clock);
        },
        TargetStateView::Active { .. } => {
            lemma_active_local(task, index, poll, facts, now, clock);
        },
        TargetStateView::Draining { .. } => {
            lemma_draining_local(task, index, poll, facts, now, clock);
        },
        TargetStateView::Closing { .. } => {
            lemma_closing_local(task, index, poll, facts, now, clock);
        },
        TargetStateView::Terminal => {},
    }
    lemma_local_change_keeps_wf(task, task.polled(index, poll, facts, now, clock).0, index);
}

/// Expiring a probe of one target leaves all other targets, the desired set
/// and the generations alone, and keeps the driver well formed.
pub proof fn law_expiry_is_local(
    task: TaskView,
    index: int,
    poll: TimeoutPoll,
    facts: ClientFacts,
    now: Instant,
    clock: Instant,
)
    requires
        task.wf(),
        0 <= index < task.targets.len(),
    ensures
        local_change(task, task.expired(index, poll, facts, now, clock), index),
        task.expired(index, poll, facts, now, clock).wf(),
{
    let after = task.expired(index, poll, facts, now, clock);
    let target = task.targets[index];
    match poll {
        TimeoutPoll::Failed { error } => {
            lemma_session_failed_local(
                task,
                index,
                facts,
                ManagedTargetFailurePhase::Timing,
                error,
                false,
                now,
                clock,
            );
            if target.state is Draining {
                let noted = task.with_packets_sent(index, facts.packets_sent);
                lemma_packets_local(task, index, facts.packets_sent);
                let failure = first_failure(
                    target.state->Draining_cleanup_failure,
                    classified(ManagedTargetFailurePhase::Timing, error),
                );
                lemma_close_local(
                    noted,
                    index,
                    target.state->Draining_primary_end,
                    failure,
                    now,
                    clock,
                );
                lemma_local_trans(task, noted, after, index);
            }
        },
        TimeoutPoll::Expired { events } => {
            let reported = task.client_events(index, events@);
            lemma_events_local(task, index, events@);
            if target.state is Draining {
                let failure = first_failure(
                    target.state->Draining_cleanup_failure,
                    duration_overflow(),
                );
                lemma_close_local(
                    reported,
                    index,
                    target.state->Draining_primary_end,
                    failure,
                    now,
                    clock,
                );
                if after.targets[index].state is Draining {
                    assert(after == reported.with_state(index, after.targets[index].state));
                    assert(local_change(task, after, index));
                } else {
                    lemma_local_trans(task, reported, after, index);
                }
            } else if target.state is Active {
                assert(after == reported.with_state(index, TargetStateView::Active { facts }));
                assert(local_change(task, after, index));
            }
        },
    }
    lemma_local_change_keeps_wf(task, after, index);
}

/// Starting, stopping, planning and ending keep the driver well formed.
pub proof fn law_driver_steps_keep_well_formed(
    task: TaskView,
    stop_requested: bool,
    runtime_available: bool,
    seen: nat,
    now: Instant,
)
    requires
        task.wf(),
    ensures
        task.poll_begun(stop_requested, runtime_available).wf(),
        task.completed().wf(),
        task.abandoned().wf(),
        task.target_pass_taken().wf(),
        task.burst_pass_taken().wf(),
        task.discovered(seen, now).wf(),
    decreases seen,
{
    if seen > 0 {
        law_driver_steps_keep_well_formed(
            task,
            stop_requested,
            runtime_available,
            (seen - 1) as nat,
            now,
        );
    }
}

} // verus!
