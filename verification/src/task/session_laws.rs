//! What holds of the session of one target from its configuration to its end.
use vstd::prelude::*;

use crate::config::ClientConfigView;
use crate::counting::{capped_sum, lemma_filter_empty, lemma_filter_last};
use crate::event::ClientEvent;
use crate::model::{
    EndReasonView, EventView, FailureView, ManagedClientConfigView, ManagedTargetFailurePhase,
    OutcomeView, TargetConfigView,
};
use crate::task::construct::initial_targets;
use crate::task::plan_view::{additions, effective_config, remaining, running};
use crate::task::target::{
    ClientFacts, ClosePoll, ConnectPoll, OpenPoll, ReceivePoll, TargetPoll, TargetRequest,
    TargetStateView, TargetView, TimeoutPoll,
};
use crate::task::view::{lemma_client_events_frame, received_events, DriverState, EffectView, TaskView};
use crate::timing::{Instant, MAX_INSTANT_NANOS};

verus! {

/// `config` is the shared configuration with the endpoint of the target, and
/// with the key of the target where that has one of its own.
pub open spec fn configured_for(
    config: ClientConfigView,
    shared: ClientConfigView,
    target: TargetConfigView,
) -> bool {
    &&& config.server_addr == target.server_addr
    &&& target.auth is None ==> config.hmac_key == shared.hmac_key
    &&& target.auth matches Some(key) ==> config.hmac_key == key
    &&& config.duration == shared.duration
    &&& config.interval == shared.interval
    &&& config.dscp == shared.dscp
    &&& config.run_mode == shared.run_mode
    &&& config.negotiation_policy == shared.negotiation_policy
    &&& config.open_timeouts == shared.open_timeouts
    &&& config.probe_timeout == shared.probe_timeout
    &&& config.max_pending_probes == shared.max_pending_probes
    &&& config.socket_config == shared.socket_config
}

/// A target without a key of its own is reached with the shared configuration
/// in everything but the endpoint, and one with a key of its own differs from
/// that in the key only.
pub proof fn law_targets_share_one_configuration(
    shared: ClientConfigView,
    target: TargetConfigView,
    other: TargetConfigView,
)
    ensures
        configured_for(effective_config(shared, target), shared, target),
        target.auth is None ==> effective_config(shared, target) == (ClientConfigView {
            server_addr: target.server_addr,
            ..shared
        }),
        target.server_addr == other.server_addr ==> effective_config(shared, target) == (
        ClientConfigView {
            hmac_key: effective_config(shared, target).hmac_key,
            ..effective_config(shared, other)
        }),
        effective_config(effective_config(shared, other), TargetConfigView { auth: None, ..target })
            == (ClientConfigView {
            server_addr: target.server_addr,
            ..effective_config(shared, other)
        }),
{
}

/// The targets with which a driver is constructed are to connect with the
/// shared configuration and their own endpoint and key.
pub proof fn law_initial_targets_are_configured(
    config: ManagedClientConfigView,
    wanted: Seq<TargetConfigView>,
    i: int,
)
    requires
        0 <= i < wanted.len() < u64::MAX,
    ensures
        ({
            let target = initial_targets(config.client, wanted)[i];
            &&& initial_targets(config.client, wanted).len() == wanted.len()
            &&& target.config == wanted[i]
            &&& target.instance.id == wanted[i].id
            &&& target.instance.generation == i + 1
            &&& target.desired && target.retirement is None && target.remote is None
            &&& target.state matches TargetStateView::Pending { client_config } && configured_for(
                client_config,
                config.client,
                wanted[i],
            )
            &&& target.counters.packets_sent == 0 && target.counters.replies_received == 0
                && target.counters.duplicates == 0 && target.counters.late == 0
                && target.counters.warning_events == 0
        }),
{
}

/// The targets that an update adds are those it names and that were not there,
/// in order, each to connect with the shared configuration and its own endpoint
/// and key, and with consecutive generations.
pub proof fn law_added_targets_are_configured(
    targets: Seq<TargetView>,
    wanted: Seq<TargetConfigView>,
    shared: ClientConfigView,
    next_generation: u64,
    i: int,
)
    requires
        0 <= i < additions(targets, wanted, shared, next_generation).len(),
        next_generation + additions(targets, wanted, shared, next_generation).len() <= u64::MAX,
    ensures
        ({
            let target = additions(targets, wanted, shared, next_generation)[i];
            &&& wanted.contains(target.config)
            &&& !running(targets, target.config)
            &&& target.instance.id == target.config.id
            &&& target.instance.generation == next_generation + i
            &&& target.desired && target.retirement is None && target.remote is None
            &&& target.state matches TargetStateView::Pending { client_config } && configured_for(
                client_config,
                shared,
                target.config,
            )
        }),
    decreases wanted.len(),
{
    if wanted.len() > 0 {
        let rest = wanted.drop_last();
        let before = additions(targets, rest, shared, next_generation);
        let added = additions(targets, wanted, shared, next_generation);
        if i < before.len() {
            assert(added[i] == before[i]);
            law_added_targets_are_configured(targets, rest, shared, next_generation, i);
            let k = choose|k: int| 0 <= k < rest.len() && rest[k] == before[i].config;
            assert(wanted[k] == before[i].config);
        } else {
            assert(wanted[wanted.len() - 1] == added[i].config);
        }
    }
}

/// After an update the new targets stand behind those that stay, and are to
/// connect with the shared configuration.
pub proof fn law_updated_targets_are_configured(
    task: TaskView,
    wanted: Seq<TargetConfigView>,
    now: Instant,
    i: int,
)
    requires
        remaining(task.targets, wanted).len() <= i < task.applied(wanted, now).targets.len(),
        task.next_generation + task.added(wanted).len() <= u64::MAX,
    ensures
        ({
            let target = task.applied(wanted, now).targets[i];
            &&& wanted.contains(target.config)
            &&& target.instance.generation == task.next_generation + i - remaining(
                task.targets,
                wanted,
            ).len()
            &&& target.state matches TargetStateView::Pending { client_config } && configured_for(
                client_config,
                task.config.client,
                target.config,
            )
        }),
{
    let kept = remaining(task.targets, wanted).len();
    law_added_targets_are_configured(
        task.targets,
        wanted,
        task.config.client,
        task.next_generation,
        i - kept,
    );
}

/// The target at `index` is to end: the driver stops, or an update took the
/// target out.
pub open spec fn winds_up(task: TaskView, index: int) -> bool {
    task.state == DriverState::Stopping || task.targets[index].retirement is Some
}

/// For what reason a target that is to end does so.
pub open spec fn wind_up_reason(task: TaskView, index: int) -> EndReasonView {
    if task.targets[index].retirement is Some {
        task.targets[index].retirement->0
    } else {
        EndReasonView::Stopped
    }
}

/// `after` differs from `before` in that the target at `index` has ended for
/// `reason`. The outcome names the target, tells what was counted for it, is
/// recorded, and is reported last.
pub open spec fn target_ended(
    before: TaskView,
    after: TaskView,
    index: int,
    reason: EndReasonView,
    cleanup: Option<FailureView>,
) -> bool {
    let target = after.targets[index];
    &&& target.state is Terminal
    &&& !target.active
    &&& target.instance == before.targets[index].instance
    &&& after.outbox.len() > before.outbox.len()
    &&& after.outbox.last() is Event
    &&& after.outbox.last()->event is TargetFinished
    &&& after.outbox.last()->event->TargetFinished_outcome == (OutcomeView {
        target: before.targets[index].instance,
        server_addr: before.targets[index].config.server_addr,
        remote: before.targets[index].remote,
        end_reason: reason,
        packets_sent: target.counters.packets_sent,
        replies_received: target.counters.replies_received,
        duplicates: target.counters.duplicates,
        late: target.counters.late,
        warning_events: target.counters.warning_events,
        cleanup_failure: cleanup,
    })
    &&& after.history == before.history.recorded(
        after.outbox.last()->event->TargetFinished_outcome,
    )
}

/// The failure is one of `phase`.
pub open spec fn failed_in(reason: EndReasonView, phase: ManagedTargetFailurePhase) -> bool {
    reason matches EndReasonView::Failed(failure) && failure.phase == phase
}

/// A pending target connects with its own configuration, and is then
/// connecting. One that is to end does so without connecting.
pub proof fn law_pending_target_connects(
    task: TaskView,
    index: int,
    poll: TargetPoll,
    facts: ClientFacts,
    now: Instant,
    clock: Instant,
)
    requires
        0 <= index < task.targets.len(),
        task.targets[index].state is Pending,
    ensures
        ({
            let (after, more) = task.polled(index, poll, facts, now, clock);
            &&& !winds_up(task, index) ==> {
                &&& more
                &&& after.targets[index].state is Connecting
                &&& after.outbox[task.outbox.len() as int] == (EffectView::Connect {
                    target: task.targets[index].instance,
                    client_config: task.targets[index].state->Pending_client_config,
                })
                &&& after.history == task.history
            }
            &&& winds_up(task, index) ==> {
                &&& !more
                &&& target_ended(task, after, index, wind_up_reason(task, index), None)
                &&& forall|k: int|
                    task.outbox.len() <= k < after.outbox.len() ==> !((#[trigger] after.outbox[k])
                        is Connect)
            }
        }),
{
    reveal(TaskView::pending_polled);
}

/// A connected target opens its session, with the address it was connected to.
/// One that cannot connect ends with that failure.
pub proof fn law_connected_target_opens(
    task: TaskView,
    index: int,
    poll: ConnectPoll,
    facts: ClientFacts,
    now: Instant,
    clock: Instant,
)
    requires
        0 <= index < task.targets.len(),
        task.targets[index].state is Connecting,
    ensures
        ({
            let (after, more) = task.polled(
                index,
                TargetPoll::Connect { poll },
                facts,
                now,
                clock,
            );
            &&& winds_up(task, index) ==> !more && target_ended(
                task,
                after,
                index,
                wind_up_reason(task, index),
                None,
            )
            &&& !winds_up(task, index) ==> match poll {
                ConnectPoll::Pending => after == task && !more,
                ConnectPoll::Connected { remote } => {
                    &&& more
                    &&& after.targets[index].remote == Some(remote)
                    &&& after.targets[index].state == (TargetStateView::Opening {
                        in_flight: false,
                    })
                    &&& after.history == task.history
                },
                ConnectPoll::Failed { .. } => {
                    &&& !more
                    &&& exists|reason: EndReasonView| #[trigger]
                        failed_in(reason, ManagedTargetFailurePhase::Connecting) && target_ended(
                            task,
                            after,
                            index,
                            reason,
                            None,
                        )
                },
            }
        }),
{
    reveal(TaskView::connecting_polled);
    if let ConnectPoll::Failed { error } = poll {
        let reason = EndReasonView::Failed(
            crate::model::classified(ManagedTargetFailurePhase::Connecting, error),
        );
        assert(failed_in(reason, ManagedTargetFailurePhase::Connecting));
    }
}

/// The later of two instants, where there is a second one.
pub open spec fn later_of(first: Instant, second: Option<Instant>) -> int {
    if second is Some && second->0.nanos > first.nanos {
        second->0.nanos as int
    } else {
        first.nanos as int
    }
}

/// The target at `index` has begun to drain late replies: from `clock` on, for
/// the final drain beyond that and beyond the last deadline of a probe. Where
/// the clock cannot represent the end of the drain it closes at once.
pub open spec fn drain_started(
    task: TaskView,
    after: TaskView,
    index: int,
    facts: ClientFacts,
    reason: EndReasonView,
    clock: Instant,
) -> bool {
    let end = later_of(clock, facts.latest_probe_timeout) + task.config.final_drain.nanos;
    &&& after.history == task.history
    &&& end <= MAX_INSTANT_NANOS ==> after.targets[index].state == (TargetStateView::Draining {
        facts,
        drain_started_at: clock,
        deadline: Instant { nanos: end as u128 },
        primary_end: reason,
        cleanup_failure: None,
        post_deadline_receives_remaining: 128,
    })
    &&& end > MAX_INSTANT_NANOS ==> (after.targets[index].state matches TargetStateView::Closing {
        primary_end,
        cleanup_failure: Some(failure),
        ..
    } && primary_end == reason && failure.phase == ManagedTargetFailurePhase::Timing)
}

/// The target at `index` has begun to close its session, which is given up
/// after the final drain.
pub open spec fn close_started(
    task: TaskView,
    after: TaskView,
    index: int,
    reason: EndReasonView,
    now: Instant,
) -> bool {
    let end = now.nanos + task.config.final_drain.nanos;
    &&& after.history == task.history
    &&& after.targets[index].state matches TargetStateView::Closing { primary_end, deadline, .. }
        && primary_end == reason && (end <= MAX_INSTANT_NANOS ==> deadline.nanos == end) && (end
        > MAX_INSTANT_NANOS ==> deadline == now)
}

/// An opened session becomes active, its target takes part in pacing, and its
/// start is reported. A target that is to end drains its opened session first.
pub proof fn law_opened_target_becomes_active(
    task: TaskView,
    index: int,
    event: ClientEvent,
    facts: ClientFacts,
    now: Instant,
    clock: Instant,
)
    requires
        0 <= index < task.targets.len(),
        task.targets[index].state is Opening,
        !winds_up(task, index) || task.targets[index].state->in_flight,
    ensures
        ({
            let poll = TargetPoll::Open { poll: OpenPoll::Started { event } };
            let (after, more) = task.polled(index, poll, facts, now, clock);
            &&& more
            &&& after.outbox[task.outbox.len() as int] == (EffectView::Event {
                event: EventView::Client { target: task.targets[index].instance, event },
            })
            &&& !winds_up(task, index) ==> after.targets[index].state == (TargetStateView::Active {
                facts,
            }) && after.targets[index].active && after.history == task.history
            &&& winds_up(task, index) ==> drain_started(
                task,
                after,
                index,
                facts,
                wind_up_reason(task, index),
                clock,
            )
        }),
{
    reveal(TaskView::opening_polled);
    lemma_client_events_frame(task, index, seq![event]);
    lemma_one_event(task, index, event);
}

/// A session that was opened without a test ends its target at once.
pub proof fn law_session_without_a_test_ends(
    task: TaskView,
    index: int,
    event: ClientEvent,
    facts: ClientFacts,
    now: Instant,
    clock: Instant,
)
    requires
        0 <= index < task.targets.len(),
        task.targets[index].state is Opening,
        !winds_up(task, index) || task.targets[index].state->in_flight,
    ensures
        ({
            let poll = TargetPoll::Open { poll: OpenPoll::NoTestCompleted { event } };
            let (after, more) = task.polled(index, poll, facts, now, clock);
            &&& !more
            &&& after.outbox[task.outbox.len() as int] == (EffectView::Event {
                event: EventView::Client { target: task.targets[index].instance, event },
            })
            &&& target_ended(
                task,
                after,
                index,
                if winds_up(task, index) {
                    wind_up_reason(task, index)
                } else {
                    EndReasonView::NoTestComplete
                },
                None,
            )
        }),
{
    reveal(TaskView::opening_polled);
    lemma_client_events_frame(task, index, seq![event]);
    lemma_one_event(task, index, event);
}

/// A handshake that fails ends its target with that failure. A target that is
/// to end keeps its reason, and the failure is noted on the side unless the
/// handshake was asked to stop. A handshake that goes on changes nothing else.
pub proof fn law_failed_handshake_ends(
    task: TaskView,
    index: int,
    poll: OpenPoll,
    facts: ClientFacts,
    now: Instant,
    clock: Instant,
)
    requires
        0 <= index < task.targets.len(),
        task.targets[index].state is Opening,
        !winds_up(task, index) || task.targets[index].state->in_flight,
    ensures
        ({
            let (after, more) = task.polled(index, TargetPoll::Open { poll }, facts, now, clock);
            &&& poll matches OpenPoll::Pending { in_flight } ==> !more && after == (TaskView {
                targets: after.targets,
                ..task
            }) && after.targets[index] == (TargetView {
                state: TargetStateView::Opening { in_flight },
                ..task.targets[index]
            })
            &&& poll matches OpenPoll::Failed { stopped, .. } ==> {
                &&& !more
                &&& winds_up(task, index) && stopped ==> target_ended(
                    task,
                    after,
                    index,
                    wind_up_reason(task, index),
                    None,
                )
                &&& winds_up(task, index) && !stopped ==> exists|failure: FailureView|
                    failure.phase == ManagedTargetFailurePhase::Opening && #[trigger] target_ended(
                        task,
                        after,
                        index,
                        wind_up_reason(task, index),
                        Some(failure),
                    )
                &&& !winds_up(task, index) ==> exists|reason: EndReasonView| #[trigger]
                    failed_in(reason, ManagedTargetFailurePhase::Opening) && target_ended(
                        task,
                        after,
                        index,
                        reason,
                        None,
                    )
            }
        }),
{
    reveal(TaskView::opening_polled);
    let (after, more) = task.polled(index, TargetPoll::Open { poll }, facts, now, clock);
    if let OpenPoll::Failed { error, stopped } = poll {
        let failure = crate::model::classified(ManagedTargetFailurePhase::Opening, error);
        let reason = EndReasonView::Failed(failure);
        assert(failed_in(reason, ManagedTargetFailurePhase::Opening));
        if winds_up(task, index) && !stopped {
            assert(target_ended(task, after, index, wind_up_reason(task, index), Some(failure)));
        }
    }
}

proof fn lemma_one_event(task: TaskView, index: int, event: ClientEvent)
    ensures
        task.client_events(index, seq![event]).outbox == task.outbox.push(
            EffectView::Event {
                event: EventView::Client { target: task.targets[index].instance, event },
            },
        ),
{
    assert(seq![event].drop_last() =~= Seq::<ClientEvent>::empty());
    assert(task.client_events(index, seq![event].drop_last()) == task);
}

/// A target that is to end before its session was asked for ends at once.
pub proof fn law_idle_opening_target_ends(
    task: TaskView,
    index: int,
    poll: TargetPoll,
    facts: ClientFacts,
    now: Instant,
    clock: Instant,
)
    requires
        0 <= index < task.targets.len(),
        task.targets[index].state == (TargetStateView::Opening { in_flight: false }),
        winds_up(task, index),
    ensures
        ({
            let (after, more) = task.polled(index, poll, facts, now, clock);
            &&& !more
            &&& target_ended(task, after, index, wind_up_reason(task, index), None)
            &&& after.targets[index].counters.packets_sent == facts.packets_sent
        }),
{
    reveal(TaskView::opening_polled);
}

/// The events of a session are published in order, as events of its target.
pub proof fn law_session_events_are_published(task: TaskView, index: int, events: Seq<ClientEvent>)
    requires
        0 <= index < task.targets.len(),
    ensures
        task.client_events(index, events).outbox == task.outbox + events.map_values(
            |event: ClientEvent|
                EffectView::Event {
                    event: EventView::Client { target: task.targets[index].instance, event },
                },
        ),
    decreases events.len(),
{
    let as_effect = |event: ClientEvent|
        EffectView::Event {
            event: EventView::Client { target: task.targets[index].instance, event },
        };
    if events.len() == 0 {
        assert(task.outbox + events.map_values(as_effect) =~= task.outbox);
    } else {
        let rest = events.drop_last();
        law_session_events_are_published(task, index, rest);
        lemma_client_events_frame(task, index, rest);
        assert(task.outbox + events.map_values(as_effect) =~= (task.outbox + rest.map_values(
            as_effect,
        )).push(as_effect(events.last())));
    }
}

/// Events of one kind are counted in one place, each of them once: a count
/// grows by the number of its events, up to its limit.
pub proof fn law_session_events_are_counted(task: TaskView, index: int, events: Seq<ClientEvent>)
    requires
        0 <= index < task.targets.len(),
    ensures
        ({
            let before = task.targets[index].counters;
            let after = task.client_events(index, events).targets[index].counters;
            &&& after.replies_received == capped_sum(
                before.replies_received,
                events.filter(|event: ClientEvent| event is EchoReply).len(),
            )
            &&& after.duplicates == capped_sum(
                before.duplicates,
                events.filter(|event: ClientEvent| event is DuplicateReply).len(),
            )
            &&& after.late == capped_sum(
                before.late,
                events.filter(|event: ClientEvent| event is LateReply).len(),
            )
            &&& after.warning_events == capped_sum(
                before.warning_events,
                events.filter(|event: ClientEvent| event is Warning).len(),
            )
            &&& after.packets_sent == before.packets_sent
        }),
    decreases events.len(),
{
    let echo = |event: ClientEvent| event is EchoReply;
    let duplicate = |event: ClientEvent| event is DuplicateReply;
    let late = |event: ClientEvent| event is LateReply;
    let warning = |event: ClientEvent| event is Warning;
    if events.len() == 0 {
        assert(events =~= Seq::empty());
        lemma_filter_empty(echo);
        lemma_filter_empty(duplicate);
        lemma_filter_empty(late);
        lemma_filter_empty(warning);
    } else {
        law_session_events_are_counted(task, index, events.drop_last());
        lemma_client_events_frame(task, index, events.drop_last());
        lemma_filter_last(events, echo);
        lemma_filter_last(events, duplicate);
        lemma_filter_last(events, late);
        lemma_filter_last(events, warning);
    }
}

/// A probe of the session has to be reported lost first.
pub open spec fn loss_due(facts: ClientFacts, now: Instant) -> bool {
    facts.next_probe_timeout is Some && facts.next_probe_timeout->0.nanos <= now.nanos
}

/// A failed receive closes the session of an active target, with that failure
/// as the reason for which the target ends.
pub proof fn law_failed_receive_closes(
    task: TaskView,
    index: int,
    error: crate::error::ClientError,
    facts: ClientFacts,
    now: Instant,
    clock: Instant,
)
    requires
        0 <= index < task.targets.len(),
        task.targets[index].state is Active,
        !winds_up(task, index),
        !loss_due(task.targets[index].state->Active_facts, now),
    ensures
        ({
            let poll = TargetPoll::Receive { poll: ReceivePoll::Failed { error } };
            let (after, more) = task.polled(index, poll, facts, now, clock);
            &&& more
            &&& after.outbox[task.outbox.len() as int] == (EffectView::DiscardPreparedProbe {
                target: task.targets[index].instance,
            })
            &&& after.targets[index].counters.packets_sent == facts.packets_sent
            &&& exists|reason: EndReasonView| #[trigger]
                failed_in(reason, ManagedTargetFailurePhase::Receiving) && close_started(
                    task,
                    after,
                    index,
                    reason,
                    now,
                )
        }),
{
    reveal(TaskView::active_polled);
    let poll = TargetPoll::Receive { poll: ReceivePoll::Failed { error } };
    let after = task.polled(index, poll, facts, now, clock).0;
    let reason = EndReasonView::Failed(
        crate::model::classified(ManagedTargetFailurePhase::Receiving, error),
    );
    assert(failed_in(reason, ManagedTargetFailurePhase::Receiving));
    assert(close_started(task, after, index, reason, now));
}

/// What an active target received is counted and published first. A peer close
/// ends the target then.
#[verifier::rlimit(30)]
pub proof fn law_active_target_is_closed_by_its_peer(
    task: TaskView,
    index: int,
    received: ReceivePoll,
    facts: ClientFacts,
    now: Instant,
    clock: Instant,
)
    requires
        0 <= index < task.targets.len(),
        task.targets[index].state is Active,
        !winds_up(task, index),
        !loss_due(task.targets[index].state->Active_facts, now),
        !(received is Failed),
        facts.peer_closed,
    ensures
        ({
            let poll = TargetPoll::Receive { poll: received };
            let (after, more) = task.polled(index, poll, facts, now, clock);
            let reported = task.client_events(index, received_events(received));
            &&& !more
            &&& after.outbox.take(reported.outbox.len() as int) == reported.outbox
            &&& after.targets[index].counters == (crate::task::target::TargetCounters {
                packets_sent: facts.packets_sent,
                ..reported.targets[index].counters
            })
            &&& target_ended(task, after, index, EndReasonView::PeerClosed, None)
        }),
{
    reveal(TaskView::active_polled);
    lemma_client_events_frame(task, index, received_events(received));
    let reported = task.client_events(index, received_events(received));
    let after = task.polled(index, TargetPoll::Receive { poll: received }, facts, now, clock).0;
    assert(after.outbox.take(reported.outbox.len() as int) =~= reported.outbox);
}

/// What an active target received is counted and published first. A complete
/// run is then drained. Otherwise the target stays active with what its session
/// says of itself now, and goes on at once where something was received.
#[verifier::rlimit(30)]
pub proof fn law_active_target_receives(
    task: TaskView,
    index: int,
    received: ReceivePoll,
    facts: ClientFacts,
    now: Instant,
    clock: Instant,
)
    requires
        0 <= index < task.targets.len(),
        task.targets[index].state is Active,
        !winds_up(task, index),
        !loss_due(task.targets[index].state->Active_facts, now),
        !(received is Failed),
        !facts.peer_closed,
    ensures
        ({
            let poll = TargetPoll::Receive { poll: received };
            let (after, more) = task.polled(index, poll, facts, now, clock);
            let reported = task.client_events(index, received_events(received));
            &&& facts.run_complete ==> {
                &&& more
                &&& after.outbox.take(reported.outbox.len() as int) == reported.outbox
                &&& after.targets[index].counters == (crate::task::target::TargetCounters {
                    packets_sent: facts.packets_sent,
                    ..reported.targets[index].counters
                })
                &&& drain_started(
                    task,
                    after,
                    index,
                    facts,
                    EndReasonView::TestComplete,
                    clock,
                )
            }
            &&& !facts.run_complete ==> {
                &&& after.targets[index].state == (TargetStateView::Active { facts })
                &&& after.targets[index].counters == reported.targets[index].counters
                &&& after.outbox == reported.outbox
                &&& after.history == task.history
                &&& more == (received is Received)
            }
        }),
{
    reveal(TaskView::active_polled);
    lemma_client_events_frame(task, index, received_events(received));
    let reported = task.client_events(index, received_events(received));
    let after = task.polled(index, TargetPoll::Receive { poll: received }, facts, now, clock).0;
    assert(after.outbox.take(reported.outbox.len() as int) =~= reported.outbox);
}

/// An active target that is to end drops the probe it has prepared and drains
/// late replies first. While a loss is due nothing else happens to it.
pub proof fn law_active_target_winds_up(
    task: TaskView,
    index: int,
    poll: TargetPoll,
    facts: ClientFacts,
    now: Instant,
    clock: Instant,
)
    requires
        0 <= index < task.targets.len(),
        task.targets[index].state is Active,
    ensures
        ({
            let (after, more) = task.polled(index, poll, facts, now, clock);
            &&& winds_up(task, index) ==> {
                &&& more
                &&& after.outbox[task.outbox.len() as int] == (EffectView::DiscardPreparedProbe {
                    target: task.targets[index].instance,
                })
                &&& after.targets[index].counters.packets_sent == facts.packets_sent
                &&& drain_started(
                    task,
                    after,
                    index,
                    facts,
                    wind_up_reason(task, index),
                    clock,
                )
            }
            &&& !winds_up(task, index) && loss_due(task.targets[index].state->Active_facts, now)
                ==> after == task && !more
        }),
{
    reveal(TaskView::active_polled);
}

/// What a draining target received is counted and published. The drain ends
/// early where the peer closes the session, and with a failure where receiving
/// fails. It goes on to its deadline, which follows the deadlines of the probes
/// still remembered, and beyond it only for a bounded number of datagrams.
pub proof fn law_draining_target_receives(
    task: TaskView,
    index: int,
    received: ReceivePoll,
    facts: ClientFacts,
    now: Instant,
    clock: Instant,
)
    requires
        0 <= index < task.targets.len(),
        task.targets[index].state is Draining,
        !loss_due(task.targets[index].state->Draining_facts, now),
    ensures
        ({
            let (after, more) = task.polled(
                index,
                TargetPoll::Receive { poll: received },
                facts,
                now,
                clock,
            );
            let before = task.targets[index].state;
            let reported = task.client_events(index, received_events(received));
            let planned = later_of(
                before->Draining_drain_started_at,
                facts.latest_probe_timeout,
            ) + task.config.final_drain.nanos;
            let deadline = if received is Received && planned < before->Draining_deadline.nanos {
                planned
            } else {
                before->Draining_deadline.nanos as int
            };
            let left = before->Draining_post_deadline_receives_remaining;
            &&& received is Failed ==> more && close_started(
                task,
                after,
                index,
                before->Draining_primary_end,
                now,
            ) && after.targets[index].state->Closing_cleanup_failure is Some && (
            before->Draining_cleanup_failure is None
                ==> after.targets[index].state->Closing_cleanup_failure->0.phase
                == ManagedTargetFailurePhase::Receiving)
            &&& !(received is Failed) && facts.peer_closed ==> !more && target_ended(
                task,
                after,
                index,
                EndReasonView::PeerClosed,
                before->Draining_cleanup_failure,
            ) && after.targets[index].counters.packets_sent == facts.packets_sent
            &&& !(received is Failed) && !facts.peer_closed && planned <= MAX_INSTANT_NANOS ==> {
                &&& now.nanos < deadline ==> after.targets[index].state
                    == (TargetStateView::Draining {
                    facts,
                    drain_started_at: before->Draining_drain_started_at,
                    deadline: Instant { nanos: deadline as u128 },
                    primary_end: before->Draining_primary_end,
                    cleanup_failure: before->Draining_cleanup_failure,
                    post_deadline_receives_remaining: left,
                }) && more == (received is Received) && after.outbox == reported.outbox
                &&& now.nanos >= deadline && received is Received && left > 1
                    ==> after.targets[index].state == (TargetStateView::Draining {
                    facts,
                    drain_started_at: before->Draining_drain_started_at,
                    deadline: Instant { nanos: deadline as u128 },
                    primary_end: before->Draining_primary_end,
                    cleanup_failure: before->Draining_cleanup_failure,
                    post_deadline_receives_remaining: (left - 1) as usize,
                }) && more && after.outbox == reported.outbox
                &&& now.nanos >= deadline && !(received is Received && left > 1) ==> more
                    && close_started(task, after, index, before->Draining_primary_end, now)
                    && (now.nanos + task.config.final_drain.nanos <= MAX_INSTANT_NANOS
                    ==> after.targets[index].state->Closing_cleanup_failure
                    == before->Draining_cleanup_failure)
            }
            &&& !(received is Failed) ==> after.targets[index].counters.replies_received
                == reported.targets[index].counters.replies_received
                && after.targets[index].counters.late == reported.targets[index].counters.late
        }),
{
    reveal(TaskView::draining_polled);
    lemma_client_events_frame(task, index, received_events(received));
}

/// A close that is acknowledged ends the target for the reason it was closed
/// for. One that fails, or that is not done by its deadline, ends it all the
/// same, with that failure unless there was an earlier one.
pub proof fn law_closing_target_ends(
    task: TaskView,
    index: int,
    poll: ClosePoll,
    facts: ClientFacts,
    now: Instant,
    clock: Instant,
)
    requires
        0 <= index < task.targets.len(),
        task.targets[index].state is Closing,
    ensures
        ({
            let (after, more) = task.polled(index, TargetPoll::Close { poll }, facts, now, clock);
            let before = task.targets[index].state;
            let late = now.nanos >= before->Closing_deadline.nanos;
            let reason = before->Closing_primary_end;
            let cleanup = before->Closing_cleanup_failure;
            &&& !more
            &&& poll is Pending && !late ==> after == task
            &&& !(poll is Pending && !late) ==> after.targets[index].state is Terminal
                && after.targets[index].counters.packets_sent == facts.packets_sent
            &&& poll is Closed || (cleanup is Some && !(poll is Pending && !late)) ==> target_ended(
                task,
                after,
                index,
                reason,
                cleanup,
            )
            &&& cleanup is None && (poll is Failed || (poll is Pending && late)) ==> exists|
                failure: FailureView,
            |
                failure.phase == ManagedTargetFailurePhase::Closing && #[trigger] target_ended(
                    task,
                    after,
                    index,
                    reason,
                    Some(failure),
                )
        }),
{
    reveal(TaskView::closing_polled);
    let (after, more) = task.polled(index, TargetPoll::Close { poll }, facts, now, clock);
    let before = task.targets[index].state;
    let noted = task.with_packets_sent(index, facts.packets_sent);
    match poll {
        ClosePoll::Closed { events } => {
            lemma_client_events_frame(noted, index, events@);
        },
        ClosePoll::Failed { error } => {
            let failure = crate::model::classified(ManagedTargetFailurePhase::Closing, error);
            if before->Closing_cleanup_failure is None {
                assert(target_ended(
                    task,
                    after,
                    index,
                    before->Closing_primary_end,
                    Some(failure),
                ));
            }
        },
        ClosePoll::Pending => {
            let failure = crate::task::view::close_timeout();
            if now.nanos >= before->Closing_deadline.nanos && before->Closing_cleanup_failure
                is None {
                assert(target_ended(
                    task,
                    after,
                    index,
                    before->Closing_primary_end,
                    Some(failure),
                ));
            }
        },
    }
}

/// A probe that is reported lost leaves its session as it goes on, active or
/// draining. A failure to do so closes the session with that failure: for an
/// active target that is why it ends.
pub proof fn law_expiry_goes_on(
    task: TaskView,
    index: int,
    poll: TimeoutPoll,
    facts: ClientFacts,
    now: Instant,
    clock: Instant,
)
    requires
        0 <= index < task.targets.len(),
        task.targets[index].state is Active || task.targets[index].state is Draining,
    ensures
        ({
            let after = task.expired(index, poll, facts, now, clock);
            let before = task.targets[index].state;
            match poll {
                TimeoutPoll::Expired { events } => {
                    let reported = task.client_events(index, events@);
                    let planned = later_of(
                        before->Draining_drain_started_at,
                        facts.latest_probe_timeout,
                    ) + task.config.final_drain.nanos;
                    &&& after.history == task.history
                    &&& after.targets[index].counters == reported.targets[index].counters
                    &&& before is Active ==> after.targets[index].state == (
                    TargetStateView::Active { facts }) && after.outbox == reported.outbox
                    &&& before is Draining && planned <= MAX_INSTANT_NANOS
                        ==> after.targets[index].state == (TargetStateView::Draining {
                        facts,
                        drain_started_at: before->Draining_drain_started_at,
                        deadline: Instant {
                            nanos: if planned < before->Draining_deadline.nanos {
                                planned as u128
                            } else {
                                before->Draining_deadline.nanos
                            },
                        },
                        primary_end: before->Draining_primary_end,
                        cleanup_failure: before->Draining_cleanup_failure,
                        post_deadline_receives_remaining:
                            before->Draining_post_deadline_receives_remaining,
                    }) && after.outbox == reported.outbox
                    &&& before is Draining && planned > MAX_INSTANT_NANOS ==> close_started(
                        task,
                        after,
                        index,
                        before->Draining_primary_end,
                        now,
                    )
                },
                TimeoutPoll::Failed { .. } => {
                    &&& after.targets[index].counters.packets_sent == facts.packets_sent
                    &&& before is Active ==> exists|reason: EndReasonView| #[trigger]
                        failed_in(reason, ManagedTargetFailurePhase::Timing) && close_started(
                            task,
                            after,
                            index,
                            reason,
                            now,
                        )
                    &&& before is Draining ==> close_started(
                        task,
                        after,
                        index,
                        before->Draining_primary_end,
                        now,
                    ) && after.targets[index].state->Closing_cleanup_failure is Some
                },
            }
        }),
{
    let after = task.expired(index, poll, facts, now, clock);
    match poll {
        TimeoutPoll::Expired { events } => {
            lemma_client_events_frame(task, index, events@);
        },
        TimeoutPoll::Failed { error } => {
            let reason = EndReasonView::Failed(
                crate::model::classified(ManagedTargetFailurePhase::Timing, error),
            );
            assert(failed_in(reason, ManagedTargetFailurePhase::Timing));
            if task.targets[index].state is Active {
                assert(close_started(task, after, index, reason, now));
            }
        },
    }
}

/// What is polled for a target follows from where it stands: it connects,
/// opens, receives or closes, unless it is to end or a loss is due first.
pub proof fn law_request_follows_the_state(task: TaskView, index: int, now: Instant)
    ensures
        ({
            let request = task.request(index, now);
            let state = task.targets[index].state;
            let ends = winds_up(task, index);
            &&& state is Connecting ==> (request is Connect <==> !ends)
            &&& state matches TargetStateView::Opening { in_flight } ==> {
                &&& request is Open <==> !ends || in_flight
                &&& request matches TargetRequest::Open { stop_after_attempt } ==> (
                stop_after_attempt <==> ends)
            }
            &&& state matches TargetStateView::Active { facts } ==> (request is Receive <==> !ends
                && !loss_due(facts, now))
            &&& state matches TargetStateView::Draining { facts, .. } ==> (request is Receive
                <==> !loss_due(facts, now))
            &&& state is Closing <==> request is Close
            &&& request is Connect ==> state is Connecting
            &&& request is Open ==> state is Opening
            &&& request is Receive ==> state is Active || state is Draining
        }),
{
}

} // verus!
