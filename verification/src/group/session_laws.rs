//! What holds of the session of one target of a group, from the reply that
//! opens it to its close.
use vstd::prelude::*;

use crate::error::ClientError;
use crate::event::{ClientEvent, OpenOutcome};
use crate::group::model::{EndReasonView, ManagedTargetFailureKind, OutcomeView};
use crate::group::target::{
    client_events, CloseAttempt, FinishStep, OpenInspection, ProbeAttempt, SessionFacts,
    TargetStatus, TargetView,
};
use crate::timing::{Instant, MAX_INSTANT_NANOS};

verus! {

/// `after` is `before` with its end decided for `reason`.
pub open spec fn ended_for(before: TargetView, after: TargetView, reason: EndReasonView) -> bool {
    after == (TargetView {
        status: TargetStatus::Finished,
        final_reason: Some(reason),
        ..before
    })
}

/// An open reply that is accepted makes its target active, with what its
/// session and its schedule say of themselves. One without a test ends it. A
/// reply that is refused, or that cannot be trusted, fails it, and any other
/// datagram changes nothing.
pub proof fn law_reply_opens_the_target(target: TargetView, inspection: OpenInspection)
    requires
        target.final_reason is None,
    ensures
        ({
            let after = target.inspected(inspection);
            match inspection {
                OpenInspection::Ignored => after == target,
                OpenInspection::Untrusted { .. } => after.status is Finished && (
                after.final_reason matches Some(EndReasonView::OpenFailed(_))) && after.session
                    == target.session,
                OpenInspection::Rejected { .. } => after.status is Finished && (
                after.final_reason matches Some(EndReasonView::OpenFailed(_))) && after.session
                    == target.session,
                OpenInspection::Opened {
                    outcome: OpenOutcome::Started { .. },
                    schedule,
                    session,
                } => after == (TargetView {
                    status: TargetStatus::Active,
                    session,
                    schedule,
                    ..target
                }),
                OpenInspection::Opened {
                    outcome: OpenOutcome::NoTestCompleted { .. },
                    schedule,
                    session,
                } => after.status is Finished && after.final_reason == Some(
                    EndReasonView::NoTestComplete,
                ) && after.session == session,
            }
        }),
{
}

/// What a packet of an open session came to is counted first. A peer close then
/// ends the target and its schedule, and a failure ends it with that failure.
/// Otherwise it goes on with what its session says of itself.
pub proof fn law_packet_is_taken_in(
    target: TargetView,
    result: Result<Vec<ClientEvent>, ClientError>,
    session: SessionFacts,
)
    requires
        target.final_reason is None,
    ensures
        ({
            let after = target.processed(result, session);
            &&& after.session == session
            &&& result matches Ok(events) ==> after.counters == target.observed(events@).counters
            &&& result is Ok && session.peer_closed ==> after.status is Finished
                && after.final_reason == Some(EndReasonView::PeerClosed) && after.schedule is None
            &&& result is Ok && !session.peer_closed ==> after.status == target.status
                && after.schedule == target.schedule && after.final_reason is None
            &&& result is Err ==> after.status is Finished && (after.final_reason matches Some(
                EndReasonView::Failed(_),
            )) && after.counters == target.counters && after.schedule == target.schedule
            &&& after.id == target.id && after.remote == target.remote && after.order
                == target.order
        }),
{
}

/// Losses are counted with what the session then says of itself, and do not end
/// the target. A failure to determine them does.
pub proof fn law_losses_are_taken_in(
    target: TargetView,
    result: Result<Vec<ClientEvent>, ClientError>,
    session: SessionFacts,
)
    requires
        target.final_reason is None,
    ensures
        ({
            let after = target.expired(result, session);
            &&& after.session == session
            &&& after.schedule == target.schedule
            &&& result matches Ok(events) ==> after == (TargetView {
                session,
                counters: target.observed(events@).counters,
                ..target
            })
            &&& result is Err ==> after.status is Finished && (after.final_reason matches Some(
                EndReasonView::Failed(_),
            )) && after.counters == target.counters
        }),
{
}

/// The test of a target is over: its session has ended, or its schedule has and
/// no probe is in flight.
pub open spec fn test_over(target: TargetView) -> bool {
    ||| target.session.terminal
    ||| target.schedule is Some && target.schedule->0.finished && target.session.pending_empty
}

/// A target whose test is over drains late replies for the final drain where
/// some could still come, and is closed otherwise. One that its peer closed
/// ends as that.
pub proof fn law_completed_target_drains_or_closes(
    target: TargetView,
    now: Instant,
    final_drain: u128,
)
    requires
        target.final_reason is None,
        target.status is Active,
        now.nanos + final_drain <= MAX_INSTANT_NANOS,
    ensures
        ({
            let (after, step) = target.completion(now, final_drain);
            &&& !test_over(target) ==> after == target && step is Nothing
            &&& test_over(target) && target.session.peer_closed ==> ended_for(
                target,
                after,
                EndReasonView::PeerClosed,
            ) && step is Nothing
            &&& test_over(target) && !target.session.peer_closed && target.session.has_timed_out
                ==> step is Nothing && after == (TargetView { status: after.status, ..target }) && (
            after.status matches TargetStatus::Draining { deadline } && deadline.nanos == now.nanos
                + final_drain)
            &&& test_over(target) && !target.session.peer_closed && !target.session.has_timed_out
                ==> after == target && step is Close
        }),
{
}

/// A drain ends at its deadline, when nothing could still come, or when the
/// peer closes the session. Until then nothing happens to the target.
pub proof fn law_drain_ends(target: TargetView, deadline: Instant, now: Instant, final_drain: u128)
    requires
        target.final_reason is None,
        target.status == (TargetStatus::Draining { deadline }),
    ensures
        ({
            let (after, step) = target.completion(now, final_drain);
            let over = now.nanos >= deadline.nanos || !target.session.has_timed_out;
            &&& target.session.peer_closed ==> ended_for(target, after, EndReasonView::PeerClosed)
                && step is Nothing
            &&& !target.session.peer_closed ==> after == target && (step is Close <==> over)
        }),
{
}

/// Only an active or a draining target is looked at for completion.
pub proof fn law_others_do_not_complete(target: TargetView, now: Instant, final_drain: u128)
    requires
        !(target.status is Active),
        !(target.status is Draining),
    ensures
        target.completion(now, final_drain) == (target, FinishStep::Nothing),
{
}

/// A close that went out whole is reported, counted, and ends the target for
/// the reason it was closed for. Without a session to close the target ends for
/// that reason without a report.
pub proof fn law_closed_target_ends(
    target: TargetView,
    reason: EndReasonView,
    event: ClientEvent,
    session: SessionFacts,
    bytes: usize,
)
    requires
        target.final_reason is None,
    ensures
        ({
            let (after, reported) = target.closed(
                reason,
                Some(CloseAttempt::Sent { expected_bytes: bytes, bytes, event, session }),
            );
            &&& after.status is Finished && after.final_reason == Some(reason)
            &&& after.session == session && after.schedule is None
            &&& after.counters == target.observed(seq![event]).counters
            &&& reported == seq![event]
        }),
        ({
            let (after, reported) = target.closed(reason, None);
            &&& ended_for(target, after, reason)
            &&& reported.len() == 0
        }),
        target.needs_close() <==> target.session.open && !target.session.peer_closed,
{
}

/// What is sent for a target that is not active is not taken in. A probe that
/// was sent whole is reported, with its slot, its size and the time it took,
/// and one that was cut short or failed fails the target.
pub proof fn law_probe_is_taken_in(target: TargetView, attempt: ProbeAttempt)
    requires
        target.final_reason is None,
    ensures
        ({
            let (after, reported) = target.probed(attempt);
            &&& !(target.status is Active) ==> after == target && reported.len() == 0
            &&& target.status is Active ==> match attempt {
                ProbeAttempt::Skipped => after == target && reported.len() == 0,
                ProbeAttempt::Failed { .. } => after.status is Finished && (
                after.final_reason matches Some(EndReasonView::Failed(_))) && after.session
                    == target.session && after.schedule == target.schedule && reported.len() == 0,
                ProbeAttempt::Sent { probe } => {
                    &&& after.session == probe.session
                    &&& after.schedule == Some(probe.schedule)
                    &&& probe.bytes != probe.expected_bytes ==> after.status is Finished && (
                    after.final_reason matches Some(EndReasonView::Failed(_))) && reported.len()
                        == 0
                    &&& probe.bytes == probe.expected_bytes ==> {
                        &&& after.status is Active
                        &&& after.final_reason is None
                        &&& reported.len() == 1
                        &&& reported[0] matches ClientEvent::EchoSent {
                            seq,
                            remote,
                            scheduled_at,
                            sent_at,
                            bytes,
                            send_call,
                            timer_error,
                        } && {
                            &&& seq == probe.seq
                            &&& remote == target.remote
                            &&& scheduled_at == probe.scheduled_at
                            &&& sent_at == probe.sent_at
                            &&& bytes == probe.bytes
                            &&& probe.send_call_start.nanos <= probe.send_finished_at.nanos
                                ==> send_call.nanos == probe.send_finished_at.nanos
                                - probe.send_call_start.nanos
                            &&& probe.send_finished_at.nanos < probe.send_call_start.nanos
                                ==> send_call.nanos == 0
                            &&& probe.scheduled_at.nanos <= probe.sent_at.mono.nanos
                                ==> timer_error.nanos == probe.sent_at.mono.nanos
                                - probe.scheduled_at.nanos
                            &&& probe.sent_at.mono.nanos < probe.scheduled_at.nanos
                                ==> timer_error.nanos == probe.scheduled_at.nanos
                                - probe.sent_at.mono.nanos
                        }
                    }
                },
            }
        }),
{
}

/// The outcome of a target names it and tells what was sent and counted for it.
pub proof fn law_outcome_tells_what_was_counted(target: TargetView, reason: EndReasonView)
    ensures
        target.outcome(reason) == (OutcomeView {
            id: target.id,
            remote: target.remote,
            end_reason: reason,
            packets_sent: target.session.packets_sent,
            replies_received: target.counters.replies_received,
            duplicates: target.counters.duplicates,
            late: target.counters.late,
            warning_events: target.counters.warning_events,
        }),
{
}

/// An active target may send when its schedule says so, and no other may.
pub proof fn law_schedule_says_when_to_send(target: TargetView)
    ensures
        target.status is Active && target.schedule is Some ==> target.send_deadline()
            == target.schedule->0.next_send,
        !(target.status is Active) || target.schedule is None ==> target.send_deadline() is None,
{
}

/// A reply is expected from the first request on, until the drain that gave the
/// current attempt up is completed.
pub proof fn law_reply_is_expected_while_an_attempt_stands(
    target: TargetView,
    attempt: usize,
    next_send_at: Instant,
    awaited: Option<u64>,
    completed: u64,
)
    requires
        target.status == (TargetStatus::Opening {
            attempt,
            next_send_at,
            awaiting_receiver_generation: awaited,
        }),
    ensures
        target.expects_open_reply(completed) <==> attempt > 0 && (awaited is None || completed
            < awaited->0),
        !target.in_session(),
{
}

/// The session of a target is open while the target is active or drains.
pub proof fn law_session_is_open(target: TargetView, completed: u64)
    ensures
        target.in_session() <==> target.status is Active || target.status is Draining,
        !(target.status is Opening) ==> !target.expects_open_reply(completed),
        target.status is Finished ==> !target.in_session(),
{
}

/// An attempt that has run out waits for a drain, unless it does already or
/// none was made.
pub proof fn law_expired_attempt_awaits_a_drain(target: TargetView, now: Instant)
    ensures
        target.awaits_drain(now) <==> {
            &&& target.status is Opening
            &&& target.status->attempt > 0
            &&& target.status->awaiting_receiver_generation is None
            &&& target.status->next_send_at.nanos <= now.nanos
        },
        target.begins_drain() <==> {
            &&& target.status is Active
            &&& test_over(target)
            &&& !target.session.peer_closed
            &&& target.session.has_timed_out
        },
{
}

/// The events of a session are reported in order, as events of its target.
pub proof fn law_events_name_their_target(id: Seq<char>, events: Seq<ClientEvent>, i: int)
    requires
        0 <= i < events.len(),
    ensures
        client_events(id, events).len() == events.len(),
        client_events(id, events)[i] == (crate::group::model::GroupEventView::Client {
            target: id,
            event: events[i],
        }),
{
}

/// A target is the same as configured where its address and its key are.
pub proof fn law_same_configuration(
    target: TargetView,
    config: crate::group::model::ConfigView,
    session: SessionFacts,
    order: u64,
    now: Instant,
)
    ensures
        target.same_config(config) <==> target.remote == config.remote && target.auth
            == config.auth,
        ({
            let fresh = TargetView::fresh(config, session, order, now);
            &&& fresh.id == config.id
            &&& fresh.same_config(config)
            &&& fresh.session == session
            &&& fresh.order == order
            &&& fresh.schedule is None
            &&& fresh.final_reason is None
            &&& fresh.status == (TargetStatus::Opening {
                attempt: 0,
                next_send_at: now,
                awaiting_receiver_generation: None,
            })
            &&& fresh.counters.replies_received == 0
            &&& fresh.counters.duplicates == 0
            &&& fresh.counters.late == 0
            &&& fresh.counters.warning_events == 0
        }),
{
}

/// What an error stands for depends on whether the session was open, but for
/// time-outs, sockets, configurations and workers.
pub proof fn law_failures_are_classified(error: ClientError)
    ensures
        ({
            let opening = crate::group::model::opening_failure(error);
            let running = crate::group::model::runtime_failure(error);
            &&& opening.message == error.text() && running.message == error.text()
            &&& error is OpenTimeout ==> opening.kind == ManagedTargetFailureKind::OpeningTimeout
                && running.kind == opening.kind
            &&& error is Socket || error is SocketOption || error is ReadTimeoutRestore
                ==> opening.kind == ManagedTargetFailureKind::Socket && running.kind
                == opening.kind
            &&& error is InvalidConfig || error is OpenTimeoutTooSmall || error is NoOpenTimeouts
                ==> opening.kind == ManagedTargetFailureKind::InvalidConfiguration && running.kind
                == opening.kind
            &&& error is WorkerPanicked ==> opening.kind == ManagedTargetFailureKind::InternalWorker
                && running.kind == opening.kind
            &&& opening.kind != running.kind ==> opening.kind
                == ManagedTargetFailureKind::OpeningProtocol && running.kind
                == ManagedTargetFailureKind::RuntimeProtocol
            &&& error is Protocol || error is ServerRejected || error is NegotiationRejected
                || error is DatagramLengthMismatch ==> opening.kind != running.kind
        }),
{
}

} // verus!
