//! What holds of the open handshake of a target over all its requests.
use vstd::prelude::*;

use crate::error::IoError;
use crate::group::model::{EndReasonView, ManagedTargetFailureKind};
use crate::group::target::{OpenStep, TargetStatus, TargetView};
use crate::timing::{Duration, Instant, MAX_INSTANT_NANOS};

verus! {

/// An open request waits for its own timeout: request number `attempt`,
/// counted from none, that is sent at `sent_at` is to be answered within the
/// timeout of the same number. It is sent no sooner than it is due, and a
/// repeated one not before the receiver has completed the drain it waits for.
/// Where no timeout is left, or the clock cannot represent the deadline, the
/// target has failed to open.
pub proof fn law_request_waits_for_its_own_timeout(
    target: TargetView,
    attempt: usize,
    next_send_at: Instant,
    awaited: Option<u64>,
    completed: u64,
    now: Instant,
    sent_at: Instant,
    timeouts: Seq<Duration>,
)
    requires
        target.final_reason is None,
        target.status == (TargetStatus::Opening {
            attempt,
            next_send_at,
            awaiting_receiver_generation: awaited,
        }),
    ensures
        ({
            let (after, step) = target.open_stepped(completed, now, sent_at, timeouts);
            let due = next_send_at.nanos <= now.nanos && (attempt == 0 || (awaited matches Some(
                generation,
            ) && generation <= completed));
            let fits = attempt < timeouts.len() && sent_at.nanos + timeouts[attempt as int].nanos
                <= MAX_INSTANT_NANOS;
            &&& !due <==> step is Wait
            &&& due && fits <==> step is Send
            &&& due && !fits <==> step is Failed
            &&& step matches OpenStep::Send { deadline } ==> deadline.nanos == sent_at.nanos
                + timeouts[attempt as int].nanos
            &&& step is Wait || step is Send ==> after == target
            &&& step is Failed ==> {
                &&& after.status is Finished
                &&& after.final_reason matches Some(EndReasonView::OpenFailed(_))
                &&& after == (TargetView {
                    status: after.status,
                    final_reason: after.final_reason,
                    ..target
                })
            }
        }),
{
}

/// A target that is not opening is left alone.
pub proof fn law_only_opening_targets_request(
    target: TargetView,
    completed: u64,
    now: Instant,
    sent_at: Instant,
    timeouts: Seq<Duration>,
)
    requires
        !(target.status is Opening),
    ensures
        target.open_stepped(completed, now, sent_at, timeouts) == (target, OpenStep::Wait),
{
}

/// A request that was sent counts as one more, and the next one is due when it
/// has not been answered by its deadline and the receiver has been drained
/// anew. One that could not be sent fails the target.
pub proof fn law_sent_request_sets_the_next(
    target: TargetView,
    deadline: Instant,
    result: Result<(), IoError>,
)
    requires
        target.final_reason is None,
        target.status is Opening,
        target.status->attempt < usize::MAX,
    ensures
        ({
            let after = target.open_sent(deadline, result);
            &&& result is Ok ==> {
                &&& after == (TargetView { status: after.status, ..target })
                &&& after.status matches TargetStatus::Opening {
                    attempt,
                    next_send_at,
                    awaiting_receiver_generation,
                } && attempt == target.status->attempt + 1 && next_send_at == deadline
                    && awaiting_receiver_generation is None
            }
            &&& result is Err ==> after.status is Finished && (after.final_reason matches Some(
                EndReasonView::OpenFailed(_),
            ))
        }),
{
}

/// One request that was sent and not answered: when it was sent, and which
/// drain the target waited for afterwards.
pub ghost struct SilentRound {
    pub completed: u64,
    pub now: Instant,
    pub sent_at: Instant,
    pub awaited: u64,
}

/// The target after a round without an answer.
pub open spec fn after_round(target: TargetView, round: SilentRound, timeouts: Seq<Duration>) -> TargetView {
    match target.open_stepped(round.completed, round.now, round.sent_at, timeouts).1 {
        OpenStep::Send { deadline } => {
            let sent = target.open_sent(deadline, Ok::<(), IoError>(()));
            TargetView {
                status: TargetStatus::Opening {
                    attempt: sent.status->attempt,
                    next_send_at: sent.status->next_send_at,
                    awaiting_receiver_generation: Some(round.awaited),
                },
                ..sent
            }
        },
        _ => target,
    }
}

pub open spec fn after_rounds(
    target: TargetView,
    rounds: Seq<SilentRound>,
    timeouts: Seq<Duration>,
) -> TargetView
    decreases rounds.len(),
{
    if rounds.len() == 0 {
        target
    } else {
        after_round(after_rounds(target, rounds.drop_last(), timeouts), rounds.last(), timeouts)
    }
}

/// A request is sent in each of the rounds, none before it was decided on.
pub open spec fn all_send(target: TargetView, rounds: Seq<SilentRound>, timeouts: Seq<Duration>) -> bool {
    forall|k: int|
        0 <= k < rounds.len() ==> {
            let round = #[trigger] rounds[k];
            &&& round.now.nanos <= round.sent_at.nanos
            &&& after_rounds(target, rounds.take(k), timeouts).open_stepped(
                round.completed,
                round.now,
                round.sent_at,
                timeouts,
            ).1 is Send
        }
}

/// The first `count` timeouts added up.
pub open spec fn total(timeouts: Seq<Duration>, count: nat) -> int
    decreases count,
{
    if count == 0 {
        0
    } else {
        total(timeouts, (count - 1) as nat) + timeouts[count - 1].nanos
    }
}

proof fn lemma_rounds(target: TargetView, rounds: Seq<SilentRound>, timeouts: Seq<Duration>)
    requires
        target.final_reason is None,
        target.status matches TargetStatus::Opening { attempt, .. } && attempt == 0,
        timeouts.len() <= usize::MAX,
        rounds.len() > 0,
        all_send(target, rounds, timeouts),
    ensures
        ({
            let after = after_rounds(target, rounds, timeouts);
            &&& after.final_reason is None
            &&& rounds.len() <= timeouts.len()
            &&& after.status matches TargetStatus::Opening {
                attempt,
                next_send_at,
                awaiting_receiver_generation,
            } && attempt == rounds.len() && next_send_at.nanos == rounds.last().sent_at.nanos
                + timeouts[rounds.len() - 1].nanos && awaiting_receiver_generation is Some
            &&& after.status->next_send_at.nanos >= rounds[0].sent_at.nanos + total(
                timeouts,
                rounds.len(),
            )
        }),
    decreases rounds.len(),
{
    let n = rounds.len();
    let rest = rounds.drop_last();
    assert(rounds.take(n - 1) =~= rest);
    let last = rounds[n - 1];
    let before = after_rounds(target, rest, timeouts);
    assert(before.open_stepped(last.completed, last.now, last.sent_at, timeouts).1 is Send);
    assert(total(timeouts, n) == total(timeouts, (n - 1) as nat) + timeouts[n - 1].nanos);
    if rest.len() > 0 {
        assert forall|k: int| 0 <= k < rest.len() implies {
            let round = #[trigger] rest[k];
            &&& round.now.nanos <= round.sent_at.nanos
            &&& after_rounds(target, rest.take(k), timeouts).open_stepped(
                round.completed,
                round.now,
                round.sent_at,
                timeouts,
            ).1 is Send
        } by {
            assert(rounds[k] == rest[k]);
            assert(rounds.take(k) =~= rest.take(k));
        }
        lemma_rounds(target, rest, timeouts);
    } else {
        assert(total(timeouts, 0) == 0);
    }
}

/// The requests to a silent peer back off as configured: each is sent no
/// sooner than the one before it has had its whole timeout.
pub proof fn law_requests_back_off(
    target: TargetView,
    rounds: Seq<SilentRound>,
    timeouts: Seq<Duration>,
    k: int,
)
    requires
        target.final_reason is None,
        target.status matches TargetStatus::Opening { attempt, .. } && attempt == 0,
        timeouts.len() <= usize::MAX,
        all_send(target, rounds, timeouts),
        0 < k < rounds.len(),
    ensures
        rounds[k].sent_at.nanos >= rounds[k - 1].sent_at.nanos + timeouts[k - 1].nanos,
{
    let first = rounds.take(k);
    assert forall|j: int| 0 <= j < first.len() implies {
        let round = #[trigger] first[j];
        &&& round.now.nanos <= round.sent_at.nanos
        &&& after_rounds(target, first.take(j), timeouts).open_stepped(
            round.completed,
            round.now,
            round.sent_at,
            timeouts,
        ).1 is Send
    } by {
        assert(rounds[j] == first[j]);
        assert(rounds.take(j) =~= first.take(j));
    }
    lemma_rounds(target, first, timeouts);
    assert(rounds[k].now.nanos <= rounds[k].sent_at.nanos);
}

/// A silent peer is not given up early: a target whose every request was sent
/// fails to open only once all configured timeouts have passed, one after the
/// other, since its first request, and then for want of an answer.
pub proof fn law_silent_peer_gets_all_timeouts(
    target: TargetView,
    rounds: Seq<SilentRound>,
    timeouts: Seq<Duration>,
    completed: u64,
    now: Instant,
    sent_at: Instant,
)
    requires
        target.final_reason is None,
        target.status matches TargetStatus::Opening { attempt, .. } && attempt == 0,
        timeouts.len() <= usize::MAX,
        rounds.len() > 0,
        all_send(target, rounds, timeouts),
        sent_at.nanos + (if rounds.len() < timeouts.len() {
            timeouts[rounds.len() as int].nanos as int
        } else {
            0
        }) <= MAX_INSTANT_NANOS,
    ensures
        ({
            let (after, step) = after_rounds(target, rounds, timeouts).open_stepped(
                completed,
                now,
                sent_at,
                timeouts,
            );
            step is Failed ==> {
                &&& rounds.len() == timeouts.len()
                &&& now.nanos >= rounds[0].sent_at.nanos + total(timeouts, timeouts.len())
                &&& after.final_reason matches Some(EndReasonView::OpenFailed(failure))
                    && failure.kind == ManagedTargetFailureKind::OpeningTimeout
            }
        }),
{
    lemma_rounds(target, rounds, timeouts);
}

} // verus!
