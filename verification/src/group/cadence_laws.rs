//! What holds of the cadence of a group over many sends.
use vstd::prelude::*;

use crate::error::ClientError;
use crate::group::model::ManagedGroupPacing;
use crate::group::pacing::{
    burst_taken, current_slot, due_for_slot, earliest, law_cadence_skips_missed_slots,
    missed_slots, share, slot_taker, slot_target, sooner, staggered_taken, PacingView,
};
use crate::timing::{Duration, Instant, MAX_INSTANT_NANOS};

verus! {

/// `first` and `second` lie a whole number of intervals apart.
pub open spec fn on_grid(first: Instant, second: Instant, interval: Duration) -> bool {
    exists|slots: int| second.nanos - first.nanos == #[trigger] (slots * interval.nanos)
}

/// A change of the set of active targets leaves a running burst cadence as it
/// is. A burst cadence starts with the first active target and ends with the
/// last, and a staggered one starts over at once.
pub proof fn law_membership_and_cadence(pacing: PacingView, active: Seq<Seq<char>>, now: Instant)
    ensures
        ({
            let after = pacing.reconciled(active, now);
            &&& after.signature == active
            &&& after.mode == pacing.mode
            &&& active == pacing.signature ==> after == pacing
            &&& active.len() > 0 && pacing.mode == ManagedGroupPacing::Burst
                && pacing.next_burst_at is Some ==> after.wakeup() == pacing.next_burst_at
                && after.next_burst_at == pacing.next_burst_at
            &&& active.len() > 0 && active != pacing.signature && pacing.mode
                == ManagedGroupPacing::Burst && pacing.next_burst_at is None ==> after.wakeup()
                == Some(now) && after.next_burst_at == Some(now)
            &&& active.len() > 0 && active != pacing.signature && pacing.mode
                == ManagedGroupPacing::Staggered ==> after.wakeup() == Some(now)
                && after.next_slot_at == Some(now) && after.slot_index == 0
            &&& active.len() == 0 && active != pacing.signature ==> after.wakeup() is None
                && after.next_burst_at is None && after.next_slot_at is None
        }),
{
}

/// One move of a burst cadence: the set of active targets was looked at and is
/// not empty, or the current slot was taken, which is then `slot`.
pub open spec fn burst_move(
    before: PacingView,
    after: PacingView,
    slot: Option<Instant>,
    interval: Duration,
) -> bool {
    ||| slot is None && exists|active: Seq<Seq<char>>, now: Instant|
        active.len() > 0 && after == #[trigger] before.reconciled(active, now)
    ||| slot is Some && exists|now: Instant| #[trigger]
        burst_taken(before, interval, now, Ok::<_, ClientError>(slot), after)
}

/// The slots of one run of a burst cadence lie on one grid: whatever happens to
/// the set of active targets, while one stays active, every burst slot and the
/// next one are a whole number of intervals after the first.
pub proof fn law_burst_slots_lie_on_one_grid(
    states: Seq<PacingView>,
    slots: Seq<Option<Instant>>,
    interval: Duration,
    start: Instant,
)
    requires
        interval.nanos > 0,
        states.len() == slots.len() + 1,
        states[0].mode == ManagedGroupPacing::Burst,
        states[0].wakeup() == Some(start),
        forall|i: int|
            0 <= i < slots.len() ==> burst_move(
                states[i],
                states[i + 1],
                #[trigger] slots[i],
                interval,
            ),
    ensures
        states.last().wakeup() is Some,
        on_grid(start, states.last().wakeup()->0, interval),
        forall|i: int|
            0 <= i < slots.len() && (#[trigger] slots[i]) is Some ==> on_grid(
                start,
                slots[i]->0,
                interval,
            ),
    decreases slots.len(),
{
    lemma_burst_states(states, slots, interval, start);
}

proof fn lemma_burst_states(
    states: Seq<PacingView>,
    slots: Seq<Option<Instant>>,
    interval: Duration,
    start: Instant,
)
    requires
        interval.nanos > 0,
        states.len() == slots.len() + 1,
        states[0].mode == ManagedGroupPacing::Burst,
        states[0].next_burst_at == Some(start),
        forall|i: int|
            0 <= i < slots.len() ==> burst_move(
                states[i],
                states[i + 1],
                #[trigger] slots[i],
                interval,
            ),
    ensures
        states.last().mode == ManagedGroupPacing::Burst,
        states.last().next_burst_at is Some,
        on_grid(start, states.last().next_burst_at->0, interval),
        forall|i: int|
            0 <= i < slots.len() && (#[trigger] slots[i]) is Some ==> on_grid(
                start,
                slots[i]->0,
                interval,
            ),
    decreases slots.len(),
{
    if slots.len() == 0 {
        assert(start.nanos - start.nanos == 0 * interval.nanos);
        assert(on_grid(start, start, interval));
    } else {
        let n = slots.len() - 1;
        let rest = slots.drop_last();
        let earlier_states = states.drop_last();
        assert forall|i: int| 0 <= i < rest.len() implies burst_move(
            earlier_states[i],
            earlier_states[i + 1],
            #[trigger] rest[i],
            interval,
        ) by {
            assert(slots[i] == rest[i]);
        }
        lemma_burst_states(earlier_states, rest, interval, start);
        let before = states[n];
        assert(before == earlier_states.last());
        let after = states[n + 1];
        assert(burst_move(before, after, slots[n], interval));
        let next = before.next_burst_at->0;
        let k = choose|k: int| next.nanos - start.nanos == #[trigger] (k * interval.nanos);
        if slots[n] is Some {
            let now = choose|now: Instant| #[trigger]
                burst_taken(before, interval, now, Ok::<_, ClientError>(slots[n]), after);
            lemma_burst_step(before, interval, now, slots[n], after);
            let slot = slots[n]->0;
            let m = choose|m: int| slot.nanos - next.nanos == #[trigger] (m * interval.nanos);
            let following = after.next_burst_at->0;
            let w = interval.nanos as int;
            assert((k + m) * w == k * w + m * w) by (nonlinear_arith);
            assert((k + m + 1) * w == k * w + m * w + w) by (nonlinear_arith);
            assert(slot.nanos - start.nanos == (k + m) * interval.nanos);
            assert(following.nanos - start.nanos == (k + m + 1) * interval.nanos);
        }
        assert forall|i: int| 0 <= i < slots.len() && (#[trigger] slots[i]) is Some implies on_grid(
            start,
            slots[i]->0,
            interval,
        ) by {
            if i < n {
                assert(rest[i] == slots[i]);
            }
        }
    }
}

proof fn lemma_burst_step(
    before: PacingView,
    interval: Duration,
    now: Instant,
    slot: Option<Instant>,
    after: PacingView,
)
    requires
        interval.nanos > 0,
        before.next_burst_at is Some,
        burst_taken(before, interval, now, Ok::<_, ClientError>(slot), after),
    ensures
        slot is Some,
        on_grid(before.next_burst_at->0, slot->0, interval),
        after.next_burst_at is Some,
        after.next_burst_at->0.nanos == slot->0.nanos + interval.nanos,
        after == (PacingView { next_burst_at: after.next_burst_at, ..before }),
        before.next_burst_at->0.nanos <= now.nanos ==> slot->0.nanos <= now.nanos
            < slot->0.nanos + interval.nanos,
        now.nanos <= before.next_burst_at->0.nanos ==> slot == before.next_burst_at,
{
    let next = before.next_burst_at->0;
    let m = missed_slots(next, interval, now);
    if next.nanos <= now.nanos {
        law_cadence_skips_missed_slots(next, interval, now);
    }
    if now.nanos <= next.nanos {
        assert(m * interval.nanos == 0) by (nonlinear_arith)
            requires
                m == 0,
        ;
    }
    assert(current_slot(next, interval, now) - next.nanos == m * interval.nanos);
}

/// A burst slot that is taken is the current one: none after `now`, none that
/// was missed, on the grid of the cadence, and the next one is an interval
/// later. Nothing else of the cadence changes. It fails exactly where the
/// clock cannot represent the next slot, and then changes nothing.
pub proof fn law_burst_takes_the_current_slot(
    before: PacingView,
    interval: Duration,
    now: Instant,
    result: Result<Option<Instant>, ClientError>,
    after: PacingView,
)
    requires
        interval.nanos > 0,
        burst_taken(before, interval, now, result, after),
    ensures
        before.next_burst_at is None <==> result == Ok::<_, ClientError>(None::<Instant>),
        result is Err || before.next_burst_at is None ==> after == before,
        result matches Ok(Some(slot)) ==> {
            let next = before.next_burst_at->0;
            &&& on_grid(next, slot, interval)
            &&& next.nanos <= now.nanos ==> slot.nanos <= now.nanos < slot.nanos + interval.nanos
            &&& now.nanos <= next.nanos ==> slot == next
            &&& after == (PacingView { next_burst_at: after.next_burst_at, ..before })
            &&& after.next_burst_at matches Some(following) && following.nanos == slot.nanos
                + interval.nanos && following.nanos <= MAX_INSTANT_NANOS
        },
        result matches Err(error) ==> error is DurationOverflow && (if now.nanos
            <= before.next_burst_at->0.nanos {
            before.next_burst_at->0.nanos
        } else {
            now.nanos
        }) + interval.nanos > MAX_INSTANT_NANOS,
        before.next_burst_at is Some && before.next_burst_at->0.nanos + interval.nanos
            <= MAX_INSTANT_NANOS && now.nanos + interval.nanos <= MAX_INSTANT_NANOS ==> result
            is Ok,
{
    if before.next_burst_at is Some {
        let next = before.next_burst_at->0;
        let m = missed_slots(next, interval, now);
        if next.nanos <= now.nanos {
            law_cadence_skips_missed_slots(next, interval, now);
        }
        if now.nanos <= next.nanos {
            assert(m * interval.nanos == 0) by (nonlinear_arith)
                requires
                    m == 0,
            ;
        }
        if let Ok(slot) = result {
            lemma_burst_step(before, interval, now, slot, after);
        }
    }
}

/// An equal share is no more than what is shared out, or a nanosecond, and all
/// shares together fall short of the whole by less than one for each.
pub proof fn law_shares_fill_the_interval(interval: Duration, count: nat)
    requires
        count > 0,
        interval.nanos <= u64::MAX,
    ensures
        ({
            let part = share(interval, count).nanos;
            &&& part >= 1
            &&& interval.nanos >= count ==> part * count <= interval.nanos < part * count + count
            &&& interval.nanos < count ==> part == 1
        }),
{
    let d = interval.nanos as int;
    let n = count as int;
    let q = d / n;
    assert(q * n <= d && d < q * n + n && (d >= n ==> q >= 1) && (d < n ==> q == 0))
        by (nonlinear_arith)
        requires
            q == d / n,
            n > 0,
            d >= 0,
    ;
    assert(q <= d) by (nonlinear_arith)
        requires
            q == d / n,
            n > 0,
            d >= 0,
    ;
}

/// The earliest of some deadlines is one of them, and none is before it.
pub proof fn law_earliest_is_the_first(deadlines: Seq<Option<Instant>>)
    ensures
        forall|i: int|
            0 <= i < deadlines.len() && (#[trigger] deadlines[i]) is Some ==> earliest(deadlines)
                is Some && earliest(deadlines)->0.nanos <= deadlines[i]->0.nanos,
        earliest(deadlines) is Some ==> deadlines.contains(earliest(deadlines)),
    decreases deadlines.len(),
{
    if deadlines.len() > 0 {
        let rest = deadlines.drop_last();
        law_earliest_is_the_first(rest);
        assert forall|i: int| 0 <= i < deadlines.len() && (#[trigger] deadlines[i]) is Some implies
            earliest(deadlines) is Some && earliest(deadlines)->0.nanos <= deadlines[i]->0.nanos by {
            if i < rest.len() {
                assert(rest[i] == deadlines[i]);
            }
        }
        if earliest(deadlines) is Some {
            if earliest(deadlines) == earliest(rest) {
                let i = choose|i: int| 0 <= i < rest.len() && rest[i] == earliest(rest);
                assert(deadlines[i] == earliest(deadlines));
            } else {
                assert(deadlines[deadlines.len() - 1] == earliest(deadlines));
            }
        }
    }
}

/// A staggered slot that goes to a target goes to one whose own deadline has
/// come by then, and the next slot follows after an equal share of the
/// interval. The turn passes to the target after the one that sends. Where
/// there is no such target the cadence resumes no later than the next slot and
/// no later than a target may send.
pub proof fn law_staggered_slot_goes_to_a_due_target(
    before: PacingView,
    deadlines: Seq<Option<Instant>>,
    interval: Duration,
    now: Instant,
    result: Result<Option<(usize, Instant)>, ClientError>,
    after: PacingView,
)
    requires
        before.next_slot_at is Some,
        0 < deadlines.len() <= usize::MAX,
        staggered_taken(before, deadlines, interval, now, result, after),
    ensures
        ({
            let n = deadlines.len();
            let next = before.next_slot_at->0;
            let spacing = share(interval, n);
            &&& after == (PacingView {
                next_slot_at: after.next_slot_at,
                slot_index: after.slot_index,
                ..before
            })
            &&& result is Err ==> after == before && result->Err_0 is DurationOverflow
            &&& result matches Ok(Some((index, slot))) ==> {
                &&& index < n
                &&& deadlines[index as int] matches Some(deadline) && deadline.nanos <= slot.nanos
                &&& on_grid(next, slot, spacing)
                &&& next.nanos <= now.nanos ==> slot.nanos <= now.nanos < slot.nanos + spacing.nanos
                &&& now.nanos <= next.nanos ==> slot == next
                &&& after.next_slot_at matches Some(following) && following.nanos == slot.nanos
                    + spacing.nanos
                &&& after.slot_index == (if index + 1 == n {
                    0
                } else {
                    index + 1
                })
            }
            &&& result == Ok::<_, ClientError>(None::<(usize, Instant)>) ==> {
                &&& after.next_slot_at is Some
                &&& forall|i: int|
                    0 <= i < n && (#[trigger] deadlines[i]) is Some ==> deadlines[i]->0.nanos
                        > current_slot(next, spacing, now) && after.next_slot_at->0.nanos
                        <= deadlines[i]->0.nanos
                &&& after.next_slot_at->0.nanos <= current_slot(next, spacing, now) + spacing.nanos
                &&& after.next_slot_at->0.nanos < current_slot(next, spacing, now) + spacing.nanos
                    ==> deadlines.contains(after.next_slot_at)
            }
        }),
{
    let n = deadlines.len();
    let next = before.next_slot_at->0;
    let spacing = share(interval, n);
    let m = missed_slots(next, spacing, now);
    if next.nanos <= now.nanos {
        law_cadence_skips_missed_slots(next, spacing, now);
    }
    if now.nanos <= next.nanos {
        assert(m * spacing.nanos == 0) by (nonlinear_arith)
            requires
                m == 0,
        ;
    }
    assert(current_slot(next, spacing, now) - next.nanos == m * spacing.nanos);
    let first = slot_target(before.slot_index, m, n);
    vstd::arithmetic::div_mod::lemma_mod_bound(m, n as int);
    vstd::arithmetic::div_mod::lemma_mod_bound(before.slot_index + m % n as int, n as int);
    law_earliest_is_the_first(deadlines);
    match result {
        Ok(Some((index, slot))) => {
            let offset = choose|offset: int| #[trigger]
                slot_taker(deadlines, first, slot, offset) && index == (first + offset) % n as int;
            assert(due_for_slot(deadlines[(first + offset) % n as int], slot));
            assert(slot.nanos == current_slot(next, spacing, now));
            assert(slot.nanos - next.nanos == m * spacing.nanos);
            crate::ring::lemma_ring_step(index as int, n as int);
            vstd::arithmetic::div_mod::lemma_small_mod(index as nat, n);
        },
        Ok(None) => {
            let scheduled_at = Instant { nanos: current_slot(next, spacing, now) as u128 };
            assert forall|i: int| 0 <= i < n && (#[trigger] deadlines[i]) is Some implies
                deadlines[i]->0.nanos > current_slot(next, spacing, now) by {
                let k = if i >= first {
                    i - first
                } else {
                    i - first + n
                };
                if i >= first {
                    vstd::arithmetic::div_mod::lemma_small_mod(i as nat, n);
                } else {
                    vstd::arithmetic::div_mod::lemma_fundamental_div_mod_converse(
                        first + k,
                        n as int,
                        1,
                        i,
                    );
                }
                assert((first + k) % n as int == i);
                assert(!due_for_slot(deadlines[(first + k) % n as int], scheduled_at));
            }
        },
        Err(_) => {},
    }
}

/// In turn, nobody is passed over: a target between the one whose turn it is
/// and the one that gets the slot could not send by then.
pub proof fn law_staggered_slots_go_in_turn(
    before: PacingView,
    deadlines: Seq<Option<Instant>>,
    interval: Duration,
    now: Instant,
    index: usize,
    slot: Instant,
    after: PacingView,
    passed: int,
)
    requires
        before.next_slot_at is Some,
        deadlines.len() > 0,
        before.slot_index < deadlines.len(),
        now.nanos <= before.next_slot_at->0.nanos,
        staggered_taken(
            before,
            deadlines,
            interval,
            now,
            Ok::<_, ClientError>(Some((index, slot))),
            after,
        ),
        0 <= passed < deadlines.len(),
        before.slot_index <= index ==> before.slot_index <= passed < index,
        index < before.slot_index ==> before.slot_index <= passed || passed < index,
    ensures
        !(deadlines[passed] matches Some(deadline) && deadline.nanos <= slot.nanos),
{
    let n = deadlines.len();
    let ni = n as int;
    let first = before.slot_index as int;
    vstd::arithmetic::div_mod::lemma_small_mod(0, n);
    vstd::arithmetic::div_mod::lemma_small_mod(first as nat, n);
    assert(slot_target(before.slot_index, 0, n) == first);
    let offset = choose|offset: int| #[trigger]
        slot_taker(deadlines, first, slot, offset) && index == (first + offset) % ni;
    let k = if passed >= first {
        passed - first
    } else {
        passed - first + n
    };
    if passed >= first {
        vstd::arithmetic::div_mod::lemma_small_mod(passed as nat, n);
    } else {
        vstd::arithmetic::div_mod::lemma_fundamental_div_mod_converse(first + k, ni, 1, passed);
    }
    assert((first + k) % ni == passed);
    if first + offset < ni {
        vstd::arithmetic::div_mod::lemma_small_mod((first + offset) as nat, n);
    } else {
        vstd::arithmetic::div_mod::lemma_fundamental_div_mod_converse(
            first + offset,
            ni,
            1,
            first + offset - ni,
        );
    }
    assert(k < offset);
    assert(!due_for_slot(deadlines[(first + k) % ni], slot));
}

} // verus!
