//! Cadence of sends within a group.
use vstd::prelude::*;

use crate::error::ClientError;
use crate::group::model::{ManagedGroupPacing, TargetId};
use crate::ring::lemma_ring_step;
use crate::timing::{earlier, earlier_instant, Duration, Instant, MAX_INSTANT_NANOS};

verus! {

/// How many whole intervals lie between the slot at `next_at` and `now`.
pub open spec fn missed_slots(next_at: Instant, interval: Duration, now: Instant) -> int
    recommends
        interval.nanos > 0,
{
    if now.nanos <= next_at.nanos {
        0
    } else {
        (now.nanos - next_at.nanos) / interval.nanos as int
    }
}

/// The slot of a cadence that is current at `now`, in nanoseconds.
pub open spec fn current_slot(next_at: Instant, interval: Duration, now: Instant) -> int {
    next_at.nanos + missed_slots(next_at, interval, now) * interval.nanos
}

/// A slot of a cadence, the one after it, and how many were skipped before it.
#[derive(Debug, Clone, Copy, PartialEq, Eq, Structural)]
pub struct CadenceStep {
    pub scheduled_at: Instant,
    pub following_at: Instant,
    pub skipped: u128,
}

/// The current slot of the cadence that starts at `next_at`. Slots that were
/// missed are skipped. It fails where the clock cannot represent the next slot.
pub fn advance_cadence(next_at: Instant, interval: Duration, now: Instant) -> (result: Result<
    CadenceStep,
    ClientError,
>)
    requires
        interval.nanos > 0,
    ensures
        ({
            let slot = current_slot(next_at, interval, now);
            if slot + interval.nanos > MAX_INSTANT_NANOS {
                result == Err::<CadenceStep, _>(ClientError::DurationOverflow)
            } else {
                result == Ok::<_, ClientError>(
                    CadenceStep {
                        scheduled_at: Instant { nanos: slot as u128 },
                        following_at: Instant { nanos: (slot + interval.nanos) as u128 },
                        skipped: missed_slots(next_at, interval, now) as u128,
                    },
                )
            }
        }),
{
    let skipped: u128 = if now.nanos <= next_at.nanos {
        0
    } else {
        (now.nanos - next_at.nanos) / interval.nanos
    };
    proof {
        lemma_slot_bounds(next_at, interval, now);
    }
    let slot: u128 = next_at.nanos + skipped * interval.nanos;
    let scheduled_at = Instant { nanos: slot };
    match scheduled_at.checked_add(interval) {
        Some(following_at) => Ok(CadenceStep { scheduled_at, following_at, skipped }),
        None => Err(ClientError::DurationOverflow),
    }
}

proof fn lemma_slot_bounds(next_at: Instant, interval: Duration, now: Instant)
    requires
        interval.nanos > 0,
    ensures
        missed_slots(next_at, interval, now) >= 0,
        missed_slots(next_at, interval, now) * interval.nanos >= 0,
        now.nanos > next_at.nanos ==> {
            &&& missed_slots(next_at, interval, now) * interval.nanos <= now.nanos - next_at.nanos
            &&& now.nanos - next_at.nanos < (missed_slots(next_at, interval, now) + 1)
                * interval.nanos
        },
{
    if now.nanos > next_at.nanos {
        let elapsed = now.nanos - next_at.nanos;
        let n = interval.nanos as int;
        let q = elapsed / n;
        assert(q * n <= elapsed && elapsed < (q + 1) * n && q >= 0 && q * n >= 0)
            by (nonlinear_arith)
            requires
                q == elapsed / n,
                n > 0,
                elapsed > 0,
        ;
    }
}

/// A delayed cadence sends the slot that is current, once, and never a missed
/// one: the slot is not in the future of a delayed `now`, the next one is, and
/// both stay on the grid that starts at `next_at`.
pub proof fn law_cadence_skips_missed_slots(next_at: Instant, interval: Duration, now: Instant)
    requires
        interval.nanos > 0,
        next_at.nanos <= now.nanos,
    ensures
        ({
            let slot = current_slot(next_at, interval, now);
            &&& next_at.nanos <= slot <= now.nanos
            &&& slot + interval.nanos > now.nanos
            &&& slot - next_at.nanos == missed_slots(next_at, interval, now) * interval.nanos
        }),
{
    lemma_slot_bounds(next_at, interval, now);
    let m = missed_slots(next_at, interval, now);
    assert((m + 1) * interval.nanos == m * interval.nanos + interval.nanos) by (nonlinear_arith);
}

/// An equal share of `duration`, at least one nanosecond and at most `u64::MAX`.
/// With nobody to share it is the whole.
pub open spec fn share(duration: Duration, divisor: nat) -> Duration {
    if divisor == 0 {
        duration
    } else {
        let part = duration.nanos as int / divisor as int;
        Duration {
            nanos: if part < 1 {
                1
            } else if part > u64::MAX {
                u64::MAX as u128
            } else {
                part as u128
            },
        }
    }
}

pub fn divide_duration(duration: Duration, divisor: usize) -> (result: Duration)
    ensures
        result == share(duration, divisor as nat),
{
    if divisor == 0 {
        return duration;
    }
    let part: u128 = duration.nanos / divisor as u128;
    if part < 1 {
        Duration { nanos: 1 }
    } else if part > u64::MAX as u128 {
        Duration { nanos: u64::MAX as u128 }
    } else {
        Duration { nanos: part }
    }
}

/// The position of the slot of a staggered cadence: each skipped slot skips
/// one target.
pub open spec fn slot_target(slot_index: usize, skipped: int, active_len: nat) -> int {
    (slot_index + skipped % active_len as int) % active_len as int
}

/// The current staggered slot, the one after it, and the target it falls to.
pub fn advance_staggered_slot(
    next_slot_at: Instant,
    interval: Duration,
    active_len: usize,
    slot_index: usize,
    now: Instant,
) -> (result: Result<(Instant, Instant, usize), ClientError>)
    requires
        active_len > 0,
    ensures
        ({
            let spacing = share(interval, active_len as nat);
            let slot = current_slot(next_slot_at, spacing, now);
            if slot + spacing.nanos > MAX_INSTANT_NANOS {
                result == Err::<(Instant, Instant, usize), _>(ClientError::DurationOverflow)
            } else {
                result == Ok::<_, ClientError>(
                    (
                        Instant { nanos: slot as u128 },
                        Instant { nanos: (slot + spacing.nanos) as u128 },
                        slot_target(
                            slot_index,
                            missed_slots(next_slot_at, spacing, now),
                            active_len as nat,
                        ) as usize,
                    ),
                )
            }
        }),
        result matches Ok(step) ==> step.2 < active_len,
{
    let spacing = divide_duration(interval, active_len);
    let step = match advance_cadence(next_slot_at, spacing, now) {
        Ok(step) => step,
        Err(error) => {
            return Err(error);
        },
    };
    proof {
        lemma_slot_bounds(next_slot_at, spacing, now);
        let m = missed_slots(next_slot_at, spacing, now);
        assert(m <= now.nanos) by {
            if now.nanos > next_slot_at.nanos {
                assert(m <= m * spacing.nanos) by (nonlinear_arith)
                    requires
                        m >= 0,
                        spacing.nanos > 0,
                ;
            }
        }
    }
    let skipped: usize = (step.skipped % active_len as u128) as usize;
    let base: usize = slot_index % active_len;
    let first: usize = if base < active_len - skipped {
        base + skipped
    } else {
        base - (active_len - skipped)
    };
    proof {
        let total = base as int + skipped as int;
        let n = active_len as int;
        if total < n {
            vstd::arithmetic::div_mod::lemma_small_mod(total as nat, n as nat);
        } else {
            vstd::arithmetic::div_mod::lemma_fundamental_div_mod_converse(total, n, 1, total - n);
        }
        vstd::arithmetic::div_mod::lemma_add_mod_noop(slot_index as int, skipped as int, n);
        vstd::arithmetic::div_mod::lemma_add_mod_noop(base as int, skipped as int, n);
        vstd::arithmetic::div_mod::lemma_small_mod(base as nat, n as nat);
        vstd::arithmetic::div_mod::lemma_small_mod(skipped as nat, n as nat);
    }
    Ok((step.scheduled_at, step.following_at, first))
}

/// The earliest of the deadlines that are there.
pub open spec fn earliest(deadlines: Seq<Option<Instant>>) -> Option<Instant>
    decreases deadlines.len(),
{
    if deadlines.len() == 0 {
        None
    } else {
        earlier(earliest(deadlines.drop_last()), deadlines.last())
    }
}

/// `at`, or the deadline where that is sooner.
pub open spec fn sooner(at: Instant, deadline: Option<Instant>) -> Instant {
    match deadline {
        Some(deadline) if deadline.nanos < at.nanos => deadline,
        _ => at,
    }
}

pub fn earliest_deadline(deadlines: &Vec<Option<Instant>>) -> (result: Option<Instant>)
    ensures
        result == earliest(deadlines@),
{
    let mut result: Option<Instant> = None;
    let mut i: usize = 0;
    while i < deadlines.len()
        invariant
            i <= deadlines@.len(),
            result == earliest(deadlines@.take(i as int)),
        decreases deadlines@.len() - i,
    {
        assert(deadlines@.take(i as int + 1).drop_last() =~= deadlines@.take(i as int));
        result = earlier_instant(result, deadlines[i]);
        i += 1;
    }
    assert(deadlines@.take(i as int) =~= deadlines@);
    result
}

/// A target with this deadline may send in the slot at `scheduled_at`.
pub open spec fn due_for_slot(deadline: Option<Instant>, scheduled_at: Instant) -> bool {
    deadline matches Some(deadline) && deadline.nanos <= scheduled_at.nanos
}

/// The first target, counted from `first` around the ring, that may send in
/// the slot.
pub open spec fn slot_taker(
    deadlines: Seq<Option<Instant>>,
    first: int,
    scheduled_at: Instant,
    offset: int,
) -> bool {
    let n = deadlines.len() as int;
    &&& 0 <= offset < n
    &&& due_for_slot(deadlines[(first + offset) % n], scheduled_at)
    &&& forall|k: int|
        0 <= k < offset ==> !due_for_slot(deadlines[#[trigger] ((first + k) % n)], scheduled_at)
}

/// Where a group stands in its cadence.
#[derive(Debug)]
pub struct PacingRuntime {
    pub mode: ManagedGroupPacing,
    /// The active targets that the cadence was set up for.
    pub signature: Vec<TargetId>,
    pub next_slot_at: Option<Instant>,
    pub slot_index: usize,
    pub next_burst_at: Option<Instant>,
}

pub ghost struct PacingView {
    pub mode: ManagedGroupPacing,
    pub signature: Seq<Seq<char>>,
    pub next_slot_at: Option<Instant>,
    pub slot_index: usize,
    pub next_burst_at: Option<Instant>,
}

pub open spec fn id_views(ids: Seq<TargetId>) -> Seq<Seq<char>> {
    ids.map_values(|id: TargetId| id@)
}

impl View for PacingRuntime {
    type V = PacingView;

    open spec fn view(&self) -> PacingView {
        PacingView {
            mode: self.mode,
            signature: id_views(self.signature@),
            next_slot_at: self.next_slot_at,
            slot_index: self.slot_index,
            next_burst_at: self.next_burst_at,
        }
    }
}

impl PacingView {
    /// A cadence without active targets.
    pub open spec fn idle(mode: ManagedGroupPacing) -> PacingView {
        PacingView {
            mode,
            signature: Seq::empty(),
            next_slot_at: None,
            slot_index: 0,
            next_burst_at: None,
        }
    }

    /// The cadence after the set of active targets was looked at. The same set
    /// keeps it. Another set restarts a staggered cadence now, while a burst
    /// cadence that runs goes on. With no active target there is none.
    pub open spec fn reconciled(self, active: Seq<Seq<char>>, now: Instant) -> PacingView {
        if active == self.signature {
            self
        } else if active.len() == 0 {
            PacingView {
                signature: active,
                slot_index: 0,
                next_slot_at: None,
                next_burst_at: None,
                ..self
            }
        } else {
            match self.mode {
                ManagedGroupPacing::Staggered => PacingView {
                    signature: active,
                    slot_index: 0,
                    next_slot_at: Some(now),
                    ..self
                },
                ManagedGroupPacing::Burst => PacingView {
                    signature: active,
                    slot_index: 0,
                    next_burst_at: match self.next_burst_at {
                        Some(at) => Some(at),
                        None => Some(now),
                    },
                    ..self
                },
            }
        }
    }

    pub open spec fn wakeup(self) -> Option<Instant> {
        match self.mode {
            ManagedGroupPacing::Staggered => self.next_slot_at,
            ManagedGroupPacing::Burst => self.next_burst_at,
        }
    }
}

/// Taking the current staggered slot in state `before` yields `result` and
/// leaves `after`.
pub open spec fn staggered_taken(
    before: PacingView,
    deadlines: Seq<Option<Instant>>,
    interval: Duration,
    now: Instant,
    result: Result<Option<(usize, Instant)>, ClientError>,
    after: PacingView,
) -> bool {
    match before.next_slot_at {
        None => result == Ok::<_, ClientError>(None::<(usize, Instant)>) && after
            == before,
        Some(next) => if deadlines.len() == 0 {
            &&& result == Ok::<_, ClientError>(None::<(usize, Instant)>)
            &&& after == (PacingView { next_slot_at: None, ..before })
        } else {
            let n = deadlines.len();
            let spacing = share(interval, n);
            let slot = current_slot(next, spacing, now);
            let scheduled_at = Instant { nanos: slot as u128 };
            let following_at = Instant { nanos: (slot + spacing.nanos) as u128 };
            let first = slot_target(
                before.slot_index,
                missed_slots(next, spacing, now),
                n,
            );
            if slot + spacing.nanos > MAX_INSTANT_NANOS {
                &&& result == Err::<Option<(usize, Instant)>, _>(
                    ClientError::DurationOverflow,
                )
                &&& after == before
            } else {
                match result {
                    Ok(Some((index, at))) => {
                        &&& at == scheduled_at
                        &&& index < n
                        &&& exists|offset: int| #[trigger]
                            slot_taker(deadlines, first, scheduled_at, offset) && index
                                == (first + offset) % n as int
                        &&& after == (PacingView {
                            next_slot_at: Some(following_at),
                            slot_index: ((index + 1) % n as int) as usize,
                            ..before
                        })
                    },
                    Ok(None) => {
                        &&& forall|k: int|
                            0 <= k < n ==> !due_for_slot(
                                deadlines[#[trigger] ((first + k) % n as int)],
                                scheduled_at,
                            )
                        &&& after == (PacingView {
                            next_slot_at: Some(
                                sooner(following_at, earliest(deadlines)),
                            ),
                            slot_index: ((first + 1) % n as int) as usize,
                            ..before
                        })
                    },
                    Err(_) => false,
                }
            }
        },
    }
}

/// Taking the current burst slot in state `before` yields `result` and leaves
/// `after`.
pub open spec fn burst_taken(
    before: PacingView,
    interval: Duration,
    now: Instant,
    result: Result<Option<Instant>, ClientError>,
    after: PacingView,
) -> bool {
    match before.next_burst_at {
        None => result == Ok::<_, ClientError>(None::<Instant>) && after == before,
        Some(next) => {
            let slot = current_slot(next, interval, now);
            if slot + interval.nanos > MAX_INSTANT_NANOS {
                &&& result == Err::<Option<Instant>, _>(ClientError::DurationOverflow)
                &&& after == before
            } else {
                &&& result == Ok::<_, ClientError>(
                    Some(Instant { nanos: slot as u128 }),
                )
                &&& after == (PacingView {
                    next_burst_at: Some(
                        Instant { nanos: (slot + interval.nanos) as u128 },
                    ),
                    ..before
                })
            }
        },
    }
}

fn same_ids(first: &Vec<TargetId>, second: &Vec<TargetId>) -> (result: bool)
    ensures
        result == (id_views(first@) == id_views(second@)),
{
    if first.len() != second.len() {
        assert(id_views(first@).len() != id_views(second@).len());
        return false;
    }
    let mut i: usize = 0;
    while i < first.len()
        invariant
            i <= first@.len(),
            first@.len() == second@.len(),
            forall|j: int| 0 <= j < i ==> (#[trigger] first@[j])@ == second@[j]@,
        decreases first@.len() - i,
    {
        if !first[i].same(&second[i]) {
            assert(id_views(first@)[i as int] != id_views(second@)[i as int]);
            return false;
        }
        i += 1;
    }
    assert(id_views(first@) =~= id_views(second@));
    true
}

impl PacingRuntime {
    pub fn new(mode: ManagedGroupPacing) -> (result: PacingRuntime)
        ensures
            result@ == PacingView::idle(mode),
    {
        let result = PacingRuntime {
            mode,
            signature: Vec::new(),
            next_slot_at: None,
            slot_index: 0,
            next_burst_at: None,
        };
        assert(result@.signature =~= Seq::<Seq<char>>::empty());
        result
    }

    /// Adapts the cadence to the active targets, listed in their order.
    pub fn reconcile(&mut self, active: Vec<TargetId>, now: Instant)
        ensures
            final(self)@ == old(self)@.reconciled(id_views(active@), now),
    {
        if same_ids(&active, &self.signature) {
            return;
        }
        let empty: bool = active.len() == 0;
        self.signature = active;
        self.slot_index = 0;
        if empty {
            self.next_slot_at = None;
            self.next_burst_at = None;
        } else {
            match self.mode {
                ManagedGroupPacing::Staggered => {
                    self.next_slot_at = Some(now);
                },
                ManagedGroupPacing::Burst => {
                    if self.next_burst_at.is_none() {
                        self.next_burst_at = Some(now);
                    }
                },
            }
        }
    }

    /// Whether a slot of the cadence has come, with `active` targets to use it.
    pub fn send_due(&self, active: usize, now: Instant) -> (result: bool)
        ensures
            result == (active > 0 && (self@.wakeup() matches Some(deadline) && deadline.nanos
                <= now.nanos)),
    {
        if active == 0 {
            return false;
        }
        match self.next_wakeup() {
            Some(deadline) => deadline.nanos <= now.nanos,
            None => false,
        }
    }

    /// Takes the current staggered slot. It goes to the first active target, in
    /// turn, that may send by then; `deadlines` holds when each one may. Where
    /// none may, the cadence resumes when the first one does.
    pub fn next_staggered(
        &mut self,
        deadlines: &Vec<Option<Instant>>,
        interval: Duration,
        now: Instant,
    ) -> (result: Result<Option<(usize, Instant)>, ClientError>)
        ensures
            staggered_taken(old(self)@, deadlines@, interval, now, result, final(self)@),
    {
        let next: Instant = match self.next_slot_at {
            Some(next) => next,
            None => {
                return Ok(None);
            },
        };
        let n: usize = deadlines.len();
        if n == 0 {
            self.next_slot_at = None;
            return Ok(None);
        }
        let (scheduled_at, following_at, first) = match advance_staggered_slot(
            next,
            interval,
            n,
            self.slot_index,
            now,
        ) {
            Ok(step) => step,
            Err(error) => {
                return Err(error);
            },
        };
        self.next_slot_at = Some(following_at);
        let mut offset: usize = 0;
        let mut index: usize = first;
        proof {
            vstd::arithmetic::div_mod::lemma_small_mod(first as nat, n as nat);
        }
        while offset < n
            invariant
                n == deadlines@.len(),
                n > 0,
                offset <= n,
                index < n,
                first < n,
                index == (first as int + offset as int) % n as int,
                self@ == (PacingView { next_slot_at: Some(following_at), ..old(self)@ }),
                old(self).next_slot_at == Some(next),
                ({
                    let spacing = share(interval, n as nat);
                    let slot = current_slot(next, spacing, now);
                    &&& slot + spacing.nanos <= MAX_INSTANT_NANOS
                    &&& scheduled_at == Instant { nanos: slot as u128 }
                    &&& following_at == Instant { nanos: (slot + spacing.nanos) as u128 }
                    &&& first == slot_target(
                        old(self).slot_index,
                        missed_slots(next, spacing, now),
                        n as nat,
                    )
                }),
                forall|k: int|
                    0 <= k < offset ==> !due_for_slot(
                        deadlines@[#[trigger] ((first + k) % n as int)],
                        scheduled_at,
                    ),
            decreases n - offset,
        {
            let due: bool = match deadlines[index] {
                Some(deadline) => deadline.nanos <= scheduled_at.nanos,
                None => false,
            };
            proof {
                lemma_ring_step(first as int + offset as int, n as int);
                lemma_ring_step(index as int, n as int);
                vstd::arithmetic::div_mod::lemma_small_mod(index as nat, n as nat);
            }
            let after: usize = if index + 1 == n {
                0
            } else {
                index + 1
            };
            if due {
                self.slot_index = after;
                assert(slot_taker(deadlines@, first as int, scheduled_at, offset as int));
                return Ok(Some((index, scheduled_at)));
            }
            index = after;
            offset += 1;
        }
        proof {
            lemma_ring_step(first as int, n as int);
            vstd::arithmetic::div_mod::lemma_small_mod(first as nat, n as nat);
        }
        self.slot_index = if first + 1 == n {
            0
        } else {
            first + 1
        };
        let resume = earliest_deadline(deadlines);
        if let Some(deadline) = resume {
            if deadline.nanos < following_at.nanos {
                self.next_slot_at = Some(deadline);
            }
        }
        Ok(None)
    }

    /// Takes the current burst slot.
    pub fn next_burst(&mut self, interval: Duration, now: Instant) -> (result: Result<
        Option<Instant>,
        ClientError,
    >)
        requires
            interval.nanos > 0,
        ensures
            burst_taken(old(self)@, interval, now, result, final(self)@),
    {
        let next: Instant = match self.next_burst_at {
            Some(next) => next,
            None => {
                return Ok(None);
            },
        };
        match advance_cadence(next, interval, now) {
            Ok(step) => {
                self.next_burst_at = Some(step.following_at);
                Ok(Some(step.scheduled_at))
            },
            Err(error) => Err(error),
        }
    }

    pub fn next_wakeup(&self) -> (result: Option<Instant>)
        ensures
            result == self@.wakeup(),
    {
        match self.mode {
            ManagedGroupPacing::Staggered => self.next_slot_at,
            ManagedGroupPacing::Burst => self.next_burst_at,
        }
    }
}

/// In the slots of one staggered round without delay, every target gets its
/// own: consecutive slots fall to consecutive targets.
pub proof fn law_staggered_slots_are_distinct(slot_index: usize, active_len: nat, step: nat)
    requires
        active_len > 0,
        slot_index < active_len,
        0 < step < active_len,
    ensures
        slot_target(slot_index, 0, active_len) == slot_index,
        slot_target(slot_index, step as int, active_len) != slot_target(slot_index, 0, active_len),
{
    let n = active_len as int;
    vstd::arithmetic::div_mod::lemma_small_mod(0, active_len);
    vstd::arithmetic::div_mod::lemma_small_mod(slot_index as nat, active_len);
    vstd::arithmetic::div_mod::lemma_small_mod(step, active_len);
    let total = slot_index as int + step as int;
    if total < n {
        vstd::arithmetic::div_mod::lemma_small_mod(total as nat, active_len);
    } else {
        vstd::arithmetic::div_mod::lemma_fundamental_div_mod_converse(total, n, 1, total - n);
    }
}

} // verus!
