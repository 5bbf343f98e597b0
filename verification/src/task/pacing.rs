//! Spacing of sends across targets.
use vstd::prelude::*;

use crate::task::state::ManagedClientTask;
use crate::task::target::TargetState;
use crate::task::view::{
    active_count, active_spacing, future_gate, gate_after_addition, sending_count,
    shortest_interval, spacing, TaskView,
};
use crate::timing::{earlier_instant, Duration, Instant};

verus! {

/// The share of `interval` that falls to each of `active_targets` targets, and
/// at least a nanosecond.
pub fn stagger_spacing(interval: Duration, active_targets: usize) -> (result: Duration)
    ensures
        result == spacing(interval, active_targets as nat),
{
    let divisor: u128 = if active_targets == 0 {
        1
    } else {
        active_targets as u128
    };
    let share: u128 = interval.nanos / divisor;
    Duration {
        nanos: if share < 1 {
            1
        } else {
            share
        },
    }
}

fn gate_in_future(gate: Option<Instant>, now: Instant) -> (result: Option<Instant>)
    ensures
        result == future_gate(gate, now),
{
    match gate {
        Some(gate) if gate.nanos > now.nanos => Some(gate),
        _ => None,
    }
}

impl ManagedClientTask {
    /// How many targets take part in pacing.
    pub fn active_count(&self) -> (result: usize)
        ensures
            result == active_count(self@.targets),
    {
        let mut count: usize = 0;
        let mut i: usize = 0;
        while i < self.target_count()
            invariant
                i <= self@.targets.len(),
                count <= i,
                count == active_count(self@.targets.take(i as int)),
            decreases self@.targets.len() - i,
        {
            let target = self.target(i);
            proof {
                assert(self@.targets.take(i as int + 1).drop_last() =~= self@.targets.take(
                    i as int,
                ));
            }
            if target.active && target.desired && target.retirement.is_none() {
                count += 1;
            }
            i += 1;
        }
        assert(self@.targets.take(i as int) =~= self@.targets);
        count
    }

    /// The number of targets that may send and the spacing between their
    /// sends, taken from the shortest interval negotiated by any of them.
    pub fn active_stagger_spacing(&self) -> (result: Option<(usize, Duration)>)
        ensures
            match result {
                Some((active, spacing)) => active_spacing(self@.targets) == Some(
                    (active as nat, spacing),
                ),
                None => active_spacing(self@.targets) is None,
            },
    {
        let mut active: usize = 0;
        let mut minimum: Option<Duration> = None;
        let mut i: usize = 0;
        while i < self.target_count()
            invariant
                i <= self@.targets.len(),
                active <= i,
                active == sending_count(self@.targets.take(i as int)),
                minimum == shortest_interval(self@.targets.take(i as int)),
            decreases self@.targets.len() - i,
        {
            let target = self.target(i);
            proof {
                assert(self@.targets.take(i as int + 1).drop_last() =~= self@.targets.take(
                    i as int,
                ));
            }
            if target.desired && target.retirement.is_none() {
                if let TargetState::Active { facts } = &target.state {
                    active += 1;
                    minimum = match minimum {
                        Some(shortest) => {
                            if facts.probe_interval.nanos < shortest.nanos {
                                Some(facts.probe_interval)
                            } else {
                                Some(shortest)
                            }
                        },
                        None => Some(facts.probe_interval),
                    };
                }
            }
            i += 1;
        }
        assert(self@.targets.take(i as int) =~= self@.targets);
        match minimum {
            Some(interval) => Some((active, stagger_spacing(interval, active))),
            None => None,
        }
    }

    /// A target became active. The send gate may move closer but never away.
    pub(crate) fn stagger_target_added(&mut self, now: Instant)
        ensures
            final(self)@ == (TaskView {
                send_gate: gate_after_addition(
                    old(self)@.send_gate,
                    old(self)@.last_stagger_send,
                    active_spacing(old(self)@.targets),
                    now,
                ),
                ..old(self)@
            }),
    {
        let gate = match gate_in_future(self.send_gate(), now) {
            None => None,
            Some(existing) => {
                let candidate = match (self.last_stagger_send(), self.active_stagger_spacing()) {
                    (Some(last), Some((_, spacing))) => gate_in_future(
                        last.checked_add(spacing),
                        now,
                    ),
                    _ => None,
                };
                match candidate {
                    Some(candidate) => earlier_instant(Some(existing), Some(candidate)),
                    None => None,
                }
            },
        };
        self.set_gate(gate);
    }

    /// A target ceased to be active. An elapsed gate is dropped and one in the
    /// future stays.
    pub(crate) fn stagger_target_removed(&mut self, now: Instant)
        ensures
            final(self)@ == (TaskView {
                send_gate: future_gate(old(self)@.send_gate, now),
                ..old(self)@
            }),
    {
        let gate = gate_in_future(self.send_gate(), now);
        self.set_gate(gate);
    }
}

/// Neither adding nor removing an active target ever moves the send gate
/// further away.
pub proof fn law_membership_never_lengthens_gate(
    gate: Option<Instant>,
    last_send: Option<Instant>,
    spacing: Option<(nat, Duration)>,
    now: Instant,
)
    ensures
        gate_after_addition(gate, last_send, spacing, now) matches Some(after) ==> gate matches Some(
            before,
        ) && after.nanos <= before.nanos && now.nanos < after.nanos,
        future_gate(gate, now) matches Some(after) ==> gate == Some(after) && now.nanos
            < after.nanos,
{
}

/// The spacing is positive, no longer than a positive interval, and a full
/// round of all active targets takes no longer than the interval.
pub proof fn law_spacing_shares_the_interval(interval: Duration, active_targets: nat)
    requires
        interval.nanos > 0,
        0 < active_targets <= interval.nanos,
    ensures
        0 < spacing(interval, active_targets).nanos <= interval.nanos,
        spacing(interval, active_targets).nanos * active_targets <= interval.nanos,
{
    let n = active_targets as int;
    let share = interval.nanos as int / n;
    assert(share * n <= interval.nanos && share >= 1 && share <= interval.nanos)
        by (nonlinear_arith)
        requires
            share == interval.nanos as int / n,
            0 < n <= interval.nanos,
    ;
}

} // verus!
