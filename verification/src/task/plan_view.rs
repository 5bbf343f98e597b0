//! What an update of the desired target set does, as contracts speak of it.
use vstd::prelude::*;

use crate::config::ClientConfigView;
use crate::error::ClientError;
use crate::model::{
    EndReasonView, EventView, ManagedCompletionPolicy, ManagedLifecycle, ManagedTargetLifecycle,
    OutcomeView, TargetConfigView,
};
use crate::task::target::TargetView;
use crate::task::view::{desired_count, future_gate, Cursors, DriverState, EffectView, TaskView};
use crate::timing::Instant;

verus! {

/// What is known of a target's configuration from the modules that check open
/// timeouts, session parameters and the time-to-live.
#[derive(Debug)]
pub struct TargetChecks {
    pub open_timeouts: Result<(), ClientError>,
    pub session: Result<(), ClientError>,
    pub ttl: Result<(), ClientError>,
}

/// The check of a configuration that fails first.
pub ghost enum FailedCheck {
    OpenTimeouts,
    Session,
    AddressFamilies,
    Ttl,
}

/// Checks are made in a fixed order; the time-to-live is checked only where
/// one is configured.
pub open spec fn failed_check(config: ClientConfigView, checks: TargetChecks) -> Option<
    FailedCheck,
> {
    if checks.open_timeouts is Err {
        Some(FailedCheck::OpenTimeouts)
    } else if checks.session is Err {
        Some(FailedCheck::Session)
    } else if config.socket_config.ipv4_only && config.socket_config.ipv6_only {
        Some(FailedCheck::AddressFamilies)
    } else if config.socket_config.ttl is Some && checks.ttl is Err {
        Some(FailedCheck::Ttl)
    } else {
        None
    }
}

/// `error` is what the failed check reports.
pub open spec fn check_error(failed: FailedCheck, checks: TargetChecks, error: ClientError) -> bool {
    match failed {
        FailedCheck::OpenTimeouts => checks.open_timeouts == Err::<(), _>(error),
        FailedCheck::Session => checks.session == Err::<(), _>(error),
        FailedCheck::AddressFamilies => error matches ClientError::InvalidConfig { reason }
            && reason@ == "ipv4_only and ipv6_only cannot both be true"@,
        FailedCheck::Ttl => checks.ttl == Err::<(), _>(error),
    }
}

/// The session configuration of a target: the shared one with the target's
/// endpoint and, where it has one, its own key.
pub open spec fn effective_config(base: ClientConfigView, target: TargetConfigView) -> ClientConfigView {
    ClientConfigView {
        server_addr: target.server_addr,
        hmac_key: match target.auth {
            Some(key) => key,
            None => base.hmac_key,
        },
        ..base
    }
}

/// `wanted[i]` names the same target as an earlier entry.
pub open spec fn repeated(wanted: Seq<TargetConfigView>, i: int) -> bool {
    exists|j: int| 0 <= j < i && (#[trigger] wanted[j]).id == wanted[i].id
}

/// Entry `i` of a desired set cannot be accepted.
pub open spec fn refused(
    base: ClientConfigView,
    wanted: Seq<TargetConfigView>,
    checks: Seq<TargetChecks>,
    i: int,
) -> bool {
    repeated(wanted, i) || failed_check(effective_config(base, wanted[i]), checks[i]) is Some
}

/// Entry `i` is the first of a desired set that cannot be accepted.
pub open spec fn first_refused(
    base: ClientConfigView,
    wanted: Seq<TargetConfigView>,
    checks: Seq<TargetChecks>,
    i: int,
) -> bool {
    &&& 0 <= i < wanted.len()
    &&& refused(base, wanted, checks, i)
    &&& forall|j: int| 0 <= j < i ==> !#[trigger] refused(base, wanted, checks, j)
}

/// Every entry of a desired set can be accepted.
pub open spec fn acceptable(
    base: ClientConfigView,
    wanted: Seq<TargetConfigView>,
    checks: Seq<TargetChecks>,
) -> bool {
    forall|j: int| 0 <= j < wanted.len() ==> !#[trigger] refused(base, wanted, checks, j)
}

/// `target` belongs to the desired set and no longer will.
pub open spec fn outgoing(target: TargetView, wanted: Seq<TargetConfigView>) -> bool {
    target.desired && !wanted.contains(target.config)
}

pub open spec fn names(wanted: Seq<TargetConfigView>, id: Seq<char>) -> bool {
    exists|i: int| 0 <= i < wanted.len() && (#[trigger] wanted[i]).id == id
}

/// Why an outgoing target ends: another configuration of it takes its place,
/// or none does.
pub open spec fn outgoing_reason(target: TargetView, wanted: Seq<TargetConfigView>) -> EndReasonView {
    if names(wanted, target.instance.id) {
        EndReasonView::Replaced
    } else {
        EndReasonView::Removed
    }
}

/// `target` is outgoing and can be let go of at once.
pub open spec fn leaves_now(target: TargetView, wanted: Seq<TargetConfigView>) -> bool {
    outgoing(target, wanted) && target.state.synchronously_retireable()
}

/// The planned end of one target.
pub ghost struct RetirementView {
    pub index: int,
    pub reason: EndReasonView,
    pub synchronous: bool,
}

/// The targets that end, in the order in which they are listed.
pub open spec fn retirements(targets: Seq<TargetView>, wanted: Seq<TargetConfigView>) -> Seq<
    RetirementView,
>
    decreases targets.len(),
{
    if targets.len() == 0 {
        Seq::empty()
    } else {
        let rest = retirements(targets.drop_last(), wanted);
        let last = targets.last();
        if outgoing(last, wanted) {
            rest.push(
                RetirementView {
                    index: targets.len() - 1,
                    reason: outgoing_reason(last, wanted),
                    synchronous: last.state.synchronously_retireable(),
                },
            )
        } else {
            rest
        }
    }
}

/// An outgoing target that has to wind down first.
pub open spec fn winding_down(target: TargetView, wanted: Seq<TargetConfigView>) -> TargetView {
    TargetView {
        desired: false,
        retirement: Some(outgoing_reason(target, wanted)),
        active: false,
        ..target
    }
}

/// The targets that stay, wanted or winding down.
pub open spec fn remaining(targets: Seq<TargetView>, wanted: Seq<TargetConfigView>) -> Seq<TargetView>
    decreases targets.len(),
{
    if targets.len() == 0 {
        Seq::empty()
    } else {
        let rest = remaining(targets.drop_last(), wanted);
        let last = targets.last();
        if leaves_now(last, wanted) {
            rest
        } else if outgoing(last, wanted) {
            rest.push(winding_down(last, wanted))
        } else {
            rest.push(last)
        }
    }
}

/// Outcomes of the targets that leave at once. One that has ended already has
/// its outcome recorded.
pub open spec fn departures(targets: Seq<TargetView>, wanted: Seq<TargetConfigView>) -> Seq<
    OutcomeView,
>
    decreases targets.len(),
{
    if targets.len() == 0 {
        Seq::empty()
    } else {
        let rest = departures(targets.drop_last(), wanted);
        let last = targets.last();
        if leaves_now(last, wanted) && !(last.state is Terminal) {
            rest.push(last.outcome(outgoing_reason(last, wanted), None))
        } else {
            rest
        }
    }
}

/// A desired target with this very configuration exists.
pub open spec fn running(targets: Seq<TargetView>, config: TargetConfigView) -> bool {
    exists|i: int|
        0 <= i < targets.len() && (#[trigger] targets[i]).desired && targets[i].config == config
}

/// The targets that are new, with consecutive generations.
pub open spec fn additions(
    targets: Seq<TargetView>,
    wanted: Seq<TargetConfigView>,
    base: ClientConfigView,
    next_generation: u64,
) -> Seq<TargetView>
    decreases wanted.len(),
{
    if wanted.len() == 0 {
        Seq::empty()
    } else {
        let rest = additions(targets, wanted.drop_last(), base, next_generation);
        let last = wanted.last();
        if running(targets, last) {
            rest
        } else {
            rest.push(
                TargetView::fresh(
                    last,
                    (next_generation + rest.len()) as u64,
                    effective_config(base, last),
                ),
            )
        }
    }
}

/// Some target stops being active because it is outgoing.
pub open spec fn pacing_shrinks(targets: Seq<TargetView>, wanted: Seq<TargetConfigView>) -> bool {
    exists|i: int|
        0 <= i < targets.len() && outgoing(#[trigger] targets[i], wanted) && !leaves_now(
            targets[i],
            wanted,
        ) && targets[i].active
}

/// Some target leaves the list.
pub open spec fn some_leave(targets: Seq<TargetView>, wanted: Seq<TargetConfigView>) -> bool {
    exists|i: int| 0 <= i < targets.len() && leaves_now(#[trigger] targets[i], wanted)
}

/// The cursors moved into a list of `len` targets, with no more work than that.
pub open spec fn rebased(cursors: Cursors, len: nat) -> Cursors {
    Cursors {
        cursor: if len == 0 {
            0
        } else {
            (cursors.cursor as int % len as int) as usize
        },
        timeout_cursor: if len == 0 {
            0
        } else {
            (cursors.timeout_cursor as int % len as int) as usize
        },
        send_cursor: if len == 0 {
            0
        } else {
            (cursors.send_cursor as int % len as int) as usize
        },
        scan_remaining: at_most(cursors.scan_remaining, len),
        burst_remaining: at_most(cursors.burst_remaining, len),
        stagger_remaining: at_most(cursors.stagger_remaining, len),
    }
}

pub open spec fn at_most(value: usize, len: nat) -> usize {
    if value <= len {
        value
    } else {
        len as usize
    }
}

/// Events that report outcomes, in order.
pub open spec fn finish_events(outcomes: Seq<OutcomeView>) -> Seq<EffectView> {
    outcomes.map_values(
        |outcome: OutcomeView|
            EffectView::Event { event: EventView::TargetFinished { outcome } },
    )
}

/// Events that report new targets, in order.
pub open spec fn creation_events(added: Seq<TargetView>) -> Seq<EffectView> {
    added.map_values(
        |target: TargetView|
            EffectView::Event {
                event: EventView::TargetStateChanged {
                    target: target.instance,
                    lifecycle: ManagedTargetLifecycle::Pending,
                },
            },
    )
}

impl TaskView {
    /// How many targets an update leaves in the list.
    pub open spec fn live_after(self, wanted: Seq<TargetConfigView>) -> nat {
        remaining(self.targets, wanted).len() + self.added(wanted).len()
    }

    pub open spec fn added(self, wanted: Seq<TargetConfigView>) -> Seq<TargetView> {
        additions(self.targets, wanted, self.config.client, self.next_generation)
    }

    /// The generations or the command sequence do not suffice for an update.
    pub open spec fn generations_exhausted(self, wanted: Seq<TargetConfigView>) -> bool {
        self.next_generation + self.added(wanted).len() > u64::MAX
    }

    /// The driver's data after an update, before anything is reported.
    pub open spec fn updated(self, wanted: Seq<TargetConfigView>, now: Instant) -> TaskView {
        let kept = remaining(self.targets, wanted);
        let added = self.added(wanted);
        let moved = if some_leave(self.targets, wanted) {
            self.with_cursors(rebased(self.cursors(), kept.len()))
        } else {
            self
        };
        let changed = TaskView {
            targets: kept + added,
            history: self.history.recorded_all(departures(self.targets, wanted)),
            send_gate: if pacing_shrinks(self.targets, wanted) {
                future_gate(self.send_gate, now)
            } else {
                self.send_gate
            },
            next_generation: (self.next_generation + added.len()) as u64,
            applied_command_sequence: (self.applied_command_sequence + 1) as u64,
            ..moved
        };
        if changed.quiesces() {
            TaskView {
                state: DriverState::Stopping,
                lifecycle: ManagedLifecycle::Stopping,
                outbox: self.outbox.push(EffectView::CloseUpdates),
                ..changed
            }
        } else {
            changed
        }
    }

    /// No target is desired any more and the driver is to finish then.
    pub open spec fn quiesces(self) -> bool {
        desired_count(self.targets) == 0 && self.config.completion
            == ManagedCompletionPolicy::FinishWhenQuiescent
    }

    /// The driver after an update that is accepted. All changes are made before
    /// the one status that shows them, and the events follow it.
    pub open spec fn applied(self, wanted: Seq<TargetConfigView>, now: Instant) -> TaskView {
        let updated = self.updated(wanted, now);
        let shown = updated.status_replaced();
        let stopping = if updated.quiesces() {
            shown.event(EventView::Stopping)
        } else {
            shown
        };
        TaskView {
            outbox: stopping.outbox + finish_events(departures(self.targets, wanted))
                + creation_events(self.added(wanted)),
            ..stopping
        }
    }
}

} // verus!
