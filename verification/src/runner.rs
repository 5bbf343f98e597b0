//! Running one session from its open handshake to its close.
//!
//! The caller owns the session. It asks a [`ClientRun`] what to do next,
//! does it, and hands in what came of it.
use vstd::prelude::*;

use crate::config::ClientConfig;
use crate::counting::{bumped, capped_sum, lemma_filter_empty, lemma_filter_last};
use crate::error::ClientError;
use crate::event::{ClientEvent, OpenOutcome};
use crate::hub::{delivered, law_events_arrive_in_order, EventHub, SubscriberView};
use crate::timing::{Duration, Instant, MAX_INSTANT_NANOS};

verus! {

/// Longest wait, in nanoseconds, of one receive.
pub const MANAGED_RECV_TIMEOUT: u128 = 20_000_000;

/// Most datagrams taken by one receive.
pub const MANAGED_RECV_BUDGET: usize = 64;

/// Time, in nanoseconds, for which a completed run drains late replies.
pub const MANAGED_FINAL_DRAIN: u128 = 100_000_000;

/// Sleep, in nanoseconds, where nothing tells when to look again.
pub const IDLE_SLEEP: u128 = 1_000_000;

/// Longest sleep, in nanoseconds, until the next send.
pub const MAX_SLEEP: u128 = 20_000_000;

/// Why a session ended.
#[derive(Debug, Clone, Copy, PartialEq, Eq, Structural)]
pub enum SessionEndReason {
    /// The negotiated duration completed, or the peer closed the session.
    TestComplete,
    /// Cancellation was requested.
    Cancelled,
    /// The session was opened without a test.
    NoTestComplete,
}

/// What a completed session came to. These are lifecycle counts, not statistics.
#[must_use]
#[derive(Debug, Clone, Copy, PartialEq, Eq, Structural)]
pub struct SessionOutcome {
    pub end_reason: SessionEndReason,
    pub packets_sent: u64,
    pub replies_received: u64,
    pub duplicates: u64,
    pub late: u64,
    pub warning_events: u64,
}

/// Counts of reported events. Each stops at `u64::MAX`.
#[derive(Debug, Clone, Copy, PartialEq, Eq, Structural)]
pub struct OutcomeCounters {
    pub replies_received: u64,
    pub duplicates: u64,
    pub late: u64,
    pub warning_events: u64,
}

impl OutcomeCounters {
    pub open spec fn none() -> OutcomeCounters {
        OutcomeCounters { replies_received: 0, duplicates: 0, late: 0, warning_events: 0 }
    }

    pub open spec fn observing(self, event: ClientEvent) -> OutcomeCounters {
        match event {
            ClientEvent::EchoReply { .. } => OutcomeCounters {
                replies_received: bumped(self.replies_received),
                ..self
            },
            ClientEvent::DuplicateReply { .. } => OutcomeCounters {
                duplicates: bumped(self.duplicates),
                ..self
            },
            ClientEvent::LateReply { .. } => OutcomeCounters { late: bumped(self.late), ..self },
            ClientEvent::Warning { .. } => OutcomeCounters {
                warning_events: bumped(self.warning_events),
                ..self
            },
            _ => self,
        }
    }

    pub open spec fn observing_all(self, events: Seq<ClientEvent>) -> OutcomeCounters
        decreases events.len(),
    {
        if events.len() == 0 {
            self
        } else {
            self.observing_all(events.drop_last()).observing(events.last())
        }
    }

    pub fn new() -> (result: OutcomeCounters)
        ensures
            result == OutcomeCounters::none(),
    {
        OutcomeCounters { replies_received: 0, duplicates: 0, late: 0, warning_events: 0 }
    }

    pub fn observe(&mut self, event: &ClientEvent)
        ensures
            *final(self) == old(self).observing(*event),
    {
        match event {
            ClientEvent::EchoReply { .. } => {
                self.replies_received = self.replies_received.saturating_add(1);
            },
            ClientEvent::DuplicateReply { .. } => {
                self.duplicates = self.duplicates.saturating_add(1);
            },
            ClientEvent::LateReply { .. } => {
                self.late = self.late.saturating_add(1);
            },
            ClientEvent::Warning { .. } => {
                self.warning_events = self.warning_events.saturating_add(1);
            },
            _ => {},
        }
    }
}

/// Every subscriber after `event` was published.
pub open spec fn published(
    subscribers: Map<u64, SubscriberView<ClientEvent>>,
    event: ClientEvent,
) -> Map<u64, SubscriberView<ClientEvent>> {
    subscribers.map_values(|subscriber: SubscriberView<ClientEvent>| subscriber.offered(event))
}

/// Every subscriber after `events` were published, in order.
pub open spec fn published_all(
    subscribers: Map<u64, SubscriberView<ClientEvent>>,
    events: Seq<ClientEvent>,
) -> Map<u64, SubscriberView<ClientEvent>>
    decreases events.len(),
{
    if events.len() == 0 {
        subscribers
    } else {
        published(published_all(subscribers, events.drop_last()), events.last())
    }
}

/// Publishes one event of a session.
fn publish_event(hub: &mut EventHub<ClientEvent>, event: ClientEvent)
    requires
        old(hub).wf(),
    ensures
        final(hub).wf(),
        final(hub).next() == old(hub).next(),
        final(hub).view() == published(old(hub).view(), event),
{
    hub.publish(event);
    assert(hub.view() =~= published(old(hub).view(), event)) by {
        assert forall|id: u64| old(hub).view().contains_key(id) implies hub.view()[id] == old(
            hub,
        ).view()[id].offered(event) by {
            assert(delivered(old(hub).view()[id], hub.view()[id], event));
        }
    }
}

/// Publishes the event that reports how an open handshake ended.
pub fn publish_open_outcome(hub: &mut EventHub<ClientEvent>, outcome: &OpenOutcome)
    requires
        old(hub).wf(),
    ensures
        final(hub).wf(),
        final(hub).next() == old(hub).next(),
        final(hub).view() == published(old(hub).view(), outcome.event()),
{
    match outcome {
        OpenOutcome::Started { event } => {
            publish_event(hub, event.clone());
        },
        OpenOutcome::NoTestCompleted { event } => {
            publish_event(hub, event.clone());
        },
    }
}

/// Counts and publishes events of a session.
pub fn publish_events(
    hub: &mut EventHub<ClientEvent>,
    counters: &mut OutcomeCounters,
    events: Vec<ClientEvent>,
)
    requires
        old(hub).wf(),
    ensures
        final(hub).wf(),
        final(hub).next() == old(hub).next(),
        final(hub).view() == published_all(old(hub).view(), events@),
        *final(counters) == old(counters).observing_all(events@),
{
    let mut i: usize = 0;
    assert(events@.take(0) =~= Seq::<ClientEvent>::empty());
    while i < events.len()
        invariant
            i <= events@.len(),
            hub.wf(),
            hub.next() == old(hub).next(),
            hub.view() == published_all(old(hub).view(), events@.take(i as int)),
            *counters == old(counters).observing_all(events@.take(i as int)),
        decreases events@.len() - i,
    {
        assert(events@.take(i as int + 1).drop_last() =~= events@.take(i as int));
        let event = &events[i];
        counters.observe(event);
        publish_event(hub, event.clone());
        i += 1;
    }
    assert(events@.take(i as int) =~= events@);
}

/// A session configuration with a receive timeout short enough for the loop.
pub fn clamp_recv_timeout(config: ClientConfig) -> (result: ClientConfig)
    ensures
        result@ == (crate::config::ClientConfigView {
            socket_config: crate::config::SocketConfig {
                recv_timeout: Some(
                    match config.socket_config.recv_timeout {
                        Some(timeout) if timeout.nanos <= MANAGED_RECV_TIMEOUT => timeout,
                        _ => Duration { nanos: MANAGED_RECV_TIMEOUT },
                    },
                ),
                ..config.socket_config
            },
            ..config@
        }),
{
    let mut config = config;
    let clamped: Duration = match config.socket_config.recv_timeout {
        Some(timeout) if timeout.nanos <= MANAGED_RECV_TIMEOUT => timeout,
        _ => Duration { nanos: MANAGED_RECV_TIMEOUT },
    };
    config.socket_config.recv_timeout = Some(clamped);
    config
}

/// How long the loop sleeps with the next send at `deadline`, in nanoseconds.
pub open spec fn sleep_until(deadline: Option<Instant>, now: Instant) -> u128 {
    match deadline {
        Some(deadline) if deadline.nanos >= now.nanos => if deadline.nanos - now.nanos
            <= MAX_SLEEP {
            (deadline.nanos - now.nanos) as u128
        } else {
            MAX_SLEEP
        },
        _ => IDLE_SLEEP,
    }
}

fn sleep_until_next_wakeup(deadline: Option<Instant>, now: Instant) -> (result: Duration)
    ensures
        result.nanos == sleep_until(deadline, now),
{
    match deadline {
        Some(deadline) => {
            if deadline.nanos < now.nanos {
                return Duration { nanos: IDLE_SLEEP };
            }
            let left: u128 = deadline.nanos - now.nanos;
            if left <= MAX_SLEEP {
                Duration { nanos: left }
            } else {
                Duration { nanos: MAX_SLEEP }
            }
        },
        None => Duration { nanos: IDLE_SLEEP },
    }
}

/// What the loop knows when it decides: the clock, whether cancellation was
/// requested, and what the session says of itself.
#[derive(Debug, Clone, Copy, PartialEq, Eq, Structural)]
pub struct RunFacts {
    pub now: Instant,
    pub cancelled: bool,
    pub next_send: Option<Instant>,
    pub peer_closed: bool,
    pub run_complete: bool,
    pub has_timed_out: bool,
    pub packets_sent: u64,
}

/// What is to be done next.
#[derive(Debug, Clone, Copy, PartialEq, Eq, Structural)]
pub enum RunAction {
    /// Send a probe.
    Send,
    /// Receive what is there.
    Receive,
    /// Expire the probes that are due.
    Expire,
    Sleep { duration: Duration },
    /// Close the session.
    Close,
    /// The run is over.
    Finish { outcome: SessionOutcome },
}

/// Where a run stands. Each value says what has just been done.
#[derive(Debug, Clone, Copy, PartialEq, Eq, Structural)]
pub enum RunPhase {
    Opened,
    /// The loop starts over.
    Head,
    /// The last receive of a cancelled run.
    CancelledReceived,
    Received,
    Expired,
    /// The loop is over.
    Ended,
    Draining { deadline: Instant },
    DrainReceived { deadline: Instant },
    DrainExpired { deadline: Instant },
    Closed { packets_sent: u64 },
    /// The session was opened without a test.
    NoTest,
}

/// One run of a session.
#[derive(Debug, Clone, Copy, PartialEq, Eq, Structural)]
pub struct ClientRun {
    pub phase: RunPhase,
    pub cancelled: bool,
    /// Whether the current turn of the final drain reported anything.
    pub published: bool,
    pub counters: OutcomeCounters,
}

impl ClientRun {
    pub open spec fn outcome(self, end_reason: SessionEndReason, packets_sent: u64) -> SessionOutcome {
        SessionOutcome {
            end_reason,
            packets_sent,
            replies_received: self.counters.replies_received,
            duplicates: self.counters.duplicates,
            late: self.counters.late,
            warning_events: self.counters.warning_events,
        }
    }

    pub open spec fn end_reason(self) -> SessionEndReason {
        if self.cancelled {
            SessionEndReason::Cancelled
        } else {
            SessionEndReason::TestComplete
        }
    }

    pub open spec fn at(self, phase: RunPhase) -> ClientRun {
        ClientRun { phase, ..self }
    }

    /// The run is closed, unless the peer did so.
    pub open spec fn closing(self, facts: RunFacts) -> (ClientRun, RunAction) {
        let closed = self.at(RunPhase::Closed { packets_sent: facts.packets_sent });
        if facts.peer_closed {
            (
                closed,
                RunAction::Finish { outcome: self.outcome(self.end_reason(), facts.packets_sent) },
            )
        } else {
            (closed, RunAction::Close)
        }
    }

    /// One turn of the final drain, or its end.
    pub open spec fn draining(self, deadline: Instant, facts: RunFacts) -> (ClientRun, RunAction) {
        if facts.now.nanos < deadline.nanos && facts.has_timed_out && !facts.peer_closed {
            (
                ClientRun { published: false, ..self.at(RunPhase::DrainReceived { deadline }) },
                RunAction::Receive,
            )
        } else {
            self.closing(facts)
        }
    }

    /// What follows the loop: a completed run drains late replies first, where
    /// some could still come.
    pub open spec fn ending(self, facts: RunFacts) -> (ClientRun, RunAction) {
        if self.cancelled || !facts.has_timed_out {
            self.closing(facts)
        } else {
            self.draining(
                Instant { nanos: (facts.now.nanos + MANAGED_FINAL_DRAIN) as u128 },
                facts,
            )
        }
    }

    /// The start of a turn of the loop.
    pub open spec fn turning(self, facts: RunFacts) -> (ClientRun, RunAction) {
        if facts.cancelled {
            (
                ClientRun { cancelled: true, ..self.at(RunPhase::CancelledReceived) },
                RunAction::Receive,
            )
        } else if facts.next_send matches Some(deadline) && deadline.nanos <= facts.now.nanos {
            (self.at(RunPhase::Head), RunAction::Send)
        } else {
            (self.at(RunPhase::Received), RunAction::Receive)
        }
    }

    /// What a run does next.
    pub open spec fn stepped(self, facts: RunFacts) -> (ClientRun, RunAction) {
        match self.phase {
            RunPhase::Opened => if facts.run_complete {
                (
                    self.at(RunPhase::NoTest),
                    RunAction::Finish {
                        outcome: self.outcome(SessionEndReason::NoTestComplete, 0),
                    },
                )
            } else {
                self.turning(facts)
            },
            RunPhase::Head => self.turning(facts),
            RunPhase::CancelledReceived => if facts.peer_closed {
                self.ending(facts)
            } else {
                (self.at(RunPhase::Ended), RunAction::Expire)
            },
            RunPhase::Received => if facts.peer_closed {
                self.ending(facts)
            } else {
                (self.at(RunPhase::Expired), RunAction::Expire)
            },
            RunPhase::Expired => if facts.run_complete {
                self.ending(facts)
            } else {
                (
                    self.at(RunPhase::Head),
                    RunAction::Sleep {
                        duration: Duration { nanos: sleep_until(facts.next_send, facts.now) },
                    },
                )
            },
            RunPhase::Ended => self.ending(facts),
            RunPhase::Draining { deadline } => self.draining(deadline, facts),
            RunPhase::DrainReceived { deadline } => if facts.peer_closed {
                self.closing(facts)
            } else {
                (self.at(RunPhase::DrainExpired { deadline }), RunAction::Expire)
            },
            RunPhase::DrainExpired { deadline } => if self.published {
                self.draining(deadline, facts)
            } else {
                (
                    self.at(RunPhase::Draining { deadline }),
                    RunAction::Sleep { duration: Duration { nanos: IDLE_SLEEP } },
                )
            },
            RunPhase::Closed { packets_sent } => (
                self,
                RunAction::Finish { outcome: self.outcome(self.end_reason(), packets_sent) },
            ),
            RunPhase::NoTest => (
                self,
                RunAction::Finish { outcome: self.outcome(SessionEndReason::NoTestComplete, 0) },
            ),
        }
    }

    pub fn new() -> (result: ClientRun)
        ensures
            result == (ClientRun {
                phase: RunPhase::Opened,
                cancelled: false,
                published: false,
                counters: OutcomeCounters::none(),
            }),
    {
        ClientRun {
            phase: RunPhase::Opened,
            cancelled: false,
            published: false,
            counters: OutcomeCounters::new(),
        }
    }

    fn make_outcome(&self, end_reason: SessionEndReason, packets_sent: u64) -> (result:
        SessionOutcome)
        ensures
            result == self.outcome(end_reason, packets_sent),
    {
        SessionOutcome {
            end_reason,
            packets_sent,
            replies_received: self.counters.replies_received,
            duplicates: self.counters.duplicates,
            late: self.counters.late,
            warning_events: self.counters.warning_events,
        }
    }

    fn close(&mut self, facts: &RunFacts) -> (result: RunAction)
        ensures
            (*final(self), result) == old(self).closing(*facts),
    {
        self.phase = RunPhase::Closed { packets_sent: facts.packets_sent };
        if facts.peer_closed {
            let end_reason = if self.cancelled {
                SessionEndReason::Cancelled
            } else {
                SessionEndReason::TestComplete
            };
            RunAction::Finish { outcome: self.make_outcome(end_reason, facts.packets_sent) }
        } else {
            RunAction::Close
        }
    }

    fn drain_final_late_replies(&mut self, deadline: Instant, facts: &RunFacts) -> (result:
        RunAction)
        ensures
            (*final(self), result) == old(self).draining(deadline, *facts),
    {
        if facts.now.nanos < deadline.nanos && facts.has_timed_out && !facts.peer_closed {
            self.phase = RunPhase::DrainReceived { deadline };
            self.published = false;
            return RunAction::Receive;
        }
        self.close(facts)
    }

    fn end(&mut self, facts: &RunFacts) -> (result: RunAction)
        requires
            facts.now.nanos + MANAGED_FINAL_DRAIN <= MAX_INSTANT_NANOS,
        ensures
            (*final(self), result) == old(self).ending(*facts),
    {
        if self.cancelled || !facts.has_timed_out {
            return self.close(facts);
        }
        let deadline = Instant { nanos: facts.now.nanos + MANAGED_FINAL_DRAIN };
        self.drain_final_late_replies(deadline, facts)
    }

    fn turn(&mut self, facts: &RunFacts) -> (result: RunAction)
        ensures
            (*final(self), result) == old(self).turning(*facts),
    {
        if facts.cancelled {
            self.cancelled = true;
            self.phase = RunPhase::CancelledReceived;
            return RunAction::Receive;
        }
        let due: bool = match facts.next_send {
            Some(deadline) => deadline.nanos <= facts.now.nanos,
            None => false,
        };
        if due {
            self.phase = RunPhase::Head;
            return RunAction::Send;
        }
        self.phase = RunPhase::Received;
        RunAction::Receive
    }

    /// Decides what to do next. The clock must leave room for the final drain.
    pub fn run_client(&mut self, facts: RunFacts) -> (result: RunAction)
        requires
            facts.now.nanos + MANAGED_FINAL_DRAIN <= MAX_INSTANT_NANOS,
        ensures
            (*final(self), result) == old(self).stepped(facts),
    {
        match self.phase {
            RunPhase::Opened => {
                if facts.run_complete {
                    self.phase = RunPhase::NoTest;
                    return RunAction::Finish {
                        outcome: self.make_outcome(SessionEndReason::NoTestComplete, 0),
                    };
                }
                self.turn(&facts)
            },
            RunPhase::Head => self.turn(&facts),
            RunPhase::CancelledReceived => {
                if facts.peer_closed {
                    return self.end(&facts);
                }
                self.phase = RunPhase::Ended;
                RunAction::Expire
            },
            RunPhase::Received => {
                if facts.peer_closed {
                    return self.end(&facts);
                }
                self.phase = RunPhase::Expired;
                RunAction::Expire
            },
            RunPhase::Expired => {
                if facts.run_complete {
                    return self.end(&facts);
                }
                self.phase = RunPhase::Head;
                RunAction::Sleep { duration: sleep_until_next_wakeup(facts.next_send, facts.now) }
            },
            RunPhase::Ended => self.end(&facts),
            RunPhase::Draining { deadline } => self.drain_final_late_replies(deadline, &facts),
            RunPhase::DrainReceived { deadline } => {
                if facts.peer_closed {
                    return self.close(&facts);
                }
                self.phase = RunPhase::DrainExpired { deadline };
                RunAction::Expire
            },
            RunPhase::DrainExpired { deadline } => {
                if self.published {
                    return self.drain_final_late_replies(deadline, &facts);
                }
                self.phase = RunPhase::Draining { deadline };
                RunAction::Sleep { duration: Duration { nanos: IDLE_SLEEP } }
            },
            RunPhase::Closed { packets_sent } => {
                let end_reason = if self.cancelled {
                    SessionEndReason::Cancelled
                } else {
                    SessionEndReason::TestComplete
                };
                RunAction::Finish { outcome: self.make_outcome(end_reason, packets_sent) }
            },
            RunPhase::NoTest => RunAction::Finish {
                outcome: self.make_outcome(SessionEndReason::NoTestComplete, 0),
            },
        }
    }

    /// Takes in what an action came to. An error ends the run.
    pub fn conclude(
        &mut self,
        hub: &mut EventHub<ClientEvent>,
        result: Result<Vec<ClientEvent>, ClientError>,
    ) -> (outcome: Result<(), ClientError>)
        requires
            old(hub).wf(),
        ensures
            final(hub).wf(),
            match result {
                Ok(events) => {
                    &&& outcome is Ok
                    &&& final(hub).view() == published_all(old(hub).view(), events@)
                    &&& *final(self) == (ClientRun {
                        counters: old(self).counters.observing_all(events@),
                        published: old(self).published || events@.len() > 0,
                        ..*old(self)
                    })
                },
                Err(error) => {
                    &&& outcome == Err::<(), _>(error)
                    &&& final(hub).view() == old(hub).view()
                    &&& *final(self) == *old(self)
                },
            },
    {
        match result {
            Ok(events) => {
                if events.len() > 0 {
                    self.published = true;
                }
                publish_events(hub, &mut self.counters, events);
                Ok(())
            },
            Err(error) => Err(error),
        }
    }
}

/// What joining a session yields. A worker that panicked hands over nothing.
/// Either way no further event follows.
pub fn join_session(
    hub: &mut EventHub<ClientEvent>,
    worker: Option<Result<SessionOutcome, ClientError>>,
) -> (result: Result<SessionOutcome, ClientError>)
    requires
        old(hub).wf(),
    ensures
        final(hub).wf(),
        final(hub).view() == old(hub).view().map_values(
            |subscriber: SubscriberView<ClientEvent>| subscriber.disconnected(),
        ),
        result == match worker {
            Some(outcome) => outcome,
            None => Err(ClientError::WorkerPanicked),
        },
{
    hub.disconnect_all();
    match worker {
        Some(outcome) => outcome,
        None => Err(ClientError::WorkerPanicked),
    }
}

/// The phases of a run that was cancelled.
pub open spec fn cancelled_phase(run: ClientRun) -> bool {
    run.cancelled && (run.phase is CancelledReceived || run.phase is Ended || run.phase is Closed)
}

/// A cancelled run sends no further probe and drains nothing: after one last
/// receive and expiration it closes the session and reports the cancellation.
pub proof fn law_cancelled_run_winds_down(run: ClientRun, facts: RunFacts)
    requires
        cancelled_phase(run),
    ensures
        ({
            let (after, action) = run.stepped(facts);
            &&& cancelled_phase(after)
            &&& action is Expire || action is Close || action is Finish
            &&& action matches RunAction::Finish { outcome } ==> outcome.end_reason
                == SessionEndReason::Cancelled
        }),
{
}

/// A run that has finished stays finished, with the same outcome.
pub proof fn law_finish_is_final(run: ClientRun, facts: RunFacts, later: RunFacts)
    requires
        run.stepped(facts).1 is Finish,
    ensures
        run.stepped(facts).0.stepped(later) == run.stepped(facts),
{
}

/// A session that the peer closed is not closed again.
pub proof fn law_peer_close_is_not_answered(run: ClientRun, facts: RunFacts)
    requires
        facts.peer_closed,
    ensures
        !(run.stepped(facts).1 is Close),
{
}

/// A run that is not cancelled reports its last late replies before it closes:
/// the close comes only when no late reply can come or the drain is over.
pub proof fn law_drain_precedes_close(run: ClientRun, facts: RunFacts)
    requires
        facts.now.nanos + MANAGED_FINAL_DRAIN <= MAX_INSTANT_NANOS,
        !run.cancelled,
        run.stepped(facts).1 is Close,
    ensures
        ({
            ||| !facts.has_timed_out
            ||| run.phase matches RunPhase::Draining { deadline } && facts.now.nanos
                >= deadline.nanos
            ||| run.phase matches RunPhase::DrainExpired { deadline } && facts.now.nanos
                >= deadline.nanos
        }),
{
}

/// Events of one kind are counted in one place, each of them once: a count
/// grows by the number of its events, up to its limit.
pub proof fn law_events_are_counted(counters: OutcomeCounters, events: Seq<ClientEvent>)
    ensures
        ({
            let after = counters.observing_all(events);
            &&& after.replies_received == capped_sum(
                counters.replies_received,
                events.filter(|event: ClientEvent| event is EchoReply).len(),
            )
            &&& after.duplicates == capped_sum(
                counters.duplicates,
                events.filter(|event: ClientEvent| event is DuplicateReply).len(),
            )
            &&& after.late == capped_sum(
                counters.late,
                events.filter(|event: ClientEvent| event is LateReply).len(),
            )
            &&& after.warning_events == capped_sum(
                counters.warning_events,
                events.filter(|event: ClientEvent| event is Warning).len(),
            )
        }),
    decreases events.len(),
{
    let echo = |event: ClientEvent| event is EchoReply;
    let duplicate = |event: ClientEvent| event is DuplicateReply;
    let late = |event: ClientEvent| event is LateReply;
    let warning = |event: ClientEvent| event is Warning;
    if events.len() == 0 {
        assert(events =~= Seq::empty());
        lemma_filter_empty(echo);
        lemma_filter_empty(duplicate);
        lemma_filter_empty(late);
        lemma_filter_empty(warning);
    } else {
        law_events_are_counted(counters, events.drop_last());
        lemma_filter_last(events, echo);
        lemma_filter_last(events, duplicate);
        lemma_filter_last(events, late);
        lemma_filter_last(events, warning);
    }
}

/// Something that happens to a run.
#[allow(inconsistent_fields)]
pub ghost enum RunMove {
    /// It is asked what to do next.
    Asked { facts: RunFacts },
    /// An action reported these events.
    Reported { events: Seq<ClientEvent> },
}

/// The run after `moves`, in order.
pub open spec fn moved(run: ClientRun, moves: Seq<RunMove>) -> ClientRun
    decreases moves.len(),
{
    if moves.len() == 0 {
        run
    } else {
        let before = moved(run, moves.drop_last());
        match moves.last() {
            RunMove::Asked { facts } => before.stepped(facts).0,
            RunMove::Reported { events } => ClientRun {
                counters: before.counters.observing_all(events),
                published: before.published || events.len() > 0,
                ..before
            },
        }
    }
}

/// All events reported among `moves`.
pub open spec fn reported(moves: Seq<RunMove>) -> Seq<ClientEvent>
    decreases moves.len(),
{
    if moves.len() == 0 {
        Seq::empty()
    } else {
        match moves.last() {
            RunMove::Asked { .. } => reported(moves.drop_last()),
            RunMove::Reported { events } => reported(moves.drop_last()) + events,
        }
    }
}

proof fn lemma_observing_concatenated(
    counters: OutcomeCounters,
    first: Seq<ClientEvent>,
    second: Seq<ClientEvent>,
)
    ensures
        counters.observing_all(first + second) == counters.observing_all(first).observing_all(
            second,
        ),
    decreases second.len(),
{
    if second.len() == 0 {
        assert(first + second =~= first);
    } else {
        assert((first + second).drop_last() =~= first + second.drop_last());
        lemma_observing_concatenated(counters, first, second.drop_last());
    }
}

proof fn lemma_moved_counters(run: ClientRun, moves: Seq<RunMove>)
    ensures
        moved(run, moves).counters == run.counters.observing_all(reported(moves)),
    decreases moves.len(),
{
    if moves.len() > 0 {
        lemma_moved_counters(run, moves.drop_last());
        if let RunMove::Reported { events } = moves.last() {
            lemma_observing_concatenated(run.counters, reported(moves.drop_last()), events);
        }
    }
}

/// The outcome of a run counts what the run reported: as many replies,
/// duplicates, late replies and warnings as there were such events, from its
/// first action to its last.
pub proof fn law_outcome_counts_what_was_reported(moves: Seq<RunMove>, facts: RunFacts)
    ensures
        ({
            let opened = ClientRun {
                phase: RunPhase::Opened,
                cancelled: false,
                published: false,
                counters: OutcomeCounters {
                    replies_received: 0,
                    duplicates: 0,
                    late: 0,
                    warning_events: 0,
                },
            };
            let events = reported(moves);
            moved(opened, moves).stepped(facts).1 matches RunAction::Finish { outcome } ==> {
                &&& outcome.replies_received == capped_sum(
                    0,
                    events.filter(|event: ClientEvent| event is EchoReply).len(),
                )
                &&& outcome.duplicates == capped_sum(
                    0,
                    events.filter(|event: ClientEvent| event is DuplicateReply).len(),
                )
                &&& outcome.late == capped_sum(
                    0,
                    events.filter(|event: ClientEvent| event is LateReply).len(),
                )
                &&& outcome.warning_events == capped_sum(
                    0,
                    events.filter(|event: ClientEvent| event is Warning).len(),
                )
            }
        }),
{
    let opened = ClientRun {
        phase: RunPhase::Opened,
        cancelled: false,
        published: false,
        counters: OutcomeCounters::none(),
    };
    lemma_moved_counters(opened, moves);
    law_events_are_counted(opened.counters, reported(moves));
}

/// A turn of the loop looks at the cancellation first, sends a probe that is
/// due, and otherwise receives.
pub proof fn law_turn_sends_what_is_due(run: ClientRun, facts: RunFacts)
    requires
        run.phase is Head || (run.phase is Opened && !facts.run_complete),
    ensures
        ({
            let (after, action) = run.stepped(facts);
            let due = facts.next_send matches Some(at) && at.nanos <= facts.now.nanos;
            &&& action is Send <==> !facts.cancelled && due
            &&& action is Receive <==> facts.cancelled || !due
            &&& after.cancelled == (run.cancelled || facts.cancelled)
            &&& action is Send ==> after.phase is Head
            &&& facts.cancelled ==> after.phase is CancelledReceived
            &&& !facts.cancelled && !due ==> after.phase is Received
            &&& after.counters == run.counters
        }),
{
}

/// After a receive the due probes are expired, unless the peer closed the
/// session. Then the loop starts over, after a sleep, until the run is complete.
pub proof fn law_receive_is_followed_by_expiry(run: ClientRun, facts: RunFacts)
    ensures
        ({
            let (after, action) = run.stepped(facts);
            let received = run.phase is CancelledReceived || run.phase is Received
                || run.phase is DrainReceived;
            &&& action is Expire <==> received && !facts.peer_closed
            &&& run.phase is Received && !facts.peer_closed ==> after.phase is Expired
            &&& run.phase is Expired && !facts.run_complete ==> action is Sleep && after.phase
                is Head
            &&& run.phase is Expired && facts.run_complete ==> !(action is Sleep) && !(action
                is Send)
            &&& action is Sleep ==> run.phase is Expired || run.phase is DrainExpired
            &&& !(run.phase is Head) && !(run.phase is Opened) ==> after.cancelled == run.cancelled
        }),
{
}

/// The loop never sleeps past the next send, and never longer than 20
/// milliseconds. Where nothing tells when to look again it sleeps for one.
pub proof fn law_sleep_is_bounded(run: ClientRun, facts: RunFacts)
    requires
        run.stepped(facts).1 is Sleep,
    ensures
        ({
            let slept = run.stepped(facts).1->duration.nanos;
            &&& slept <= 20_000_000
            &&& run.phase is Expired && (facts.next_send matches Some(at) && at.nanos
                >= facts.now.nanos) ==> {
                let left = facts.next_send->0.nanos - facts.now.nanos;
                &&& slept <= left
                &&& left <= 20_000_000 ==> slept == left
                &&& left > 20_000_000 ==> slept == 20_000_000
            }
            &&& run.phase is DrainExpired || facts.next_send is None || facts.next_send->0.nanos
                < facts.now.nanos ==> slept == 1_000_000
        }),
{
}

/// Whether a run that is over drains late replies: some could still come, the
/// run was not cancelled, and the peer did not close the session.
pub open spec fn replies_may_come(run: ClientRun, facts: RunFacts) -> bool {
    !run.cancelled && facts.has_timed_out && !facts.peer_closed
}

/// A completed run drains late replies for 100 milliseconds where some could
/// still come. Otherwise, and once the drain is over, it closes its session, or
/// finishes where the peer closed it.
pub proof fn law_completed_run_drains(run: ClientRun, facts: RunFacts)
    requires
        facts.now.nanos + 100_000_000 <= MAX_INSTANT_NANOS,
        run.phase is Ended || (run.phase is Expired && facts.run_complete) || ((run.phase
            is CancelledReceived || run.phase is Received) && facts.peer_closed),
    ensures
        ({
            let (after, action) = run.stepped(facts);
            &&& replies_may_come(run, facts) ==> action is Receive && !after.published && (
            after.phase matches RunPhase::DrainReceived { deadline } && deadline.nanos
                == facts.now.nanos + 100_000_000)
            &&& !replies_may_come(run, facts) && !facts.peer_closed ==> action is Close
            &&& facts.peer_closed ==> action is Finish
        }),
{
}

/// A drain goes on while replies could come and its deadline, which never
/// moves, has not passed; a turn that reported nothing sleeps first.
pub proof fn law_drain_goes_on(run: ClientRun, facts: RunFacts, deadline: Instant)
    ensures
        ({
            let (after, action) = run.stepped(facts);
            let over = facts.now.nanos >= deadline.nanos || !facts.has_timed_out;
            let idle = run.phase == RunPhase::DrainExpired { deadline } && !run.published;
            let turns = run.phase == RunPhase::Draining { deadline } || (run.phase
                == RunPhase::DrainExpired { deadline } && run.published);
            &&& idle ==> action is Sleep && after.phase == RunPhase::Draining { deadline }
            &&& turns && !facts.peer_closed && !over ==> action is Receive && after.phase
                == RunPhase::DrainReceived { deadline }
            &&& turns && !facts.peer_closed && over ==> action is Close
            &&& turns && facts.peer_closed ==> action is Finish
            &&& run.phase == (RunPhase::DrainReceived { deadline }) && !facts.peer_closed
                ==> action is Expire && after.phase == RunPhase::DrainExpired { deadline }
            &&& run.phase == (RunPhase::DrainReceived { deadline }) && facts.peer_closed
                ==> action is Finish
        }),
{
}

/// The outcome gives the number of packets that the session had sent when it
/// was closed, and says that the run was cancelled exactly where it was. A
/// session without a test sent none.
pub proof fn law_outcome_says_how_the_run_ended(run: ClientRun, facts: RunFacts)
    ensures
        ({
            let (after, action) = run.stepped(facts);
            &&& action is Close ==> after.phase == (RunPhase::Closed {
                packets_sent: facts.packets_sent,
            })
            &&& action matches RunAction::Finish { outcome } ==> {
                &&& run.phase matches RunPhase::Closed { packets_sent } ==> outcome.packets_sent
                    == packets_sent
                &&& run.phase is Opened || run.phase is NoTest ==> outcome.packets_sent == 0
                    && outcome.end_reason == SessionEndReason::NoTestComplete
                &&& !(run.phase is Opened) && !(run.phase is NoTest) ==> {
                    &&& outcome.end_reason == SessionEndReason::Cancelled <==> run.cancelled
                    &&& outcome.end_reason == SessionEndReason::TestComplete <==> !run.cancelled
                }
                &&& !(run.phase is Closed) && !(run.phase is Opened) && !(run.phase is NoTest)
                    ==> outcome.packets_sent == facts.packets_sent && facts.peer_closed
            }
            &&& run.phase is Opened && facts.run_complete ==> action is Finish
            &&& run.phase is Closed ==> action is Finish
        }),
{
}

/// Every subscriber is offered every event that a run reports, in order.
pub proof fn law_subscribers_get_every_event(
    subscribers: Map<u64, SubscriberView<ClientEvent>>,
    events: Seq<ClientEvent>,
    id: u64,
)
    requires
        subscribers.contains_key(id),
    ensures
        published_all(subscribers, events).contains_key(id),
        published_all(subscribers, events)[id] == subscribers[id].offered_all(events),
        subscribers[id].connected && subscribers[id].queue.len() + events.len()
            <= subscribers[id].config.capacity ==> published_all(subscribers, events)[id].queue
            == subscribers[id].queue + events,
    decreases events.len(),
{
    if events.len() > 0 {
        law_subscribers_get_every_event(subscribers, events.drop_last(), id);
    }
    if subscribers[id].connected && subscribers[id].queue.len() + events.len()
        <= subscribers[id].config.capacity {
        law_events_arrive_in_order(subscribers[id], events);
    }
}

/// Once the late replies that came were reported, a drain looks for more at
/// once. Where none came it pauses first.
pub proof fn law_quiet_drain_pauses(run: ClientRun, deadline: Instant, facts: RunFacts)
    requires
        run.phase == (RunPhase::DrainExpired { deadline }),
    ensures
        ({
            let (after, action) = run.stepped(facts);
            &&& !run.published ==> action == (RunAction::Sleep {
                duration: Duration { nanos: IDLE_SLEEP },
            }) && after == (ClientRun { phase: RunPhase::Draining { deadline }, ..run })
            &&& run.published && facts.now.nanos < deadline.nanos && facts.has_timed_out
                && !facts.peer_closed ==> action is Receive && !after.published
            &&& run.published && !(facts.now.nanos < deadline.nanos && facts.has_timed_out
                && !facts.peer_closed) ==> action is Close || action is Finish
        }),
{
}

} // verus!
