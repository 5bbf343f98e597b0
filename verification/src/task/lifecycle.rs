//! The way of one target from its first connection to its outcome.
use vstd::prelude::*;
use vstd::string::*;

use crate::error::ClientError;
use crate::event::ClientEvent;
use crate::model::{
    classified, classify_client_error, failure_view, EndReasonView, ManagedEvent,
    ManagedTargetEndReason, ManagedTargetFailure, ManagedTargetFailureKind,
    ManagedTargetFailurePhase, ManagedTargetOutcome,
};
use crate::task::state::ManagedClientTask;
use crate::task::target::{
    ClientFacts, ClosePoll, ConnectPoll, OpenPoll, ReceivePoll, TargetPoll, TargetRequest,
    TargetState, TargetView, TimeoutPoll,
};
use crate::task::view::{
    close_timeout, drain_deadline, duration_overflow, expiry_due, first_failure,
    lemma_client_events_frame, received_events, DriverState, TaskEffect, TaskView,
    POST_DEADLINE_RECEIVE_BUDGET,
};
use crate::timing::{Duration, Instant};

verus! {

fn duration_overflow_failure() -> (result: ManagedTargetFailure)
    ensures
        result@ == duration_overflow(),
{
    classify_client_error(ManagedTargetFailurePhase::Timing, &ClientError::DurationOverflow)
}

fn close_timeout_failure() -> (result: ManagedTargetFailure)
    ensures
        result@ == close_timeout(),
{
    ManagedTargetFailure {
        phase: ManagedTargetFailurePhase::Closing,
        kind: ManagedTargetFailureKind::Timeout,
        message: String::from_str(
            "best-effort close did not become writable before its deadline",
        ),
    }
}

/// `first` where there is one, else `second`.
fn keep_first(first: Option<ManagedTargetFailure>, second: ManagedTargetFailure) -> (result: Option<
    ManagedTargetFailure,
>)
    ensures
        failure_view(result) == first_failure(failure_view(first), second@),
{
    match first {
        Some(failure) => Some(failure),
        None => Some(second),
    }
}

fn copy_failure(failure: &Option<ManagedTargetFailure>) -> (result: Option<ManagedTargetFailure>)
    ensures
        result == *failure,
{
    match failure {
        Some(failure) => Some(failure.clone()),
        None => None,
    }
}

fn is_expiry_due(facts: &ClientFacts, now: Instant) -> (result: bool)
    ensures
        result == expiry_due(*facts, now),
{
    match facts.next_probe_timeout {
        Some(deadline) => deadline.nanos <= now.nanos,
        None => false,
    }
}

fn deadline_of_drain(latest: Option<Instant>, started_at: Instant, final_drain: Duration) -> (result:
    Option<Instant>)
    ensures
        result == drain_deadline(latest, started_at, final_drain),
{
    match latest {
        Some(latest) if latest.nanos > started_at.nanos => latest.checked_add(final_drain),
        _ => started_at.checked_add(final_drain),
    }
}

impl ManagedClientTask {
    /// Moves a target into `state` and reports the change.
    pub(crate) fn install_target_state(&mut self, index: usize, state: TargetState, clock: Instant)
        requires
            index < old(self)@.targets.len(),
        ensures
            final(self)@ == old(self)@.installed(index as int, state@, clock),
    {
        let lifecycle = state.lifecycle();
        let active: bool = state.is_active();
        let was_active: bool = self.target(index).active;
        let ghost before = self@;
        self.set_target_active(index, active);
        self.set_target_state(index, state);
        proof {
            assert(self@.targets =~= before.targets.update(
                index as int,
                TargetView { active, state: state@, ..before.targets[index as int] },
            ));
        }
        if !was_active && active {
            self.stagger_target_added(clock);
        } else if was_active && !active {
            self.stagger_target_removed(clock);
        }
        self.replace_status();
        let target = self.target(index).instance.clone();
        self.publish_event(ManagedEvent::TargetStateChanged { target, lifecycle });
    }

    pub(crate) fn publish_client_events(&mut self, index: usize, events: Vec<ClientEvent>)
        requires
            index < old(self)@.targets.len(),
        ensures
            final(self)@ == old(self)@.client_events(index as int, events@),
            final(self)@.targets.len() == old(self)@.targets.len(),
            final(self)@.config == old(self)@.config,
    {
        proof {
            lemma_client_events_frame(self@, index as int, events@);
        }
        let mut i: usize = 0;
        assert(events@.take(0) =~= Seq::<ClientEvent>::empty());
        while i < events.len()
            invariant
                i <= events@.len(),
                index < self@.targets.len(),
                self@.targets.len() == old(self)@.targets.len(),
                self@ == old(self)@.client_events(index as int, events@.take(i as int)),
            decreases events@.len() - i,
        {
            let event = &events[i];
            proof {
                assert(events@.take(i as int + 1).drop_last() =~= events@.take(i as int));
            }
            self.count_event(index, event);
            let target = self.target(index).instance.clone();
            self.publish_event(ManagedEvent::Client { target, event: event.clone() });
            i += 1;
        }
        assert(events@.take(i as int) =~= events@);
    }

    /// Ends a target and records its outcome.
    pub(crate) fn finish_target(
        &mut self,
        index: usize,
        end_reason: ManagedTargetEndReason,
        cleanup_failure: Option<ManagedTargetFailure>,
        clock: Instant,
    )
        requires
            index < old(self)@.targets.len(),
        ensures
            final(self)@ == old(self)@.finished(
                index as int,
                end_reason@,
                failure_view(cleanup_failure),
                clock,
            ),
    {
        self.install_target_state(index, TargetState::Terminal, clock);
        let target = self.target(index);
        let outcome = ManagedTargetOutcome {
            target: target.instance.clone(),
            server_addr: target.config.server_addr.clone(),
            remote: target.remote,
            end_reason,
            packets_sent: target.counters.packets_sent,
            replies_received: target.counters.replies_received,
            duplicates: target.counters.duplicates,
            late: target.counters.late,
            warning_events: target.counters.warning_events,
            cleanup_failure,
        };
        self.record_outcome(outcome.clone());
        self.replace_status();
        self.publish_event(ManagedEvent::TargetFinished { outcome });
    }

    pub(crate) fn fail_target(
        &mut self,
        index: usize,
        phase: ManagedTargetFailurePhase,
        error: ClientError,
        clock: Instant,
    )
        requires
            index < old(self)@.targets.len(),
        ensures
            final(self)@ == old(self)@.finished(
                index as int,
                EndReasonView::Failed(classified(phase, error)),
                None,
                clock,
            ),
    {
        let failure = classify_client_error(phase, &error);
        self.finish_target(index, ManagedTargetEndReason::Failed(failure), None, clock);
    }

    /// Starts to close the session of a target.
    pub(crate) fn begin_close(
        &mut self,
        index: usize,
        primary_end: ManagedTargetEndReason,
        cleanup_failure: Option<ManagedTargetFailure>,
        now: Instant,
        clock: Instant,
    ) -> (result: bool)
        requires
            index < old(self)@.targets.len(),
        ensures
            final(self)@ == old(self)@.close_begun(
                index as int,
                primary_end@,
                failure_view(cleanup_failure),
                now,
                clock,
            ),
            result,
    {
        let state = match now.checked_add(self.config().final_drain) {
            Some(deadline) => TargetState::Closing { deadline, primary_end, cleanup_failure },
            None => TargetState::Closing {
                deadline: now,
                primary_end,
                cleanup_failure: keep_first(cleanup_failure, duration_overflow_failure()),
            },
        };
        self.install_target_state(index, state, clock);
        true
    }

    /// Starts to drain late replies for a target.
    pub(crate) fn begin_drain(
        &mut self,
        index: usize,
        facts: ClientFacts,
        primary_end: ManagedTargetEndReason,
        clock: Instant,
    ) -> (result: bool)
        requires
            index < old(self)@.targets.len(),
        ensures
            final(self)@ == old(self)@.drain_begun(index as int, facts, primary_end@, clock),
            result,
    {
        match deadline_of_drain(facts.latest_probe_timeout, clock, self.config().final_drain) {
            Some(deadline) => {
                self.install_target_state(
                    index,
                    TargetState::Draining {
                        facts,
                        drain_started_at: clock,
                        deadline,
                        primary_end,
                        cleanup_failure: None,
                        post_deadline_receives_remaining: POST_DEADLINE_RECEIVE_BUDGET,
                    },
                    clock,
                );
                true
            },
            None => {
                let cleanup_failure = Some(duration_overflow_failure());
                self.begin_close(index, primary_end, cleanup_failure, clock, clock)
            },
        }
    }

    /// Ends an open session that failed: with a drain where `drain` is set,
    /// else with its close.
    pub(crate) fn begin_open_session_failure(
        &mut self,
        index: usize,
        facts: ClientFacts,
        phase: ManagedTargetFailurePhase,
        error: ClientError,
        drain: bool,
        now: Instant,
        clock: Instant,
    ) -> (result: bool)
        requires
            index < old(self)@.targets.len(),
        ensures
            final(self)@ == old(self)@.session_failed(
                index as int,
                facts,
                phase,
                error,
                drain,
                now,
                clock,
            ),
            result,
    {
        let primary_end = ManagedTargetEndReason::Failed(classify_client_error(phase, &error));
        let target = self.target(index).instance.clone();
        self.push_effect(TaskEffect::DiscardPreparedProbe { target });
        self.set_packets_sent(index, facts.packets_sent);
        if drain {
            self.begin_drain(index, facts, primary_end, clock)
        } else {
            self.begin_close(index, primary_end, None, now, clock)
        }
    }

    fn is_retiring(&self, index: usize) -> (result: bool)
        requires
            index < self@.targets.len(),
        ensures
            result == self@.retiring(index as int),
    {
        self.state() == DriverState::Stopping || self.target(index).retirement.is_some()
    }

    fn effective_retirement(&self, index: usize) -> (result: ManagedTargetEndReason)
        requires
            index < self@.targets.len(),
        ensures
            result@ == self@.retirement(index as int),
    {
        match &self.target(index).retirement {
            Some(reason) => reason.clone(),
            None => ManagedTargetEndReason::Stopped,
        }
    }

    /// What is to be polled for a target before its next step.
    pub fn target_request(&self, index: usize, now: Instant) -> (result: TargetRequest)
        requires
            index < self@.targets.len(),
        ensures
            result == self@.request(index as int, now),
    {
        match &self.target(index).state {
            TargetState::Pending { .. } => TargetRequest::Nothing,
            TargetState::Connecting => {
                if self.is_retiring(index) {
                    TargetRequest::Nothing
                } else {
                    TargetRequest::Connect
                }
            },
            TargetState::Opening { in_flight } => {
                if !self.is_retiring(index) {
                    TargetRequest::Open { stop_after_attempt: false }
                } else if *in_flight {
                    TargetRequest::Open { stop_after_attempt: true }
                } else {
                    TargetRequest::Nothing
                }
            },
            TargetState::Active { facts } => {
                if self.is_retiring(index) || is_expiry_due(facts, now) {
                    TargetRequest::Nothing
                } else {
                    TargetRequest::Receive
                }
            },
            TargetState::Draining { facts, .. } => {
                if is_expiry_due(facts, now) {
                    TargetRequest::Nothing
                } else {
                    TargetRequest::Receive
                }
            },
            TargetState::Closing { .. } => TargetRequest::Close,
            TargetState::Terminal => TargetRequest::Nothing,
        }
    }

    /// Takes one step of a target, given what its session was observed to do,
    /// and tells whether the target has more work at once.
    ///
    /// `now` is the instant of the pass, `clock` the one at which the session
    /// was observed, and `facts` what the session said of itself then.
    pub fn poll_target(
        &mut self,
        index: usize,
        poll: TargetPoll,
        facts: ClientFacts,
        now: Instant,
        clock: Instant,
    ) -> (result: bool)
        requires
            index < old(self)@.targets.len(),
            poll.answers(old(self)@.request(index as int, now)),
        ensures
            final(self)@ == old(self)@.polled(index as int, poll, facts, now, clock).0,
            result == old(self)@.polled(index as int, poll, facts, now, clock).1,
    {
        match &self.target(index).state {
            TargetState::Pending { .. } => self.poll_pending(index, clock),
            TargetState::Connecting => self.poll_connecting(index, poll, clock),
            TargetState::Opening { .. } => self.poll_opening(index, poll, facts, clock),
            TargetState::Active { .. } => self.poll_active(index, poll, facts, now, clock),
            TargetState::Draining { .. } => self.poll_draining(index, poll, facts, now, clock),
            TargetState::Closing { .. } => self.poll_closing(index, poll, facts, now, clock),
            TargetState::Terminal => false,
        }
    }

    fn poll_pending(&mut self, index: usize, clock: Instant) -> (result: bool)
        requires
            index < old(self)@.targets.len(),
            old(self)@.targets[index as int].state is Pending,
        ensures
            (final(self)@, result) == old(self)@.pending_polled(index as int, clock),
    {
        reveal(TaskView::pending_polled);
        if self.is_retiring(index) {
            let reason = self.effective_retirement(index);
            self.finish_target(index, reason, None, clock);
            return false;
        }
        let target = self.target(index).instance.clone();
        if let TargetState::Pending { client_config } = &self.target(index).state {
            let client_config = client_config.copy();
            self.push_effect(TaskEffect::Connect { target, client_config });
        }
        self.install_target_state(index, TargetState::Connecting, clock);
        true
    }

    fn poll_connecting(&mut self, index: usize, poll: TargetPoll, clock: Instant) -> (result: bool)
        requires
            index < old(self)@.targets.len(),
            old(self)@.targets[index as int].state is Connecting,
        ensures
            (final(self)@, result) == old(self)@.connecting_polled(index as int, poll, clock),
    {
        reveal(TaskView::connecting_polled);
        if self.is_retiring(index) {
            let reason = self.effective_retirement(index);
            self.finish_target(index, reason, None, clock);
            return false;
        }
        match poll {
            TargetPoll::Connect { poll: ConnectPoll::Connected { remote } } => {
                self.set_target_remote(index, remote);
                self.install_target_state(
                    index,
                    TargetState::Opening { in_flight: false },
                    clock,
                );
                true
            },
            TargetPoll::Connect { poll: ConnectPoll::Failed { error } } => {
                self.fail_target(index, ManagedTargetFailurePhase::Connecting, error, clock);
                false
            },
            _ => false,
        }
    }

    fn poll_opening(
        &mut self,
        index: usize,
        poll: TargetPoll,
        facts: ClientFacts,
        clock: Instant,
    ) -> (result: bool)
        requires
            index < old(self)@.targets.len(),
            old(self)@.targets[index as int].state is Opening,
        ensures
            (final(self)@, result) == old(self)@.opening_polled(index as int, poll, facts, clock),
    {
        reveal(TaskView::opening_polled);
        let retiring: bool = self.is_retiring(index);
        let reason = self.effective_retirement(index);
        let idle: bool = match &self.target(index).state {
            TargetState::Opening { in_flight } => !*in_flight,
            _ => false,
        };
        if retiring && idle {
            self.set_packets_sent(index, facts.packets_sent);
            self.finish_target(index, reason, None, clock);
            return false;
        }
        match poll {
            TargetPoll::Open { poll: OpenPoll::Pending { in_flight } } => {
                self.set_target_state(index, TargetState::Opening { in_flight });
                false
            },
            TargetPoll::Open { poll: OpenPoll::Started { event } } => {
                let events: Vec<ClientEvent> = vec![event];
                assert(events@ =~= seq![event]);
                self.publish_client_events(index, events);
                if retiring {
                    self.set_packets_sent(index, facts.packets_sent);
                    self.begin_drain(index, facts, reason, clock)
                } else {
                    self.install_target_state(index, TargetState::Active { facts }, clock);
                    true
                }
            },
            TargetPoll::Open { poll: OpenPoll::NoTestCompleted { event } } => {
                let events: Vec<ClientEvent> = vec![event];
                assert(events@ =~= seq![event]);
                self.publish_client_events(index, events);
                let end_reason = if retiring {
                    reason
                } else {
                    ManagedTargetEndReason::NoTestComplete
                };
                self.finish_target(index, end_reason, None, clock);
                false
            },
            TargetPoll::Open { poll: OpenPoll::Failed { error, stopped } } => {
                if retiring {
                    let cleanup_failure = if stopped {
                        None
                    } else {
                        Some(classify_client_error(ManagedTargetFailurePhase::Opening, &error))
                    };
                    self.finish_target(index, reason, cleanup_failure, clock);
                } else {
                    self.fail_target(index, ManagedTargetFailurePhase::Opening, error, clock);
                }
                false
            },
            _ => false,
        }
    }

    fn poll_active(
        &mut self,
        index: usize,
        poll: TargetPoll,
        facts: ClientFacts,
        now: Instant,
        clock: Instant,
    ) -> (result: bool)
        requires
            index < old(self)@.targets.len(),
            old(self)@.targets[index as int].state is Active,
        ensures
            (final(self)@, result) == old(self)@.active_polled(
                index as int,
                poll,
                facts,
                now,
                clock,
            ),
    {
        reveal(TaskView::active_polled);
        if self.is_retiring(index) {
            let reason = self.effective_retirement(index);
            let target = self.target(index).instance.clone();
            self.push_effect(TaskEffect::DiscardPreparedProbe { target });
            self.set_packets_sent(index, facts.packets_sent);
            return self.begin_drain(index, facts, reason, clock);
        }
        let due: bool = match &self.target(index).state {
            TargetState::Active { facts } => is_expiry_due(facts, now),
            _ => false,
        };
        if due {
            return false;
        }
        let (received, events): (bool, Vec<ClientEvent>) = match poll {
            TargetPoll::Receive { poll: ReceivePoll::Failed { error } } => {
                return self.begin_open_session_failure(
                    index,
                    facts,
                    ManagedTargetFailurePhase::Receiving,
                    error,
                    false,
                    now,
                    clock,
                );
            },
            TargetPoll::Receive { poll: ReceivePoll::Received { events } } => (true, events),
            TargetPoll::Receive { poll: ReceivePoll::Pending } => (false, Vec::new()),
            _ => {
                return false;
            },
        };
        assert(events@ =~= received_events(poll->Receive_poll));
        self.publish_client_events(index, events);
        if facts.peer_closed {
            self.set_packets_sent(index, facts.packets_sent);
            self.finish_target(index, ManagedTargetEndReason::PeerClosed, None, clock);
            return false;
        }
        if facts.run_complete {
            self.set_packets_sent(index, facts.packets_sent);
            return self.begin_drain(index, facts, ManagedTargetEndReason::TestComplete, clock);
        }
        self.set_target_state(index, TargetState::Active { facts });
        received
    }

    fn poll_draining(
        &mut self,
        index: usize,
        poll: TargetPoll,
        facts: ClientFacts,
        now: Instant,
        clock: Instant,
    ) -> (result: bool)
        requires
            index < old(self)@.targets.len(),
            old(self)@.targets[index as int].state is Draining,
        ensures
            (final(self)@, result) == old(self)@.draining_polled(
                index as int,
                poll,
                facts,
                now,
                clock,
            ),
    {
        reveal(TaskView::draining_polled);
        if let TargetState::Draining {
            facts: known,
            drain_started_at,
            deadline,
            primary_end,
            cleanup_failure,
            post_deadline_receives_remaining,
        } = &self.target(index).state {
            let drain_started_at: Instant = *drain_started_at;
            let deadline: Instant = *deadline;
            let primary_end = primary_end.clone();
            let cleanup_failure = copy_failure(cleanup_failure);
            let remaining: usize = *post_deadline_receives_remaining;
            let due: bool = is_expiry_due(known, now);
            let (received, events): (bool, Vec<ClientEvent>) = match poll {
                _ if due => {
                    return false;
                },
                TargetPoll::Receive { poll: ReceivePoll::Failed { error } } => {
                    self.set_packets_sent(index, facts.packets_sent);
                    let failure = classify_client_error(
                        ManagedTargetFailurePhase::Receiving,
                        &error,
                    );
                    let cleanup_failure = keep_first(cleanup_failure, failure);
                    return self.begin_close(index, primary_end, cleanup_failure, now, clock);
                },
                TargetPoll::Receive { poll: ReceivePoll::Received { events } } => (true, events),
                TargetPoll::Receive { poll: ReceivePoll::Pending } => (false, Vec::new()),
                _ => {
                    return false;
                },
            };
            assert(events@ =~= received_events(poll->Receive_poll));
            self.publish_client_events(index, events);
            if facts.peer_closed {
                self.set_packets_sent(index, facts.packets_sent);
                self.finish_target(
                    index,
                    ManagedTargetEndReason::PeerClosed,
                    cleanup_failure,
                    clock,
                );
                return false;
            }
            let final_drain: Duration = self.config().final_drain;
            let deadline: Instant = if received {
                match deadline_of_drain(facts.latest_probe_timeout, drain_started_at, final_drain) {
                    Some(candidate) => {
                        if candidate.nanos < deadline.nanos {
                            candidate
                        } else {
                            deadline
                        }
                    },
                    None => {
                        let cleanup_failure = keep_first(
                            cleanup_failure,
                            duration_overflow_failure(),
                        );
                        return self.begin_close(index, primary_end, cleanup_failure, now, clock);
                    },
                }
            } else {
                deadline
            };
            let past: bool = now.nanos >= deadline.nanos;
            if past && !(received && remaining > 1) {
                return self.begin_close(index, primary_end, cleanup_failure, now, clock);
            }
            self.set_target_state(
                index,
                TargetState::Draining {
                    facts,
                    drain_started_at,
                    deadline,
                    primary_end,
                    cleanup_failure,
                    post_deadline_receives_remaining: if past {
                        remaining - 1
                    } else {
                        remaining
                    },
                },
            );
            return received;
        }
        false
    }

    fn poll_closing(
        &mut self,
        index: usize,
        poll: TargetPoll,
        facts: ClientFacts,
        now: Instant,
        clock: Instant,
    ) -> (result: bool)
        requires
            index < old(self)@.targets.len(),
            old(self)@.targets[index as int].state is Closing,
        ensures
            (final(self)@, result) == old(self)@.closing_polled(
                index as int,
                poll,
                facts,
                now,
                clock,
            ),
    {
        reveal(TaskView::closing_polled);
        if let TargetState::Closing { deadline, primary_end, cleanup_failure } = &self.target(
            index,
        ).state {
            let deadline: Instant = *deadline;
            let primary_end = primary_end.clone();
            let cleanup_failure = copy_failure(cleanup_failure);
            match poll {
                TargetPoll::Close { poll: ClosePoll::Pending } => {
                    if now.nanos >= deadline.nanos {
                        self.set_packets_sent(index, facts.packets_sent);
                        let cleanup_failure = keep_first(cleanup_failure, close_timeout_failure());
                        self.finish_target(index, primary_end, cleanup_failure, clock);
                    }
                },
                TargetPoll::Close { poll: ClosePoll::Closed { events } } => {
                    self.set_packets_sent(index, facts.packets_sent);
                    self.publish_client_events(index, events);
                    self.finish_target(index, primary_end, cleanup_failure, clock);
                },
                TargetPoll::Close { poll: ClosePoll::Failed { error } } => {
                    self.set_packets_sent(index, facts.packets_sent);
                    let failure = classify_client_error(ManagedTargetFailurePhase::Closing, &error);
                    let cleanup_failure = keep_first(cleanup_failure, failure);
                    self.finish_target(index, primary_end, cleanup_failure, clock);
                },
                _ => {},
            }
        }
        false
    }

    /// Takes in that a due probe of a target was expired.
    pub fn expire_target(
        &mut self,
        index: usize,
        poll: TimeoutPoll,
        facts: ClientFacts,
        now: Instant,
        clock: Instant,
    )
        requires
            index < old(self)@.targets.len(),
        ensures
            final(self)@ == old(self)@.expired(index as int, poll, facts, now, clock),
    {
        match &self.target(index).state {
            TargetState::Active { .. } => match poll {
                TimeoutPoll::Failed { error } => {
                    let _ = self.begin_open_session_failure(
                        index,
                        facts,
                        ManagedTargetFailurePhase::Timing,
                        error,
                        false,
                        now,
                        clock,
                    );
                },
                TimeoutPoll::Expired { events } => {
                    self.publish_client_events(index, events);
                    self.set_target_state(index, TargetState::Active { facts });
                },
            },
            TargetState::Draining {
                drain_started_at,
                deadline,
                primary_end,
                cleanup_failure,
                post_deadline_receives_remaining,
                ..
            } => {
                let drain_started_at: Instant = *drain_started_at;
                let deadline: Instant = *deadline;
                let primary_end = primary_end.clone();
                let cleanup_failure = copy_failure(cleanup_failure);
                let remaining: usize = *post_deadline_receives_remaining;
                match poll {
                    TimeoutPoll::Failed { error } => {
                        self.set_packets_sent(index, facts.packets_sent);
                        let failure = classify_client_error(
                            ManagedTargetFailurePhase::Timing,
                            &error,
                        );
                        let cleanup_failure = keep_first(cleanup_failure, failure);
                        let _ = self.begin_close(index, primary_end, cleanup_failure, now, clock);
                    },
                    TimeoutPoll::Expired { events } => {
                        self.publish_client_events(index, events);
                        let final_drain: Duration = self.config().final_drain;
                        match deadline_of_drain(
                            facts.latest_probe_timeout,
                            drain_started_at,
                            final_drain,
                        ) {
                            Some(candidate) => {
                                let deadline: Instant = if candidate.nanos < deadline.nanos {
                                    candidate
                                } else {
                                    deadline
                                };
                                self.set_target_state(
                                    index,
                                    TargetState::Draining {
                                        facts,
                                        drain_started_at,
                                        deadline,
                                        primary_end,
                                        cleanup_failure,
                                        post_deadline_receives_remaining: remaining,
                                    },
                                );
                            },
                            None => {
                                let cleanup_failure = keep_first(
                                    cleanup_failure,
                                    duration_overflow_failure(),
                                );
                                let _ = self.begin_close(
                                    index,
                                    primary_end,
                                    cleanup_failure,
                                    now,
                                    clock,
                                );
                            },
                        }
                    },
                }
            },
            _ => {},
        }
    }
}

} // verus!
