use std::collections::{HashMap, VecDeque};

use irtt_client::config::{ClientAuthConfig, ClientConfig, NegotiationPolicy, RunMode, SocketConfig};
use irtt_client::error::{ClientError, IoError, IoErrorKind};
use irtt_client::event::{ClientEvent, PacketMeta};
use irtt_client::model::{
    ManagedClientConfig, ManagedCommandAcknowledgement, ManagedCommandApplyError,
    ManagedCommandError, ManagedCompletionPolicy, ManagedConfigError, ManagedDriverFailure,
    ManagedEndReason, ManagedEvent, ManagedLifecycle, ManagedOutcome, ManagedPacing, ManagedStatus,
    ManagedTargetConfig, ManagedTargetEndReason, ManagedTargetFailure, ManagedTargetFailureKind,
    ManagedTargetFailurePhase, ManagedTargetLifecycle, TargetInstance,
};
use irtt_client::net::SocketAddr;
use irtt_client::target_id::TargetId;
use irtt_client::task::construct::{ManagedClient, MAX_EVENT_CAPACITY};
use irtt_client::task::drive::{
    admit_update, seal_rejection, submission_result, QueueOutcome, StopSignal,
};
use irtt_client::task::drive_view::{SendObservation, SendPoll, SendResult, StaggerStep};
use irtt_client::task::pacing::stagger_spacing;
use irtt_client::task::plan::RequestedTarget;
use irtt_client::task::plan_view::TargetChecks;
use irtt_client::task::send::SendWork;
use irtt_client::task::state::ManagedClientTask;
use irtt_client::task::target::{
    ClientFacts, ClosePoll, ConnectPoll, OpenPoll, ReceivePoll, TargetPoll, TargetRequest,
    TargetState, TimeoutPoll,
};
use irtt_client::task::turn::{PollReport, PollStage, PollTurn};
use irtt_client::task::view::{
    DriverState, TaskEffect, COMMAND_WORK_BUDGET, POST_DEADLINE_RECEIVE_BUDGET,
    TIMEOUT_WORK_BUDGET,
};
use irtt_client::timing::{ClientTimestamp, Duration, Instant, SystemTime};

const BASE: Instant = Instant {
    nanos: 1_000_000_000_000,
};
const TOKEN: u64 = 0x1234_5678_90ab_cdef;
const REMOTE: SocketAddr = SocketAddr::V4 {
    ip: 0x7f00_0001,
    port: 2112,
};

fn after(start: Instant, millis: u64) -> Instant {
    start.checked_add(Duration::from_millis(millis)).unwrap()
}

fn stamp(mono: Instant) -> ClientTimestamp {
    ClientTimestamp {
        wall: SystemTime { nanos: 0 },
        mono,
    }
}

fn io_error() -> ClientError {
    ClientError::Socket(IoError {
        kind: IoErrorKind::Other,
        message: "boom".to_owned(),
    })
}

fn config(pacing: ManagedPacing) -> ManagedClientConfig {
    let client = ClientConfig {
        server_addr: "127.0.0.1:2112".to_owned(),
        hmac_key: None,
        duration: Some(Duration::from_millis(130)),
        interval: Duration::from_millis(60),
        dscp: 0,
        run_mode: RunMode::Normal,
        negotiation_policy: NegotiationPolicy::Strict,
        open_timeouts: vec![Duration::from_millis(200)],
        probe_timeout: Duration::from_millis(35),
        max_pending_probes: 4096,
        socket_config: SocketConfig {
            ipv4_only: false,
            ipv6_only: false,
            ttl: None,
            recv_timeout: None,
        },
    };
    let mut config = ManagedClientConfig::new(client);
    config.pacing = pacing;
    config.final_drain = Duration::from_millis(5);
    config
}

fn explicit(pacing: ManagedPacing) -> ManagedClientConfig {
    let mut config = config(pacing);
    config.completion = ManagedCompletionPolicy::ExplicitStop;
    config.client.duration = None;
    config
}

fn sound() -> TargetChecks {
    TargetChecks {
        open_timeouts: Ok(()),
        session: Ok(()),
        ttl: Ok(()),
    }
}

fn target(id: &str) -> RequestedTarget {
    at(id, "127.0.0.1:9")
}

fn at(id: &str, server_addr: &str) -> RequestedTarget {
    RequestedTarget {
        target: ManagedTargetConfig::new(TargetId::from(id), server_addr.to_owned()),
        checks: sound(),
    }
}

/// How the peer of a target behaves.
#[derive(Clone)]
struct Server {
    connects: bool,
    opens: bool,
    open_failure: bool,
    no_test: bool,
    replies: bool,
    peer_close: bool,
    delay: u64,
    interval: Option<Duration>,
    receive_fails: bool,
    close_fails: bool,
}

const ECHO: Server = Server {
    connects: true,
    opens: true,
    open_failure: false,
    no_test: false,
    replies: true,
    peer_close: false,
    delay: 0,
    interval: None,
    receive_fails: false,
    close_fails: false,
};
const SILENT: Server = Server {
    replies: false,
    ..ECHO
};
const REFUSING: Server = Server {
    connects: false,
    ..ECHO
};

/// A session as the driver sees it.
struct Session {
    server: Server,
    interval: Duration,
    probe_timeout: Duration,
    max_pending: usize,
    duration: Option<Duration>,
    end: Option<Instant>,
    next_send: Option<Instant>,
    next_seq: u32,
    pending: VecDeque<(u32, Instant)>,
    timed_out: Vec<(u32, Instant)>,
    inbox: VecDeque<(u32, Instant)>,
    open_requested: bool,
    packets_sent: u64,
    peer_closed: bool,
    closes: usize,
}

impl Session {
    fn facts(&self) -> ClientFacts {
        ClientFacts {
            packets_sent: self.packets_sent,
            next_probe_timeout: self.pending.front().map(|probe| probe.1),
            latest_probe_timeout: self
                .pending
                .iter()
                .chain(self.timed_out.iter())
                .map(|probe| probe.1)
                .max(),
            next_send: self.next_send,
            probe_interval: self.interval,
            peer_closed: self.peer_closed,
            run_complete: self.next_send.is_none() && self.pending.is_empty(),
        }
    }

    fn expire(&mut self) -> TimeoutPoll {
        let (seq, timeout_at) = self.pending.pop_front().unwrap();
        self.timed_out.push((seq, timeout_at));
        TimeoutPoll::Expired {
            events: vec![ClientEvent::EchoLoss {
                seq,
                sent_at: stamp(BASE),
                timeout_at,
            }],
        }
    }

    fn receive(&mut self, now: Instant) -> ReceivePoll {
        if self.server.receive_fails {
            return ReceivePoll::Failed { error: io_error() };
        }
        match self.inbox.front() {
            Some((_, ready_at)) if *ready_at <= now => {}
            _ => return ReceivePoll::Pending,
        }
        let (seq, _) = self.inbox.pop_front().unwrap();
        let received_at = stamp(now);
        let event = if let Some(i) = self.pending.iter().position(|probe| probe.0 == seq) {
            self.pending.remove(i);
            ClientEvent::EchoReply {
                seq,
                received_at,
                rtt: Duration::from_millis(1),
                packet_meta: PacketMeta {
                    traffic_class: None,
                    dscp: None,
                    ecn: None,
                    kernel_rx_timestamp: None,
                },
            }
        } else if let Some(i) = self.timed_out.iter().position(|probe| probe.0 == seq) {
            self.timed_out.remove(i);
            ClientEvent::LateReply {
                seq,
                sent_at: None,
                received_at,
                rtt: None,
            }
        } else {
            ClientEvent::DuplicateReply { seq, received_at }
        };
        let mut events = vec![event];
        if self.server.peer_close {
            self.peer_closed = true;
            self.next_send = None;
            events.push(closed(now));
        }
        ReceivePoll::Received { events }
    }

    fn send(&mut self, now: Instant) -> SendObservation {
        let packets_before = self.packets_sent;
        let poll = if self.pending.len() >= self.max_pending {
            SendPoll::Failed {
                error: ClientError::PendingLimitExceeded {
                    limit: self.max_pending,
                },
            }
        } else {
            let seq = self.next_seq;
            self.next_seq += 1;
            self.packets_sent += 1;
            let timeout_at = now.checked_add(self.probe_timeout).unwrap();
            self.pending.push_back((seq, timeout_at));
            if self.server.replies {
                self.inbox.push_back((seq, after(now, self.server.delay)));
            }
            let scheduled_at = self.next_send.unwrap();
            let mut next = scheduled_at;
            while next <= now {
                next = next.checked_add(self.interval).unwrap();
            }
            self.next_send = match self.end {
                Some(end) if next >= end => None,
                _ => Some(next),
            };
            SendPoll::Sent {
                events: vec![ClientEvent::EchoSent {
                    seq,
                    remote: REMOTE,
                    scheduled_at,
                    sent_at: stamp(now),
                    bytes: 60,
                    send_call: Duration::zero(),
                    timer_error: Duration::zero(),
                }],
            }
        };
        SendObservation {
            poll,
            packets_before,
            accepted_at: now,
            schedule_error: None,
            facts: self.facts(),
        }
    }
}

fn closed(now: Instant) -> ClientEvent {
    ClientEvent::SessionClosed {
        remote: REMOTE,
        token: TOKEN,
        at: stamp(now),
    }
}

type Answer = Result<ManagedCommandAcknowledgement, ManagedCommandApplyError>;

/// A task together with the sessions, the clock and the channels around it.
struct Sim {
    task: ManagedClientTask,
    now: Instant,
    runtime: bool,
    stop: StopSignal,
    queue: VecDeque<(u64, Vec<RequestedTarget>)>,
    queue_open: bool,
    events_open: bool,
    answers: Vec<(u64, Answer)>,
    servers: HashMap<String, Server>,
    sessions: HashMap<u64, Session>,
    initial: ManagedStatus,
    log: Vec<TaskEffect>,
    spacings: Vec<(usize, Duration)>,
    again: bool,
    /// How often a poll searched the targets for the next deadline.
    deadline_scans: usize,
}

impl Sim {
    fn new(config: ManagedClientConfig, targets: Vec<RequestedTarget>) -> Sim {
        let task = ManagedClient::task(config, targets, BASE).unwrap();
        let initial = task.snapshot();
        Sim {
            task,
            now: BASE,
            runtime: true,
            stop: StopSignal::new(),
            queue: VecDeque::new(),
            queue_open: true,
            events_open: true,
            answers: vec![],
            servers: HashMap::new(),
            sessions: HashMap::new(),
            initial,
            log: vec![],
            spacings: vec![],
            again: false,
            deadline_scans: 0,
        }
    }

    fn with_server(mut self, id: &str, server: Server) -> Sim {
        self.servers.insert(id.to_owned(), server);
        self
    }

    fn echo(config: ManagedClientConfig, ids: &[&str]) -> Sim {
        let mut sim = Sim::new(config, ids.iter().map(|id| target(id)).collect());
        for id in ids {
            sim = sim.with_server(id, ECHO);
        }
        sim
    }

    fn status(&self) -> &ManagedStatus {
        self.log
            .iter()
            .rev()
            .find_map(|effect| match effect {
                TaskEffect::Status { status } => Some(status),
                _ => None,
            })
            .unwrap_or(&self.initial)
    }

    /// Every event, with the status in force when it was published.
    fn events(&self) -> Vec<(&ManagedEvent, &ManagedStatus)> {
        let mut status = &self.initial;
        let mut events = vec![];
        for effect in &self.log {
            match effect {
                TaskEffect::Status { status: next } => status = next,
                TaskEffect::Event { event } => events.push((event, status)),
                _ => {}
            }
        }
        events
    }

    fn client_events(&self, id: &str) -> Vec<&ClientEvent> {
        self.events()
            .into_iter()
            .filter_map(|(event, _)| match event {
                ManagedEvent::Client { target, event } if target.id.as_str() == id => Some(event),
                _ => None,
            })
            .collect()
    }

    fn losses(&self, id: &str) -> usize {
        self.client_events(id)
            .iter()
            .filter(|event| matches!(event, ClientEvent::EchoLoss { .. }))
            .count()
    }

    fn update_targets(
        &mut self,
        ticket: u64,
        targets: Vec<RequestedTarget>,
    ) -> Result<(), ManagedCommandError> {
        admit_update(
            self.stop.updates_accepted,
            targets.len(),
            self.task.config().max_live_target_generations,
        )?;
        submission_result(self.offer(ticket, targets))
    }

    fn offer(&mut self, ticket: u64, targets: Vec<RequestedTarget>) -> QueueOutcome {
        if !self.queue_open {
            QueueOutcome::Closed
        } else if self.queue.len() >= self.task.config().command_capacity {
            QueueOutcome::Full
        } else {
            self.queue.push_back((ticket, targets));
            QueueOutcome::Sent
        }
    }

    fn answer(&self, ticket: u64) -> &Answer {
        &self
            .answers
            .iter()
            .find(|(answered, _)| *answered == ticket)
            .expect("no answer yet")
            .1
    }

    fn perform(&mut self) {
        for effect in self.task.take_outbox() {
            match &effect {
                TaskEffect::Connect {
                    target,
                    client_config,
                } => {
                    let server = self
                        .servers
                        .get(target.id.as_str())
                        .cloned()
                        .unwrap_or(REFUSING);
                    self.sessions.insert(
                        target.generation,
                        Session {
                            interval: server.interval.unwrap_or(client_config.interval),
                            server,
                            probe_timeout: client_config.probe_timeout,
                            max_pending: client_config.max_pending_probes,
                            duration: client_config.duration,
                            end: None,
                            next_send: None,
                            next_seq: 0,
                            pending: VecDeque::new(),
                            timed_out: vec![],
                            inbox: VecDeque::new(),
                            open_requested: false,
                            packets_sent: 0,
                            peer_closed: false,
                            closes: 0,
                        },
                    );
                }
                TaskEffect::CloseUpdates => self.stop.close_updates(),
                TaskEffect::AcknowledgeStop => {
                    self.stop.acknowledge();
                }
                TaskEffect::CloseCommands { end_reason } => {
                    self.queue_open = false;
                    while let Some((ticket, _)) = self.queue.pop_front() {
                        self.answers.push((ticket, Err(seal_rejection(end_reason))));
                    }
                }
                TaskEffect::CloseEvents => self.events_open = false,
                _ => {}
            }
            self.log.push(effect);
        }
    }

    fn generation(&self, index: usize) -> u64 {
        self.task.target(index).instance.generation
    }

    fn session(&mut self, index: usize) -> &mut Session {
        let generation = self.generation(index);
        self.sessions.get_mut(&generation).unwrap()
    }

    fn facts(&self, index: usize) -> ClientFacts {
        match self.sessions.get(&self.generation(index)) {
            Some(session) => session.facts(),
            None => ClientFacts {
                packets_sent: 0,
                next_probe_timeout: None,
                latest_probe_timeout: None,
                next_send: None,
                probe_interval: Duration::zero(),
                peer_closed: false,
                run_complete: false,
            },
        }
    }

    fn step(&mut self, index: usize) {
        let now = self.now;
        let poll = match self.task.target_request(index, now) {
            TargetRequest::Nothing => TargetPoll::Nothing,
            TargetRequest::Connect => TargetPoll::Connect {
                poll: if self.session(index).server.connects {
                    ConnectPoll::Connected { remote: REMOTE }
                } else {
                    ConnectPoll::Failed { error: io_error() }
                },
            },
            TargetRequest::Open { stop_after_attempt } => {
                let session = self.session(index);
                let poll = if !session.open_requested {
                    session.open_requested = true;
                    OpenPoll::Pending { in_flight: true }
                } else if session.server.open_failure {
                    OpenPoll::Failed {
                        error: ClientError::ServerRejected,
                        stopped: false,
                    }
                } else if session.server.no_test {
                    OpenPoll::NoTestCompleted {
                        event: ClientEvent::NoTestCompleted {
                            remote: REMOTE,
                            at: stamp(now),
                        },
                    }
                } else if session.server.opens {
                    session.next_send = Some(now);
                    session.end = session
                        .duration
                        .map(|duration| now.checked_add(duration).unwrap());
                    OpenPoll::Started {
                        event: ClientEvent::SessionStarted {
                            remote: REMOTE,
                            token: TOKEN,
                            at: stamp(now),
                        },
                    }
                } else if stop_after_attempt && now >= after(BASE, 200) {
                    OpenPoll::Failed {
                        error: ClientError::OpenTimeout,
                        stopped: true,
                    }
                } else {
                    OpenPoll::Pending { in_flight: true }
                };
                TargetPoll::Open { poll }
            }
            TargetRequest::Receive => TargetPoll::Receive {
                poll: self.session(index).receive(now),
            },
            TargetRequest::Close => {
                let session = self.session(index);
                session.closes += 1;
                TargetPoll::Close {
                    poll: if session.server.close_fails {
                        ClosePoll::Failed { error: io_error() }
                    } else {
                        ClosePoll::Closed {
                            events: vec![closed(now)],
                        }
                    },
                }
            }
        };
        let facts = self.facts(index);
        self.task.poll_target(index, poll, facts, now, now);
        self.perform();
    }

    /// Steps a target until it reaches a lifecycle.
    fn step_to(&mut self, index: usize, lifecycle: ManagedTargetLifecycle) {
        for _ in 0..10 {
            if self.task.target(index).state.lifecycle() == lifecycle {
                return;
            }
            self.step(index);
        }
        panic!("target did not reach {lifecycle:?}");
    }

    fn timeout_pass(&mut self) -> bool {
        let now = self.now;
        self.task.begin_timeout_pass(now);
        while let Some(index) = self.task.next_expiry(now) {
            let poll = self.session(index).expire();
            let facts = self.facts(index);
            self.task.finish_expiry(index, poll, facts, now, now);
            self.perform();
        }
        self.task.timeouts_pending()
    }

    fn send(&mut self, index: usize, spacing: Option<(usize, Duration)>) -> SendResult {
        let now = self.now;
        let observed = if self.task.can_send(index, now) {
            Some(self.session(index).send(now))
        } else {
            None
        };
        let result = self.task.poll_one_send(index, observed, spacing, now, now);
        self.perform();
        if let (true, Some(spacing)) = (result.accepted(), spacing) {
            self.spacings.push(spacing);
        }
        result
    }

    fn finish(&mut self, outcome: ManagedOutcome) -> Option<ManagedOutcome> {
        self.perform();
        Some(outcome)
    }

    fn process_command(&mut self) -> bool {
        let Some((ticket, targets)) = self.queue.pop_front() else {
            return false;
        };
        let answer = self
            .task
            .apply_command(targets, self.stop.requested, self.now);
        self.perform();
        self.answers.push((ticket, answer));
        true
    }

    fn send_planned(&mut self) -> bool {
        let spacing = self.task.active_stagger_spacing();
        match self.task.plan_sends(self.now) {
            SendWork::Nothing => false,
            SendWork::Staggered {
                step: StaggerStep::Idle { more },
            } => more,
            SendWork::Staggered {
                step: StaggerStep::Attempt { index },
            } => self.send(index, spacing).is_settled(),
            SendWork::Burst { targets } => {
                let mut settled = false;
                for index in targets {
                    settled |= self.send(index, None).is_settled();
                }
                settled
            }
        }
    }

    fn poll(&mut self) -> Option<ManagedOutcome> {
        if let Some(outcome) = self.task.begin_poll(self.stop.requested, self.runtime) {
            return self.finish(outcome);
        }
        self.perform();
        let mut turn = PollTurn::new();
        while turn.stage != PollStage::Over {
            let report = match turn.stage {
                PollStage::Commands { .. } => {
                    if self.process_command() {
                        PollReport::Command
                    } else {
                        PollReport::NoCommand
                    }
                }
                PollStage::Timeouts => {
                    self.timeout_pass();
                    PollReport::Done { again: false }
                }
                PollStage::Targets => {
                    for index in self.task.plan_target_pass() {
                        self.step(index);
                    }
                    PollReport::Done { again: false }
                }
                PollStage::Prune => {
                    self.task.prune_undesired_terminal();
                    self.perform();
                    PollReport::Done { again: false }
                }
                PollStage::Sends => PollReport::Done {
                    again: self.send_planned(),
                },
                PollStage::Complete => {
                    if let Some(outcome) = self.task.complete_poll() {
                        return self.finish(outcome);
                    }
                    self.perform();
                    PollReport::Done {
                        again: self.task.work_left(),
                    }
                }
                PollStage::WatchStop { .. } => PollReport::Done { again: false },
                PollStage::Deadline => {
                    self.deadline_scans += 1;
                    let due = self.task.next_deadline();
                    PollReport::Done {
                        again: due.is_some_and(|deadline| deadline.nanos <= self.now.nanos),
                    }
                }
                PollStage::Over => unreachable!(),
            };
            turn.advance(report);
        }
        self.again = turn.again;
        None
    }

    fn advance(&mut self, millis: u64) {
        self.now = after(self.now, millis);
    }

    /// Polls until the driver ends, a millisecond at a time.
    fn run(&mut self) -> ManagedOutcome {
        for _ in 0..20_000 {
            if let Some(outcome) = self.poll() {
                return outcome;
            }
            self.advance(1);
        }
        panic!("driver did not end");
    }

    fn run_until(&mut self, condition: impl Fn(&ManagedClientTask) -> bool) {
        for _ in 0..20_000 {
            if condition(&self.task) {
                return;
            }
            assert!(self.poll().is_none());
            self.advance(1);
        }
        panic!("condition did not come about");
    }

    /// Lets a session hold overdue probes that the driver knows of.
    fn overdue(&mut self, index: usize, count: usize) {
        let timeout_at = after(self.now, 1_000);
        let session = self.session(index);
        for seq in 0..u32::try_from(count).unwrap() {
            session.pending.push_back((seq, timeout_at));
        }
        session.next_seq = u32::try_from(count).unwrap();
        session.next_send = Some(after(timeout_at, 1_000_000));
        self.step(index);
    }
}

fn many(count: usize) -> Vec<RequestedTarget> {
    (0..count)
        .map(|index| target(&format!("target-{index}")))
        .collect()
}

fn targets_of(status: &ManagedStatus) -> Vec<(&str, u64, bool)> {
    status
        .targets
        .iter()
        .map(|target| {
            (
                target.target.id.as_str(),
                target.target.generation,
                target.desired,
            )
        })
        .collect()
}

#[test]
fn construction_is_runtime_and_io_free() {
    let sim = Sim::new(
        config(ManagedPacing::Staggered),
        vec![at("dns", "no-such-host.invalid")],
    );
    assert_eq!(sim.status().lifecycle, ManagedLifecycle::NotStarted);
    assert!(sim.log.is_empty() && sim.sessions.is_empty());
}

#[test]
fn quiescent_rejects_empty_initial_targets() {
    assert!(matches!(
        ManagedClient::task(config(ManagedPacing::Staggered), vec![], BASE),
        Err(ManagedConfigError::EmptyInitialTargets)
    ));
}

#[test]
fn construction_refuses_bad_configurations() {
    let refused = |change: &dyn Fn(&mut ManagedClientConfig), targets: Vec<RequestedTarget>| {
        let mut config = explicit(ManagedPacing::Staggered);
        change(&mut config);
        ManagedClient::task(config, targets, BASE).unwrap_err()
    };
    assert!(matches!(
        refused(&|config| config.event_capacity = 0, vec![]),
        ManagedConfigError::ZeroEventCapacity
    ));
    assert!(matches!(
        refused(&|config| config.command_capacity = 0, vec![]),
        ManagedConfigError::ZeroCommandCapacity
    ));
    assert!(matches!(
        refused(&|config| config.max_live_target_generations = 0, vec![]),
        ManagedConfigError::ZeroLiveGenerationLimit
    ));
    assert!(matches!(
        refused(
            &|config| config.max_live_target_generations = 1,
            vec![target("a"), target("b")]
        ),
        ManagedConfigError::TooManyTargets {
            configured: 2,
            limit: 1
        }
    ));
    assert!(matches!(
        refused(&|_| {}, vec![target("a"), target("a")]),
        ManagedConfigError::DuplicateTargetId { id } if id.as_str() == "a"
    ));
    assert!(matches!(
        refused(
            &|config| {
                config.client.socket_config.ipv4_only = true;
                config.client.socket_config.ipv6_only = true;
            },
            vec![target("a")]
        ),
        ManagedConfigError::InvalidTarget {
            source: ClientError::InvalidConfig { .. },
            ..
        }
    ));
    let mut unsound = target("a");
    unsound.checks.open_timeouts = Err(ClientError::NoOpenTimeouts);
    assert!(matches!(
        refused(&|_| {}, vec![unsound]),
        ManagedConfigError::InvalidTarget {
            source: ClientError::NoOpenTimeouts,
            ..
        }
    ));
}

#[test]
fn explicit_empty_waits_for_stop() {
    let mut sim = Sim::new(explicit(ManagedPacing::Staggered), vec![]);
    for _ in 0..20 {
        assert!(sim.poll().is_none());
        sim.advance(1);
    }
    assert_eq!(sim.status().lifecycle, ManagedLifecycle::Running);
    assert_eq!(sim.task.next_deadline(), None);
    assert!(sim.stop.request());
    let outcome = sim.run();
    assert!(sim.stop.acknowledged);
    assert_eq!(outcome.end_reason, ManagedEndReason::StopRequested);
}

#[test]
fn dynamic_addition_opens_and_operates() {
    let mut sim = Sim::new(explicit(ManagedPacing::Staggered), vec![]).with_server("added", ECHO);
    sim.update_targets(1, vec![target("added")]).unwrap();
    sim.run_until(|task| task.target_count() > 0 && task.target(0).counters.packets_sent != 0);
    let acknowledgement = sim.answer(1).as_ref().unwrap();
    assert_eq!(acknowledgement.sequence, 1);
    assert_eq!(acknowledgement.status.targets[0].target.generation, 1);
    assert!(acknowledgement.status.targets[0].desired);
    sim.stop.request();
    assert_eq!(sim.run().applied_command_sequence, 1);
}

#[test]
fn dynamic_identical_open_target_preserves_session_without_pending_event() {
    let mut sim = Sim::echo(explicit(ManagedPacing::Staggered), &["same"]);
    sim.run_until(|task| task.target(0).counters.packets_sent >= 2);
    let instance = sim.task.target(0).instance.clone();
    let sent = sim.task.target(0).counters.packets_sent;
    sim.update_targets(1, vec![target("same")]).unwrap();
    sim.run_until(|task| task.applied_command_sequence() == 1);
    assert_eq!(
        sim.answer(1).as_ref().unwrap().status.targets[0].target,
        instance
    );
    sim.run_until(|task| task.target(0).counters.packets_sent > sent);
    assert!(!sim.events().iter().any(|(event, _)| matches!(
        event,
        ManagedEvent::TargetStateChanged {
            lifecycle: ManagedTargetLifecycle::Pending,
            ..
        }
    )));
    assert_eq!(sim.sessions.len(), 1);
}

#[test]
fn dynamic_retiring_active_is_ineligible_before_target_cleanup() {
    let mut sim = Sim::echo(explicit(ManagedPacing::Staggered), &["old"]);
    sim.run_until(|task| task.target(0).counters.packets_sent != 0);
    let old = sim.task.target(0).instance.clone();
    let sent = sim.task.target(0).counters.packets_sent;
    let acknowledgement = sim
        .task
        .apply_targets(vec![at("old", "127.0.0.1:10")], sim.now)
        .unwrap();
    assert!(acknowledgement
        .status
        .targets
        .iter()
        .any(|target| target.target == old && !target.desired));
    assert!(matches!(
        sim.task.target(0).state,
        TargetState::Active { .. }
    ));
    assert_eq!(
        sim.task.target(0).retirement,
        Some(ManagedTargetEndReason::Replaced)
    );
    sim.advance(1_000);
    assert_eq!(sim.send(0, None), SendResult::NotAttempted);
    assert_eq!(sim.task.target(0).counters.packets_sent, sent);
}

#[test]
fn dynamic_replacement_counts_sync_and_async_live_generations() {
    let mut managed = explicit(ManagedPacing::Staggered);
    managed.max_live_target_generations = 1;
    let mut pending = ManagedClient::task(managed, vec![target("same")], BASE).unwrap();
    let acknowledgement = pending
        .apply_targets(vec![at("same", "127.0.0.1:10")], BASE)
        .unwrap();
    assert_eq!(
        targets_of(&acknowledgement.status),
        vec![("same", 2, true)]
    );
    assert!(matches!(
        acknowledgement.status.recent_target_outcomes[0].end_reason,
        ManagedTargetEndReason::Replaced
    ));

    for limit in [1, 2] {
        let mut managed = explicit(ManagedPacing::Staggered);
        managed.max_live_target_generations = limit;
        let mut sim = Sim::echo(managed, &["same"]);
        sim.run_until(|task| task.target(0).counters.packets_sent != 0);
        let before = sim.task.target(0).instance.clone();
        let before_status = sim.task.snapshot();
        let result = sim
            .task
            .apply_targets(vec![at("same", "127.0.0.1:10")], sim.now);
        if limit == 1 {
            assert!(matches!(
                result,
                Err(ManagedCommandApplyError::LiveGenerationLimitExceeded {
                    required: 2,
                    limit: 1
                })
            ));
            assert_eq!(sim.task.snapshot(), before_status);
            assert_eq!(sim.task.next_generation(), 2);
            assert_eq!(sim.task.applied_command_sequence(), 0);
            assert_eq!(sim.task.target_count(), 1);
        } else {
            assert_eq!(
                targets_of(&result.unwrap().status),
                vec![("same", 1, false), ("same", 2, true)]
            );
            sim.perform();
            sim.run_until(|task| {
                (0..task.target_count()).any(|index| {
                    task.target(index).desired && task.target(index).counters.packets_sent != 0
                })
            });
            sim.stop.request();
            let outcome = sim.run();
            assert!(outcome.recent_target_outcomes.iter().any(|outcome| {
                outcome.target == before
                    && matches!(outcome.end_reason, ManagedTargetEndReason::Replaced)
            }));
        }
    }
}

fn task_with_ended_target() -> Sim {
    let mut managed = explicit(ManagedPacing::Staggered);
    managed.max_live_target_generations = 1;
    let mut sim = Sim::new(managed, vec![target("same")]);
    sim.step_to(0, ManagedTargetLifecycle::Terminal);
    sim
}

#[test]
fn terminal_targets_count_toward_retained_generation_limit() {
    let mut sim = task_with_ended_target();
    assert!(matches!(
        sim.task
            .apply_targets(vec![target("same"), at("other", "127.0.0.1:10")], BASE),
        Err(ManagedCommandApplyError::LiveGenerationLimitExceeded {
            required: 2,
            limit: 1,
        })
    ));

    let mut sim = task_with_ended_target();
    let acknowledgement = sim
        .task
        .apply_targets(vec![at("same", "127.0.0.1:10")], BASE)
        .unwrap();
    assert_eq!(sim.task.target_count(), 1);
    assert_eq!(
        targets_of(&acknowledgement.status),
        vec![("same", 2, true)]
    );

    let mut sim = task_with_ended_target();
    sim.task.apply_targets(Vec::new(), BASE).unwrap();
    assert_eq!(sim.task.target_count(), 0);
    assert!(sim.task.snapshot().targets.is_empty());
}

#[test]
fn pruning_leaves_no_stale_target_work() {
    let mut sim = Sim::new(
        explicit(ManagedPacing::Burst),
        vec![target("one"), target("two"), target("three")],
    );
    for _ in 0..2 {
        sim.task.plan_target_pass();
        sim.task.plan_burst_pass();
        sim.task.begin_timeout_pass(BASE);
    }
    sim.task
        .apply_targets(vec![target("one"), target("two")], BASE)
        .unwrap();
    sim.task.prune_undesired_terminal();
    assert_eq!(sim.task.target_count(), 2);
    let cursors = sim.task.cursors();
    assert!(cursors.timeout_cursor < 2);
    assert!(cursors.scan_remaining <= 2);
    assert!(cursors.burst_remaining <= 2);
    assert!(cursors.stagger_remaining <= 2);
    assert!(!sim.timeout_pass());

    sim.task.apply_targets(vec![], BASE).unwrap();
    sim.task.prune_undesired_terminal();
    assert_eq!(sim.task.target_count(), 0);
    let cursors = sim.task.cursors();
    assert_eq!(cursors.scan_remaining, 0);
    assert_eq!(cursors.burst_remaining, 0);
    assert_eq!(cursors.stagger_remaining, 0);
    assert!(!sim.timeout_pass());
}

#[test]
fn dynamic_rejections_leave_transaction_state_unchanged() {
    let mut sim = Sim::new(explicit(ManagedPacing::Staggered), vec![target("same")]);
    let status = sim.task.snapshot();
    assert!(matches!(
        sim.task.apply_targets(
            vec![at("same", "127.0.0.1:10"), at("same", "127.0.0.1:11")],
            BASE
        ),
        Err(ManagedCommandApplyError::DuplicateTargetId { .. })
    ));
    let mut unsound = at("same", "127.0.0.1:10");
    unsound.checks.open_timeouts = Err(ClientError::NoOpenTimeouts);
    assert!(matches!(
        sim.task.apply_targets(vec![unsound], BASE),
        Err(ManagedCommandApplyError::InvalidTarget {
            source: ClientError::NoOpenTimeouts,
            ..
        })
    ));
    assert_eq!(sim.task.next_generation(), 2);
    assert_eq!(sim.task.applied_command_sequence(), 0);
    assert_eq!(sim.task.snapshot(), status);
    assert!(sim.task.take_outbox().is_empty());
}

#[test]
fn dynamic_empty_update_orders_stopping_before_acknowledgement() {
    let mut managed = config(ManagedPacing::Staggered);
    managed.command_capacity = 2;
    let mut sim = Sim::new(managed, vec![target("gone")]);
    sim.update_targets(1, vec![]).unwrap();
    sim.update_targets(2, vec![target("later")]).unwrap();
    let outcome = sim.run();
    let acknowledgement = sim.answer(1).as_ref().unwrap();
    assert_eq!(acknowledgement.status.lifecycle, ManagedLifecycle::Stopping);
    assert_eq!(acknowledgement.status.desired_target_count, 0);
    assert!(matches!(
        sim.answer(2),
        Err(ManagedCommandApplyError::Stopping)
    ));
    assert_eq!(outcome.end_reason, ManagedEndReason::TargetsComplete);
    let events = sim.events();
    let stopping = events
        .iter()
        .position(|(event, _)| matches!(event, ManagedEvent::Stopping))
        .unwrap();
    let finished = events
        .iter()
        .position(|(event, _)| matches!(event, ManagedEvent::TargetFinished { .. }))
        .unwrap();
    assert!(stopping < finished);
    assert_eq!(events[stopping].1.lifecycle, ManagedLifecycle::Stopping);
    assert_eq!(&acknowledgement.status, events[stopping].1);
}

#[test]
fn stop_during_quiescent_stopping_is_durable_without_duplicate_event() {
    let mut managed = config(ManagedPacing::Staggered);
    managed.client.duration = None;
    managed.final_drain = Duration::from_millis(80);
    let mut sim = Sim::echo(managed, &["old"]);
    sim.run_until(|task| task.active_count() == 1);

    sim.update_targets(1, vec![]).unwrap();
    sim.run_until(|task| {
        task.state() == DriverState::Stopping && !task.stop_observed() && !task.target(0).desired
    });
    assert_eq!(
        sim.answer(1).as_ref().unwrap().status.lifecycle,
        ManagedLifecycle::Stopping
    );

    sim.stop.request();
    let outcome = sim.run();
    assert_eq!(outcome.end_reason, ManagedEndReason::StopRequested);
    assert!(sim.status().stop_requested);
    assert!(outcome
        .recent_target_outcomes
        .iter()
        .any(|outcome| matches!(outcome.end_reason, ManagedTargetEndReason::Removed)));
    assert_eq!(
        sim.events()
            .iter()
            .filter(|(event, _)| matches!(event, ManagedEvent::Stopping))
            .count(),
        1
    );
}

#[test]
fn stop_before_enqueue_rejects_without_allocating_a_generation() {
    let mut sim = Sim::new(explicit(ManagedPacing::Staggered), vec![]);
    sim.stop.request();
    assert_eq!(
        sim.update_targets(1, vec![target("later")]),
        Err(ManagedCommandError::Stopping)
    );
    assert_eq!(sim.task.next_generation(), 1);
    assert_eq!(sim.task.applied_command_sequence(), 0);
    assert_eq!(sim.status(), &sim.initial);
    assert_eq!(sim.run().end_reason, ManagedEndReason::StopRequested);
}

#[test]
fn paused_submission_cannot_outlive_terminal_seal() {
    let mut sim = Sim::new(explicit(ManagedPacing::Staggered), vec![]);
    admit_update(sim.stop.updates_accepted, 1, 8).unwrap();
    sim.stop.request();
    let outcome = sim.poll().expect("empty stopped task did not seal");
    assert_eq!(outcome.end_reason, ManagedEndReason::StopRequested);
    assert_eq!(
        submission_result(sim.offer(1, vec![target("late")])),
        Err(ManagedCommandError::DriverClosed)
    );
}

#[test]
fn paused_submission_can_enqueue_during_stopping() {
    let mut managed = explicit(ManagedPacing::Staggered);
    managed.client.probe_timeout = Duration::from_secs(1);
    let mut sim = Sim::new(managed, vec![target("old")]).with_server(
        "old",
        Server {
            delay: 500,
            ..ECHO
        },
    );
    sim.run_until(|task| task.target(0).counters.packets_sent == 1);
    admit_update(sim.stop.updates_accepted, 1, 8).unwrap();
    sim.stop.request();
    sim.run_until(|task| matches!(task.target(0).state, TargetState::Draining { .. }));
    let lines = sim.log.len();
    submission_result(sim.offer(1, vec![target("new")])).unwrap();
    assert!(sim.poll().is_none());
    assert!(matches!(
        sim.answer(1),
        Err(ManagedCommandApplyError::Stopping)
    ));
    assert_eq!(sim.task.applied_command_sequence(), 0);
    assert_eq!(sim.task.next_generation(), 2);
    assert_eq!(sim.log.len(), lines);
    assert_eq!(sim.run().end_reason, ManagedEndReason::StopRequested);
}

#[test]
fn accepted_update_before_stop_resolves_stopping() {
    let mut sim = Sim::new(explicit(ManagedPacing::Staggered), vec![]);
    sim.update_targets(1, vec![target("queued")]).unwrap();
    sim.stop.request();
    assert_eq!(sim.run().applied_command_sequence, 0);
    assert!(matches!(
        sim.answer(1),
        Err(ManagedCommandApplyError::Stopping)
    ));
}

#[test]
fn accepted_update_before_driver_failure_resolves_driver_failed() {
    let mut sim = Sim::new(explicit(ManagedPacing::Staggered), vec![]);
    sim.runtime = false;
    sim.update_targets(1, vec![target("queued")]).unwrap();
    let outcome = sim.poll().expect("first poll without runtime did not fail");
    assert_eq!(
        outcome.end_reason,
        ManagedEndReason::DriverFailed(ManagedDriverFailure::NoTokioRuntime)
    );
    assert!(matches!(
        sim.answer(1),
        Err(ManagedCommandApplyError::DriverFailed(
            ManagedDriverFailure::NoTokioRuntime
        ))
    ));
    assert_eq!(
        sim.update_targets(2, vec![]),
        Err(ManagedCommandError::DriverClosed)
    );
}

#[test]
fn extreme_event_capacity_is_rejected_without_panic() {
    let mut managed = explicit(ManagedPacing::Staggered);
    managed.event_capacity = usize::MAX;
    assert!(matches!(
        ManagedClient::task(managed, vec![], BASE),
        Err(ManagedConfigError::EventCapacityTooLarge {
            configured: usize::MAX,
            maximum: MAX_EVENT_CAPACITY,
        })
    ));
}

#[test]
fn extreme_command_capacity_is_rejected_without_panic() {
    let mut managed = explicit(ManagedPacing::Staggered);
    managed.command_capacity = usize::MAX;
    assert!(matches!(
        ManagedClient::task(managed, vec![], BASE),
        Err(ManagedConfigError::CommandCapacityTooLarge {
            configured: usize::MAX,
            maximum,
        }) if maximum == tokio::sync::Semaphore::MAX_PERMITS
    ));
    let mut managed = explicit(ManagedPacing::Staggered);
    managed.command_capacity = usize::MAX / 8;
    assert!(ManagedClient::task(managed, vec![], BASE).is_ok());
}

#[test]
fn oversized_desired_set_is_rejected_before_enqueue() {
    let mut managed = explicit(ManagedPacing::Staggered);
    managed.max_live_target_generations = 1;
    let mut sim = Sim::new(managed, vec![]);
    assert_eq!(
        sim.update_targets(1, vec![target("one"), target("two")]),
        Err(ManagedCommandError::TooManyTargets {
            configured: 2,
            limit: 1
        })
    );
    assert!(sim.queue.is_empty());
    assert_eq!(sim.task.next_generation(), 1);
    assert_eq!(sim.task.applied_command_sequence(), 0);
    assert_eq!(sim.status(), &sim.initial);
}

#[test]
fn legal_desired_set_can_still_fail_at_overlap_application() {
    let mut managed = explicit(ManagedPacing::Staggered);
    managed.max_live_target_generations = 1;
    let mut sim = Sim::echo(managed, &["same"]);
    sim.run_until(|task| task.active_count() == 1);
    sim.update_targets(1, vec![at("same", "127.0.0.1:10")])
        .unwrap();
    assert!(sim.poll().is_none());
    assert!(matches!(
        sim.answer(1),
        Err(ManagedCommandApplyError::LiveGenerationLimitExceeded {
            required: 2,
            limit: 1
        })
    ));
}

#[test]
fn dynamic_explicit_remove_and_readd_uses_new_generation() {
    let mut sim = Sim::echo(explicit(ManagedPacing::Staggered), &["same"]);
    sim.run_until(|task| task.active_count() == 1);
    let first = sim.task.target(0).instance.clone();
    sim.update_targets(1, vec![]).unwrap();
    sim.run_until(|task| task.target_count() == 0);
    let acknowledgement = sim.answer(1).as_ref().unwrap();
    assert_eq!(acknowledgement.status.lifecycle, ManagedLifecycle::Running);
    assert!(acknowledgement
        .status
        .targets
        .iter()
        .any(|target| target.target == first && !target.desired));
    assert!(matches!(
        sim.status().recent_target_outcomes.last().unwrap().end_reason,
        ManagedTargetEndReason::Removed
    ));
    assert_eq!(sim.sessions[&first.generation].closes, 1);
    sim.update_targets(2, vec![target("same")]).unwrap();
    sim.run_until(|task| task.target_count() > 0 && task.target(0).counters.packets_sent != 0);
    let acknowledgement = sim.answer(2).as_ref().unwrap();
    assert!(acknowledgement.status.targets[0].target.generation > first.generation);
}

#[test]
fn dynamic_queue_stop_and_dropped_receipt_are_linearized() {
    let mut managed = explicit(ManagedPacing::Staggered);
    managed.command_capacity = 1;
    let mut sim = Sim::new(managed, vec![]);
    sim.update_targets(1, vec![target("queued")]).unwrap();
    assert_eq!(
        sim.update_targets(2, vec![]),
        Err(ManagedCommandError::QueueFull)
    );
    sim.stop.request();
    assert_eq!(sim.run().applied_command_sequence, 0);
    assert!(matches!(
        sim.answer(1),
        Err(ManagedCommandApplyError::Stopping)
    ));
}

#[test]
fn first_poll_without_runtime_fails_durably() {
    let mut sim = Sim::new(config(ManagedPacing::Staggered), vec![target("one")]);
    sim.runtime = false;
    let outcome = sim.poll().expect("task did not fail on its first poll");
    assert_eq!(
        outcome.end_reason,
        ManagedEndReason::DriverFailed(ManagedDriverFailure::NoTokioRuntime)
    );
    assert_eq!(sim.status().lifecycle, ManagedLifecycle::Failed);
}

#[test]
fn pre_poll_stop() {
    let mut sim = Sim::new(
        config(ManagedPacing::Staggered),
        vec![at("one", "no-such-host.invalid")],
    );
    sim.runtime = false;
    sim.stop.request();
    let outcome = sim.poll().expect("pre-stopped task did not complete");
    assert!(sim.stop.acknowledged);
    assert_eq!(outcome.end_reason, ManagedEndReason::StopRequested);
    assert!(sim.sessions.is_empty());
}

#[test]
fn finite_immediate_replies_use_retained_drain_deadline() {
    let mut managed = config(ManagedPacing::Staggered);
    managed.client.probe_timeout = Duration::from_secs(3);
    managed.final_drain = Duration::from_millis(30);
    let mut sim = Sim::echo(managed, &["one"]);
    let outcome = sim.run();
    assert!(sim.now < after(BASE, 1_000));
    assert_eq!(outcome.end_reason, ManagedEndReason::TargetsComplete);
    assert!(matches!(
        outcome.recent_target_outcomes[0].end_reason,
        ManagedTargetEndReason::TestComplete
    ));
    assert_eq!(outcome.recent_target_outcomes[0].packets_sent, 3);
    assert_eq!(sim.sessions[&1].closes, 1);
}

#[test]
fn no_test_target_completion() {
    let mut sim = Sim::new(config(ManagedPacing::Staggered), vec![target("no-test")])
        .with_server(
            "no-test",
            Server {
                no_test: true,
                ..ECHO
            },
        );
    let outcome = sim.run();
    assert!(matches!(
        outcome.recent_target_outcomes[0].end_reason,
        ManagedTargetEndReason::NoTestComplete
    ));
    assert_eq!(sim.sessions[&1].packets_sent, 0);
    assert_eq!(sim.sessions[&1].closes, 0);
}

const PEER_CLOSING: Server = Server {
    peer_close: true,
    ..ECHO
};

#[test]
fn authenticated_peer_close_outcome() {
    let mut configured = target("peer");
    configured.target.auth = Some(ClientAuthConfig {
        hmac_key: Some(b"managed-peer-close".to_vec()),
    });
    let mut sim = Sim::new(config(ManagedPacing::Staggered), vec![configured])
        .with_server("peer", PEER_CLOSING);
    let outcome = sim.run();
    assert_eq!(outcome.peer_closed_target_outcomes, 1);
    assert!(matches!(
        outcome.recent_target_outcomes[0].end_reason,
        ManagedTargetEndReason::PeerClosed
    ));
    assert_eq!(sim.sessions[&1].closes, 0);
    assert!(sim.log.iter().any(|effect| matches!(
        effect,
        TaskEffect::Connect { client_config, .. }
            if client_config.hmac_key == Some(b"managed-peer-close".to_vec())
    )));
}

#[test]
fn peer_close_during_stop_drain_remains_authoritative() {
    let mut managed = explicit(ManagedPacing::Staggered);
    managed.client.probe_timeout = Duration::from_millis(100);
    let mut sim = Sim::new(managed, vec![target("peer")]).with_server(
        "peer",
        Server {
            delay: 20,
            ..PEER_CLOSING
        },
    );
    sim.run_until(|task| task.target(0).counters.packets_sent == 1);
    sim.stop.request();
    let outcome = sim.run();
    assert_eq!(outcome.end_reason, ManagedEndReason::StopRequested);
    assert_eq!(outcome.peer_closed_target_outcomes, 1);
    assert!(matches!(
        outcome.recent_target_outcomes[0].end_reason,
        ManagedTargetEndReason::PeerClosed
    ));
    assert_eq!(sim.sessions[&1].closes, 0);
}

#[test]
fn stop_during_opening_finishes_in_flight_work() {
    let mut sim = Sim::echo(explicit(ManagedPacing::Staggered), &["success"]);
    sim.run_until(|task| {
        matches!(
            task.target(0).state,
            TargetState::Opening { in_flight: true }
        )
    });
    sim.stop.request();
    let outcome = sim.run();
    assert_eq!(outcome.end_reason, ManagedEndReason::StopRequested);
    assert!(matches!(
        outcome.recent_target_outcomes[0].end_reason,
        ManagedTargetEndReason::Stopped
    ));
    assert_eq!(sim.sessions[&1].packets_sent, 0);
    assert_eq!(sim.sessions[&1].closes, 1);

    let mut sim = Sim::new(explicit(ManagedPacing::Staggered), vec![target("cleanup")])
        .with_server(
            "cleanup",
            Server {
                open_failure: true,
                ..ECHO
            },
        );
    sim.run_until(|task| {
        matches!(
            task.target(0).state,
            TargetState::Opening { in_flight: true }
        )
    });
    sim.stop.request();
    let outcome = sim.run();
    let ended = &outcome.recent_target_outcomes[0];
    assert!(matches!(ended.end_reason, ManagedTargetEndReason::Stopped));
    assert_eq!(outcome.failed_target_outcomes, 0);
    assert!(matches!(
        ended.cleanup_failure,
        Some(ManagedTargetFailure {
            phase: ManagedTargetFailurePhase::Opening,
            ..
        })
    ));

    let mut sim = Sim::new(explicit(ManagedPacing::Staggered), vec![target("silent")])
        .with_server(
            "silent",
            Server {
                opens: false,
                ..ECHO
            },
        );
    sim.run_until(|task| {
        matches!(
            task.target(0).state,
            TargetState::Opening { in_flight: true }
        )
    });
    sim.stop.request();
    let outcome = sim.run();
    assert!(outcome.recent_target_outcomes[0].cleanup_failure.is_none());
}

#[test]
fn static_multi_target_completion() {
    let mut sim = Sim::echo(config(ManagedPacing::Burst), &["first", "second"]);
    let outcome = sim.run();
    assert_eq!(outcome.total_target_outcomes, 2);
    assert_eq!(outcome.successful_target_outcomes, 2);
    assert!(sim.sessions[&1].packets_sent > 0);
    assert!(sim.sessions[&2].packets_sent > 0);
}

#[test]
fn sibling_failure_isolation() {
    let mut sim = Sim::new(
        config(ManagedPacing::Staggered),
        vec![target("good"), target("bad")],
    )
    .with_server("good", ECHO);
    let outcome = sim.run();
    assert_eq!(outcome.total_target_outcomes, 2);
    assert_eq!(outcome.successful_target_outcomes, 1);
    assert_eq!(outcome.failed_target_outcomes, 1);
    assert!(sim.sessions[&1].packets_sent > 0);
}

fn echo_sends(sim: &Sim) -> Vec<(&TargetInstance, Instant, Instant)> {
    sim.events()
        .into_iter()
        .filter_map(|(event, _)| match event {
            ManagedEvent::Client {
                target,
                event:
                    ClientEvent::EchoSent {
                        scheduled_at,
                        sent_at,
                        ..
                    },
            } => Some((target, *scheduled_at, sent_at.mono)),
            _ => None,
        })
        .collect()
}

fn assert_rotated_without_catchup(sends: &[(&TargetInstance, Instant, Instant)]) {
    assert!(sends.len() >= 4);
    assert_ne!(sends[0].0, sends[1].0);
    for target in [sends[0].0, sends[1].0] {
        let target_sends = sends
            .iter()
            .filter(|(instance, ..)| *instance == target)
            .collect::<Vec<_>>();
        assert!(target_sends.len() >= 2);
        assert!(target_sends[1].1 > target_sends[0].2);
    }
}

#[test]
fn burst_pacing_fairness() {
    let mut sim = Sim::echo(config(ManagedPacing::Burst), &["first", "second"]);
    sim.run();
    let sends = echo_sends(&sim);
    assert_rotated_without_catchup(&sends);
    assert_eq!(sends[0].2, sends[1].2);
}

#[test]
fn staggered_pacing_fairness() {
    let mut sim = Sim::echo(config(ManagedPacing::Staggered), &["first", "second"]);
    sim.run();
    let sends = echo_sends(&sim);
    assert_rotated_without_catchup(&sends);
    assert_ne!(sends[0].2, sends[1].2);
}

fn run_negotiated_stagger_case(
    requested: Duration,
    negotiated: &[Duration],
) -> (Vec<(usize, Duration)>, Vec<u64>) {
    let mut managed = config(ManagedPacing::Staggered);
    managed.client.duration = Some(Duration::from_millis(190));
    managed.client.interval = requested;
    managed.client.negotiation_policy = NegotiationPolicy::Loose;
    let mut sim = Sim::new(managed, many(negotiated.len()));
    for (index, interval) in negotiated.iter().enumerate() {
        sim = sim.with_server(
            &format!("target-{index}"),
            Server {
                interval: Some(*interval),
                ..ECHO
            },
        );
    }
    let outcome = sim.run();
    let packets_sent = (0..negotiated.len())
        .map(|index| {
            outcome
                .recent_target_outcomes
                .iter()
                .find(|target| target.target.id.as_str() == format!("target-{index}"))
                .unwrap()
                .packets_sent
        })
        .collect();
    (sim.spacings, packets_sent)
}

#[test]
fn staggered_pacing_uses_all_active_negotiated_intervals() {
    let requested = Duration::from_millis(120);

    let (single, single_packets) =
        run_negotiated_stagger_case(requested, &[Duration::from_millis(40)]);
    assert!(single
        .iter()
        .all(|entry| *entry == (1, Duration::from_millis(40))));
    assert!(single_packets[0] >= 4);

    let (different, different_packets) = run_negotiated_stagger_case(
        requested,
        &[Duration::from_millis(30), Duration::from_millis(90)],
    );
    let while_both_active = different
        .iter()
        .filter(|(active, _)| *active == 2)
        .collect::<Vec<_>>();
    assert!(!while_both_active.is_empty());
    assert!(while_both_active
        .iter()
        .all(|(_, spacing)| *spacing == Duration::from_millis(15)));
    assert!(different_packets[0] > different_packets[1]);

    let (equal, _) = run_negotiated_stagger_case(
        requested,
        &[Duration::from_millis(60), Duration::from_millis(60)],
    );
    let while_both_active = equal
        .iter()
        .filter(|(active, _)| *active == 2)
        .collect::<Vec<_>>();
    assert!(!while_both_active.is_empty());
    assert!(while_both_active
        .iter()
        .all(|(_, spacing)| *spacing == Duration::from_millis(30)));
}

#[test]
fn stagger_gate_tracks_active_membership() {
    let mut sim = Sim::new(
        explicit(ManagedPacing::Staggered),
        vec![target("first"), target("second")],
    )
    .with_server(
        "first",
        Server {
            interval: Some(Duration::from_millis(100)),
            ..ECHO
        },
    )
    .with_server(
        "second",
        Server {
            opens: false,
            interval: Some(Duration::from_secs(1)),
            ..ECHO
        },
    );
    sim.run_until(|task| task.target(0).counters.packets_sent == 1);
    let one_target_last = sim.task.last_stagger_send().unwrap();
    let one_target_gate = sim.task.send_gate().unwrap();
    assert_eq!(one_target_gate, after(one_target_last, 100));

    sim.session(1).server.opens = true;
    sim.run_until(|task| task.active_count() == 2);
    let last = sim.task.last_stagger_send().unwrap();
    let gate = sim.task.send_gate().unwrap();
    assert_eq!(gate, after(last, 50));
    assert!(gate <= one_target_gate);
    assert!(gate > last && gate < after(last, 100));
    sim.run_until(|task| task.target(1).counters.packets_sent == 1);

    let accepted_at = sim.now;
    sim.task.record_stagger_acceptance(
        SendResult::Failed { accepted: true },
        Some((2, Duration::from_millis(50))),
        accepted_at,
    );
    assert_eq!(sim.task.send_gate(), Some(after(accepted_at, 50)));
    let preserved = sim.task.send_gate();
    sim.task
        .apply_targets(vec![target("second")], sim.now)
        .unwrap();
    sim.perform();
    sim.step(0);
    assert!(matches!(
        sim.task.target(0).state,
        TargetState::Draining { .. }
    ));
    assert_eq!(sim.task.send_gate(), preserved);
    sim.stop.request();
    assert_eq!(sim.run().failed_target_outcomes, 0);
}

#[test]
fn spacing_never_falls_below_a_nanosecond() {
    assert_eq!(
        stagger_spacing(Duration::from_millis(90), 4),
        Duration {
            nanos: 22_500_000
        }
    );
    assert_eq!(
        stagger_spacing(Duration::from_nanos(1), 2),
        Duration::from_nanos(1)
    );
}

#[test]
fn timeout_discovery_inspects_at_most_one_budget_of_targets() {
    let count = TIMEOUT_WORK_BUDGET + 1;
    let mut managed = explicit(ManagedPacing::Burst);
    managed.max_live_target_generations = count;
    let mut sim = Sim::new(managed, many(count));
    assert!(!sim.timeout_pass());
    assert_eq!(sim.task.cursors().timeout_cursor, TIMEOUT_WORK_BUDGET);
}

fn silent_among(count: usize, silent: &[usize]) -> Sim {
    let mut managed = explicit(ManagedPacing::Burst);
    managed.max_live_target_generations = count;
    managed.client.max_pending_probes = 4096;
    let mut sim = Sim::new(managed, many(count));
    for index in silent {
        sim = sim.with_server(&format!("target-{index}"), SILENT);
        sim.step_to(*index, ManagedTargetLifecycle::Active);
    }
    sim
}

#[test]
fn sparse_timeout_backlog_persists_across_polls() {
    let mut sim = silent_among(2 * TIMEOUT_WORK_BUDGET + 1, &[0]);
    sim.overdue(0, 2 * TIMEOUT_WORK_BUDGET + 64);
    sim.advance(2_000);

    assert!(sim.timeout_pass());
    assert_eq!(sim.losses("target-0"), TIMEOUT_WORK_BUDGET);
    assert_eq!(sim.task.timeout_backlog_len(), 1);

    assert!(sim.timeout_pass());
    assert_eq!(sim.losses("target-0"), 2 * TIMEOUT_WORK_BUDGET);
    assert_eq!(sim.task.timeout_backlog_len(), 1);
}

#[test]
fn timeout_backlog_does_not_starve_discovery() {
    let count = 2 * TIMEOUT_WORK_BUDGET + 1;
    let late = count - 1;
    let mut sim = silent_among(count, &[0, late]);
    sim.overdue(0, 4 * TIMEOUT_WORK_BUDGET);
    sim.overdue(late, 1);
    sim.advance(2_000);
    let late_id = format!("target-{late}");

    assert!(sim.timeout_pass());
    assert_eq!(sim.losses(&late_id), 0);
    assert!(sim.timeout_pass());
    assert_eq!(sim.losses(&late_id), 0);
    assert!(sim.timeout_pass());
    assert_eq!(sim.losses(&late_id), 1);
    assert_eq!(sim.task.timeout_backlog_len(), 1);
}

#[test]
fn immediate_timeout_backlog_skips_global_deadline_scan() {
    let mut sim = silent_among(1, &[0]);
    sim.overdue(0, TIMEOUT_WORK_BUDGET + 1);
    sim.advance(2_000);
    sim.deadline_scans = 0;

    assert!(sim.poll().is_none());
    assert_eq!(sim.deadline_scans, 0);
    assert_eq!(sim.task.timeout_backlog_len(), 1);
    assert!(sim.again);

    assert!(!sim.timeout_pass());
    assert_eq!(sim.task.timeout_backlog_len(), 0);
    sim.deadline_scans = 0;
    assert!(sim.poll().is_none());
    assert_eq!(sim.deadline_scans, 1);
}

#[test]
fn stale_timeout_backlog_entry_is_dropped_after_pruning() {
    let mut sim = silent_among(2, &[0, 1]);
    sim.overdue(0, TIMEOUT_WORK_BUDGET + 1);
    sim.advance(2_000);
    assert!(sim.timeout_pass());
    assert_eq!(sim.task.timeout_backlog_len(), 1);

    sim.session(0).pending.clear();
    sim.session(0).peer_closed = true;
    let survivor = RequestedTarget {
        target: sim.task.target(1).config.copy(),
        checks: sound(),
    };
    sim.task.apply_targets(vec![survivor], sim.now).unwrap();
    sim.step_to(0, ManagedTargetLifecycle::Terminal);
    sim.task.prune_undesired_terminal();
    sim.perform();
    assert_eq!(sim.task.target_count(), 1);
    assert_eq!(sim.task.target(0).instance.generation, 2);

    assert!(!sim.timeout_pass());
    assert_eq!(sim.task.timeout_backlog_len(), 0);
    assert_eq!(sim.losses("target-1"), 0);
}

#[test]
fn timeout_discovery_reaches_later_target_after_budget_slice() {
    let late = TIMEOUT_WORK_BUDGET;
    let mut sim = silent_among(TIMEOUT_WORK_BUDGET + 1, &[late]);
    sim.overdue(late, 1);
    sim.advance(1_000);
    let late_id = format!("target-{late}");

    assert!(!sim.timeout_pass());
    assert_eq!(sim.losses(&late_id), 0);
    assert!(!sim.timeout_pass());
    assert_eq!(sim.losses(&late_id), 1);
}

#[test]
fn timeout_work_is_bounded_per_task_poll_and_eventually_drains() {
    let mut sim = silent_among(1, &[0]);
    sim.overdue(0, TIMEOUT_WORK_BUDGET + 1);
    sim.advance(2_000);
    assert!(sim.poll().is_none());
    assert_eq!(sim.losses("target-0"), TIMEOUT_WORK_BUDGET);
    assert!(sim.task.timeouts_pending());
    assert!(sim.poll().is_none());
    assert_eq!(sim.losses("target-0"), TIMEOUT_WORK_BUDGET + 1);
    assert!(!sim.task.timeouts_pending());
}

#[test]
fn timeout_work_round_robins_simultaneous_target_backlogs() {
    let mut sim = silent_among(2, &[0, 1]);
    let per_target = TIMEOUT_WORK_BUDGET + 16;
    sim.overdue(0, per_target);
    sim.overdue(1, per_target);
    sim.advance(2_000);
    assert!(sim.poll().is_none());
    assert_eq!(sim.losses("target-0"), TIMEOUT_WORK_BUDGET / 2);
    assert_eq!(sim.losses("target-1"), TIMEOUT_WORK_BUDGET / 2);
    for _ in 0..4 {
        assert!(sim.poll().is_none());
    }
    assert_eq!(sim.losses("target-0"), per_target);
    assert_eq!(sim.losses("target-1"), per_target);
}

#[test]
fn budget_deferred_timeout_blocks_send_until_timeout_processing() {
    let late = TIMEOUT_WORK_BUDGET;
    let mut sim = silent_among(TIMEOUT_WORK_BUDGET + 1, &[late]);
    let late_id = format!("target-{late}");
    assert!(matches!(
        sim.send(late, None),
        SendResult::Ready { accepted: true }
    ));
    sim.advance(1_000);
    assert!(!sim.task.can_send(late, sim.now));
    assert!(!sim.timeout_pass());
    assert_eq!(sim.send(late, None), SendResult::NotAttempted);
    assert_eq!(sim.losses(&late_id), 0);
    assert!(!sim.task.target(late).send_waiting);

    assert!(!sim.timeout_pass());
    assert_eq!(sim.losses(&late_id), 1);
    assert!(matches!(
        sim.send(late, None),
        SendResult::Ready { accepted: true }
    ));
    assert_eq!(sim.session(late).packets_sent, 2);
}

fn classified(sim: &Sim, seq: u32) -> Vec<&'static str> {
    sim.client_events("target-0")
        .iter()
        .filter_map(|event| match event {
            ClientEvent::EchoLoss { seq: of, .. } if *of == seq => Some("loss"),
            ClientEvent::LateReply { seq: of, .. } if *of == seq => Some("late"),
            ClientEvent::EchoReply { seq: of, .. } if *of == seq => Some("reply"),
            _ => None,
        })
        .collect()
}

#[test]
fn partial_timeout_batch_blocks_active_receive_until_loss_commits() {
    let mut sim = silent_among(1, &[0]);
    sim.overdue(0, TIMEOUT_WORK_BUDGET + 1);
    sim.advance(2_000);
    let seq = u32::try_from(TIMEOUT_WORK_BUDGET).unwrap();
    let now = sim.now;
    sim.session(0).inbox.push_back((seq, now));

    assert!(sim.poll().is_none());
    assert_eq!(sim.losses("target-0"), TIMEOUT_WORK_BUDGET);
    assert!(classified(&sim, seq).is_empty());
    assert!(sim.poll().is_none());
    assert_eq!(classified(&sim, seq), ["loss", "late"]);
}

#[test]
fn partial_timeout_batch_blocks_draining_receive_until_loss_commits() {
    let mut sim = silent_among(1, &[0]);
    sim.overdue(0, TIMEOUT_WORK_BUDGET + 1);
    sim.advance(2_000);
    let seq = u32::try_from(TIMEOUT_WORK_BUDGET).unwrap();
    let now = sim.now;
    sim.session(0).inbox.push_back((seq, now));
    sim.stop.request();

    assert!(sim.poll().is_none());
    assert_eq!(sim.losses("target-0"), TIMEOUT_WORK_BUDGET);
    assert!(matches!(
        sim.task.target(0).state,
        TargetState::Draining {
            primary_end: ManagedTargetEndReason::Stopped,
            cleanup_failure: None,
            ..
        }
    ));
    assert!(classified(&sim, seq).is_empty());
    assert!(sim.poll().is_none());
    assert_eq!(classified(&sim, seq), ["loss", "late"]);
    let outcome = sim.run();
    let ended = &outcome.recent_target_outcomes[0];
    assert!(matches!(ended.end_reason, ManagedTargetEndReason::Stopped));
    assert!(ended.cleanup_failure.is_none());
}

#[test]
fn overdue_queued_reply_is_lost_then_late() {
    let mut managed = explicit(ManagedPacing::Staggered);
    managed.client.interval = Duration::from_secs(1);
    managed.client.probe_timeout = Duration::from_millis(30);
    let mut sim = Sim::new(managed, vec![target("target-0")]).with_server("target-0", SILENT);
    sim.run_until(|task| task.target(0).counters.packets_sent == 1);
    sim.advance(31);
    let now = sim.now;
    sim.session(0).inbox.push_back((0, now));
    assert!(sim.poll().is_none());
    assert_eq!(classified(&sim, 0), ["loss", "late"]);
    sim.stop.request();
    let outcome = sim.run();
    assert_eq!(outcome.recent_target_outcomes[0].replies_received, 0);
    assert_eq!(outcome.recent_target_outcomes[0].late, 1);
}

#[test]
fn retained_probe_deadline_shortens_after_late_reply() {
    let mut managed = explicit(ManagedPacing::Staggered);
    managed.client.interval = Duration::from_secs(1);
    managed.client.probe_timeout = Duration::from_millis(100);
    managed.final_drain = Duration::from_millis(200);
    let mut sim = Sim::new(managed, vec![target("one")]).with_server("one", SILENT);
    sim.run_until(|task| task.target(0).counters.packets_sent == 1);
    sim.stop.request();
    sim.run_until(|task| matches!(task.target(0).state, TargetState::Draining { .. }));
    let draining = |task: &ManagedClientTask| match &task.target(0).state {
        TargetState::Draining {
            drain_started_at,
            deadline,
            ..
        } => (*drain_started_at, *deadline),
        state => panic!("unexpected state: {state:?}"),
    };
    let timeout_at = sim.session(0).pending[0].1;
    let (drain_started_at, initial_deadline) = draining(&sim.task);
    assert_eq!(initial_deadline, after(timeout_at, 200));

    while sim.now <= timeout_at {
        assert!(sim.poll().is_none());
        sim.advance(1);
    }
    assert!(sim.session(0).pending.is_empty());
    assert_eq!(draining(&sim.task).1, initial_deadline);

    let now = sim.now;
    sim.session(0).inbox.push_back((0, now));
    assert!(sim.poll().is_none());
    let shortened = after(drain_started_at, 200);
    assert_eq!(draining(&sim.task).1, shortened);
    assert!(shortened < initial_deadline);

    let outcome = sim.run();
    let ended = &outcome.recent_target_outcomes[0];
    assert_eq!(outcome.end_reason, ManagedEndReason::StopRequested);
    assert!(matches!(ended.end_reason, ManagedTargetEndReason::Stopped));
    assert_eq!(ended.packets_sent, 1);
    assert_eq!(ended.replies_received, 0);
    assert_eq!(ended.late, 1);
}

#[test]
fn pending_limit_failure_drains_reply_and_closes_session() {
    let mut managed = config(ManagedPacing::Staggered);
    managed.client.duration = Some(Duration::from_millis(250));
    managed.client.interval = Duration::from_millis(20);
    managed.client.probe_timeout = Duration::from_secs(2);
    managed.client.max_pending_probes = 1;
    managed.final_drain = Duration::from_millis(50);
    let mut sim = Sim::new(managed, vec![target("one")]).with_server(
        "one",
        Server {
            delay: 80,
            ..ECHO
        },
    );
    let outcome = sim.run();
    assert!(sim.now < after(BASE, 1_000));
    let ended = &outcome.recent_target_outcomes[0];
    assert_eq!(outcome.failed_target_outcomes, 1);
    assert!(matches!(
        ended.end_reason,
        ManagedTargetEndReason::Failed(ManagedTargetFailure {
            phase: ManagedTargetFailurePhase::Sending,
            kind: ManagedTargetFailureKind::ResourceExhausted,
            ..
        })
    ));
    assert_eq!(ended.cleanup_failure, None);
    assert_eq!(ended.packets_sent, 1);
    assert_eq!(ended.replies_received, 1);
    assert_eq!(sim.sessions[&1].closes, 1);
}

#[test]
fn drain_failures_preserve_primary_outcome_and_first_cleanup_failure() {
    for stopped in [false, true] {
        let managed = if stopped {
            explicit(ManagedPacing::Staggered)
        } else {
            config(ManagedPacing::Staggered)
        };
        let mut sim = Sim::echo(managed, &["one"]);
        if stopped {
            sim.run_until(|task| task.target(0).counters.packets_sent == 1);
            sim.stop.request();
        }
        sim.run_until(|task| matches!(task.target(0).state, TargetState::Draining { .. }));
        sim.session(0).server.receive_fails = true;
        sim.session(0).server.close_fails = !stopped;
        let outcome = sim.run();
        let ended = &outcome.recent_target_outcomes[0];
        let expected = if stopped {
            ManagedTargetEndReason::Stopped
        } else {
            ManagedTargetEndReason::TestComplete
        };
        assert_eq!(ended.end_reason, expected);
        assert_eq!(outcome.failed_target_outcomes, 0);
        assert!(matches!(
            ended.cleanup_failure,
            Some(ManagedTargetFailure {
                phase: ManagedTargetFailurePhase::Receiving,
                kind: ManagedTargetFailureKind::Socket,
                ..
            })
        ));
    }
}

#[test]
fn final_drain_overflow_is_rejected_and_preserves_success() {
    let mut invalid = config(ManagedPacing::Staggered);
    invalid.final_drain = Duration::max_value();
    assert!(matches!(
        ManagedClient::task(invalid, vec![target("invalid")], BASE),
        Err(ManagedConfigError::UnschedulableFinalDrain { duration })
            if duration == Duration::max_value()
    ));

    let largest = Duration {
        nanos: Instant {
            nanos: 9_223_372_036_854_775_807_999_999_999,
        }
        .saturating_duration_since(BASE)
        .nanos,
    };
    let mut managed = config(ManagedPacing::Staggered);
    managed.final_drain = largest;
    let mut sim = Sim::echo(managed, &["completed"]);
    let outcome = sim.run();
    let ended = &outcome.recent_target_outcomes[0];
    assert!(matches!(
        ended.end_reason,
        ManagedTargetEndReason::TestComplete
    ));
    assert_eq!(outcome.successful_target_outcomes, 1);
    assert_eq!(outcome.failed_target_outcomes, 0);
    assert!(matches!(
        ended.cleanup_failure,
        Some(ManagedTargetFailure {
            phase: ManagedTargetFailurePhase::Timing,
            kind: ManagedTargetFailureKind::ResourceExhausted,
            ..
        })
    ));
    assert_eq!(sim.sessions[&1].closes, 1);
}

fn run_deferred_drain_burst(packet_count: usize) -> ManagedOutcome {
    let mut managed = explicit(ManagedPacing::Staggered);
    managed.client.interval = Duration::from_millis(100);
    managed.client.probe_timeout = Duration::from_millis(60);
    managed.final_drain = Duration::from_millis(20);
    let mut sim = Sim::new(managed, vec![target("one")]).with_server("one", SILENT);
    sim.run_until(|task| task.target(0).counters.packets_sent == 1);
    sim.stop.request();
    sim.run_until(|task| matches!(task.target(0).state, TargetState::Draining { .. }));
    sim.advance(500);
    let now = sim.now;
    for i in 0..packet_count {
        let seq = if i == 0 { 0 } else { 9 };
        sim.session(0).inbox.push_back((seq, now));
    }
    sim.run()
}

#[test]
fn post_deadline_receive_sweep_drains_queued_packets_and_is_bounded() {
    let drained = run_deferred_drain_burst(3);
    let ended = &drained.recent_target_outcomes[0];
    assert!(matches!(ended.end_reason, ManagedTargetEndReason::Stopped));
    assert_eq!(ended.replies_received, 0);
    assert_eq!(ended.late, 1);
    assert_eq!(ended.duplicates, 2);

    let bounded = run_deferred_drain_burst(POST_DEADLINE_RECEIVE_BUDGET + 64);
    let ended = &bounded.recent_target_outcomes[0];
    assert!(matches!(ended.end_reason, ManagedTargetEndReason::Stopped));
    assert_eq!(
        ended.replies_received + ended.duplicates + ended.late,
        u64::try_from(POST_DEADLINE_RECEIVE_BUDGET).unwrap()
    );
    assert_eq!(bounded.failed_target_outcomes, 0);
}

#[test]
fn outcome_history_eviction_preserves_aggregates() {
    let mut managed = config(ManagedPacing::Staggered);
    managed.client.run_mode = RunMode::NoTest;
    managed.outcome_history_limit = 1;
    let mut sim = Sim::new(managed, many(3));
    for index in 0..3 {
        sim = sim.with_server(
            &format!("target-{index}"),
            Server {
                no_test: true,
                ..ECHO
            },
        );
    }
    let outcome = sim.run();
    assert_eq!(outcome.total_target_outcomes, 3);
    assert_eq!(outcome.successful_target_outcomes, 3);
    assert_eq!(outcome.discarded_target_outcomes, 2);
    assert_eq!(outcome.recent_target_outcomes.len(), 1);
    let last_finished = sim
        .events()
        .into_iter()
        .filter_map(|(event, _)| match event {
            ManagedEvent::TargetFinished { outcome } => Some(outcome.target.clone()),
            _ => None,
        })
        .last()
        .unwrap();
    assert_eq!(outcome.recent_target_outcomes[0].target, last_finished);
}

#[test]
fn status_precedes_corresponding_events() {
    let mut sim = Sim::new(config(ManagedPacing::Staggered), vec![target("one")]).with_server(
        "one",
        Server {
            no_test: true,
            ..ECHO
        },
    );
    sim.run();
    let mut seen = [false; 5];
    for (event, status) in sim.events() {
        match event {
            ManagedEvent::Started => {
                seen[0] = true;
                assert_eq!(status.lifecycle, ManagedLifecycle::Running);
            }
            ManagedEvent::TargetStateChanged { target, lifecycle } => {
                seen[1] = true;
                assert!(status
                    .targets
                    .iter()
                    .any(|entry| entry.target == *target && entry.lifecycle == *lifecycle));
            }
            ManagedEvent::TargetFinished { .. } => {
                seen[2] = true;
                assert!(status.total_target_outcomes >= 1);
            }
            ManagedEvent::Stopping => {
                seen[3] = true;
                assert_eq!(status.lifecycle, ManagedLifecycle::Stopping);
            }
            ManagedEvent::Completed { .. } => {
                seen[4] = true;
                assert_eq!(status.lifecycle, ManagedLifecycle::Completed);
            }
            _ => {}
        }
    }
    assert_eq!(seen, [true; 5]);
}

#[test]
fn dropping_all_handles_does_not_stop() {
    let mut sim = Sim::echo(config(ManagedPacing::Staggered), &["one"]);
    assert_eq!(sim.run().end_reason, ManagedEndReason::TargetsComplete);
}

#[test]
fn task_drop_abandonment() {
    let mut sim = Sim::new(config(ManagedPacing::Staggered), vec![target("one")]);
    sim.task.abandon();
    sim.perform();
    assert_eq!(sim.status().lifecycle, ManagedLifecycle::Abandoned);
    assert_eq!(sim.status().total_target_outcomes, 0);
    assert!(matches!(
        sim.events().as_slice(),
        [(ManagedEvent::Abandoned, _)]
    ));
    assert!(!sim.events_open);
    sim.task.abandon();
    assert!(sim.task.take_outbox().is_empty());
}

#[test]
fn terminal_subscription_is_closed() {
    let mut sim = Sim::new(config(ManagedPacing::Staggered), vec![target("one")]);
    sim.runtime = false;
    assert!(sim.poll().is_some());
    assert!(!sim.events_open);
}

#[test]
fn closing_that_takes_too_long_is_given_up() {
    let mut sim = Sim::echo(explicit(ManagedPacing::Staggered), &["one"]);
    sim.run_until(|task| task.active_count() == 1);
    sim.stop.request();
    sim.run_until(|task| matches!(task.target(0).state, TargetState::Closing { .. }));
    let facts = sim.facts(0);
    let pending = || TargetPoll::Close {
        poll: ClosePoll::Pending,
    };
    sim.task.poll_target(0, pending(), facts, sim.now, sim.now);
    assert!(matches!(
        sim.task.target(0).state,
        TargetState::Closing { .. }
    ));
    sim.advance(6);
    sim.task.poll_target(0, pending(), facts, sim.now, sim.now);
    sim.perform();
    let outcome = sim.run();
    assert!(matches!(
        outcome.recent_target_outcomes[0].cleanup_failure,
        Some(ManagedTargetFailure {
            phase: ManagedTargetFailurePhase::Closing,
            kind: ManagedTargetFailureKind::Timeout,
            ..
        })
    ));
}

#[test]
fn schedule_failure_after_an_accepted_send_ends_the_target() {
    let mut sim = silent_among(1, &[0]);
    let now = sim.now;
    let mut observed = sim.session(0).send(now);
    observed.schedule_error = Some(ClientError::DurationOverflow);
    assert_eq!(
        sim.task.poll_one_send(0, Some(observed), None, now, now),
        SendResult::Failed { accepted: true }
    );
    assert!(matches!(
        &sim.task.target(0).state,
        TargetState::Draining {
            primary_end: ManagedTargetEndReason::Failed(ManagedTargetFailure {
                phase: ManagedTargetFailurePhase::Timing,
                ..
            }),
            ..
        }
    ));
}

#[test]
fn rounds_visit_every_target_and_leave_work_when_large() {
    let count = 300;
    let mut managed = explicit(ManagedPacing::Burst);
    managed.max_live_target_generations = count;
    let mut sim = Sim::new(managed, many(count));
    let mut visited = vec![];
    visited.extend(sim.task.plan_target_pass());
    assert_eq!(visited.len(), 128);
    assert!(sim.task.work_left());
    visited.extend(sim.task.plan_target_pass());
    visited.extend(sim.task.plan_target_pass());
    assert_eq!(visited, (0..count).collect::<Vec<_>>());
    assert!(!sim.task.work_left());
    assert_eq!(sim.task.plan_target_pass()[0], 0);
}

#[test]
fn settled_sends_are_told_from_pending_ones() {
    assert!(SendResult::Ready { accepted: false }.is_settled());
    assert!(SendResult::Failed { accepted: false }.is_settled());
    assert!(!SendResult::Pending.is_settled());
    assert!(!SendResult::NotAttempted.is_settled());
}

#[test]
fn only_a_running_driver_sends() {
    let mut sim = Sim::echo(explicit(ManagedPacing::Burst), &["one"]);
    assert_eq!(sim.task.plan_sends(sim.now), SendWork::Nothing);
    sim.run_until(|task| task.target(0).counters.packets_sent == 1);
    assert_eq!(
        sim.task.plan_sends(sim.now),
        SendWork::Burst { targets: vec![0] }
    );
    sim.stop.request();
    assert!(sim.poll().is_none());
    assert_eq!(sim.task.plan_sends(sim.now), SendWork::Nothing);
}

#[test]
fn poll_works_through_its_stages_in_order() {
    let mut turn = PollTurn::new();
    assert_eq!(
        turn.stage,
        PollStage::Commands {
            left: COMMAND_WORK_BUDGET
        }
    );
    turn.advance(PollReport::NoCommand);
    assert!(!turn.again);
    let mut stages = vec![];
    while turn.stage != PollStage::Over {
        stages.push(turn.stage);
        turn.advance(PollReport::Done {
            again: turn.stage == PollStage::Targets,
        });
    }
    assert_eq!(
        stages,
        vec![
            PollStage::Timeouts,
            PollStage::Targets,
            PollStage::Prune,
            PollStage::Sends,
            PollStage::Complete,
            PollStage::WatchStop { deadline: true },
            PollStage::Deadline,
        ]
    );
    assert!(turn.again);
}

#[test]
fn poll_with_work_left_ends_without_a_deadline() {
    let mut turn = PollTurn {
        stage: PollStage::Complete,
        again: false,
    };
    turn.advance(PollReport::Done { again: true });
    assert_eq!(turn.stage, PollStage::WatchStop { deadline: false });
    turn.advance(PollReport::Done { again: false });
    assert_eq!(turn.stage, PollStage::Over);
    assert!(turn.again);
}

#[test]
fn one_poll_applies_one_budget_of_commands() {
    let mut managed = explicit(ManagedPacing::Staggered);
    managed.command_capacity = COMMAND_WORK_BUDGET + 1;
    let mut sim = Sim::new(managed, vec![]);
    for ticket in 0..COMMAND_WORK_BUDGET + 1 {
        sim.update_targets(ticket as u64, vec![]).unwrap();
    }
    assert!(sim.poll().is_none());
    assert_eq!(sim.answers.len(), COMMAND_WORK_BUDGET);
    assert!(sim.again);
    assert!(sim.poll().is_none());
    assert_eq!(sim.answers.len(), COMMAND_WORK_BUDGET + 1);
    assert!(sim.poll().is_none());
    assert!(!sim.again);
}

#[test]
fn command_queue_closes_before_the_outcome_is_shown() {
    let mut sim = Sim::new(explicit(ManagedPacing::Staggered), vec![]);
    sim.stop.request();
    sim.poll().expect("empty stopped task did not seal");
    let close = sim
        .log
        .iter()
        .position(|effect| {
            matches!(
                effect,
                TaskEffect::CloseCommands {
                    end_reason: ManagedEndReason::StopRequested
                }
            )
        })
        .unwrap();
    let completed = sim
        .log
        .iter()
        .position(|effect| {
            matches!(
                effect,
                TaskEffect::Event {
                    event: ManagedEvent::Completed { .. }
                }
            )
        })
        .unwrap();
    assert!(close < completed);
    assert!(matches!(sim.log.last(), Some(TaskEffect::CloseEvents)));
}
