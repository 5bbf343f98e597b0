use irtt_client::blocking::{join_worker, BlockingManagedJoinError};
use irtt_client::config::{ClientConfig, NegotiationPolicy, RunMode, SocketConfig};
use irtt_client::error::ClientError;
use irtt_client::event::{ClientEvent, EventSubscriptionError, OpenOutcome, WarningKind};
use irtt_client::hub::{EventHub, SubscriberConfig};
use irtt_client::net::SocketAddr;
use irtt_client::runner::{
    clamp_recv_timeout, join_session, publish_open_outcome, ClientRun, RunAction, RunFacts,
    SessionEndReason, SessionOutcome, MANAGED_FINAL_DRAIN,
};
use irtt_client::timing::{ClientTimestamp, Duration, Instant, SystemTime};

const MILLI: u128 = 1_000_000;
const START: u128 = 1_000_000_000_000;
const REMOTE: SocketAddr = SocketAddr::V4 {
    ip: 0x7f00_0001,
    port: 2112,
};

fn at(millis: u128) -> Instant {
    Instant {
        nanos: START + millis * MILLI,
    }
}

fn stamp(millis: u128) -> ClientTimestamp {
    ClientTimestamp {
        wall: SystemTime { nanos: 0 },
        mono: at(millis),
    }
}

fn facts(millis: u128) -> RunFacts {
    RunFacts {
        now: at(millis),
        cancelled: false,
        next_send: None,
        peer_closed: false,
        run_complete: false,
        has_timed_out: false,
        packets_sent: 0,
    }
}

fn closed() -> ClientEvent {
    ClientEvent::SessionClosed {
        remote: REMOTE,
        token: 7,
        at: stamp(0),
    }
}

fn late() -> ClientEvent {
    ClientEvent::LateReply {
        seq: 0,
        sent_at: Some(stamp(0)),
        received_at: stamp(60),
        rtt: Some(Duration::from_millis(60)),
    }
}

fn loss() -> ClientEvent {
    ClientEvent::EchoLoss {
        seq: 0,
        sent_at: stamp(0),
        timeout_at: at(20),
    }
}

fn outcome(end_reason: SessionEndReason, packets_sent: u64) -> SessionOutcome {
    SessionOutcome {
        end_reason,
        packets_sent,
        replies_received: 0,
        duplicates: 0,
        late: 0,
        warning_events: 0,
    }
}

#[test]
fn no_test_managed_run_returns_no_test_outcome() {
    let mut run = ClientRun::new();
    let finish = run.run_client(RunFacts {
        run_complete: true,
        ..facts(0)
    });
    assert_eq!(
        finish,
        RunAction::Finish {
            outcome: outcome(SessionEndReason::NoTestComplete, 0)
        }
    );
    assert_eq!(run.run_client(facts(1)), finish);
}

#[test]
fn continuous_managed_run_can_be_stopped_cleanly() {
    let mut hub = EventHub::new();
    let sub = hub.subscribe(SubscriberConfig::default()).unwrap();
    let mut run = ClientRun::new();

    let due = RunFacts {
        next_send: Some(at(0)),
        ..facts(0)
    };
    assert_eq!(run.run_client(due), RunAction::Send);
    run.conclude(&mut hub, Ok(vec![])).unwrap();

    let stopped = RunFacts {
        cancelled: true,
        next_send: Some(at(1)),
        packets_sent: 1,
        has_timed_out: true,
        ..facts(2)
    };
    assert_eq!(run.run_client(stopped), RunAction::Receive);
    run.conclude(&mut hub, Ok(vec![])).unwrap();
    assert_eq!(run.run_client(stopped), RunAction::Expire);
    run.conclude(&mut hub, Ok(vec![loss()])).unwrap();
    assert_eq!(run.run_client(stopped), RunAction::Close);
    run.conclude(&mut hub, Ok(vec![closed()])).unwrap();
    assert_eq!(
        run.run_client(stopped),
        RunAction::Finish {
            outcome: outcome(SessionEndReason::Cancelled, 1)
        }
    );

    assert_eq!(sub.try_recv(&mut hub), Ok(Some(loss())));
    assert_eq!(sub.try_recv(&mut hub), Ok(Some(closed())));
}

#[test]
fn stop_is_idempotent() {
    let mut run = ClientRun::new();
    let stopped = RunFacts {
        cancelled: true,
        peer_closed: true,
        ..facts(0)
    };
    assert_eq!(run.run_client(stopped), RunAction::Receive);
    let finish = RunAction::Finish {
        outcome: outcome(SessionEndReason::Cancelled, 0),
    };
    assert_eq!(run.run_client(stopped), finish);
    assert_eq!(run.run_client(stopped), finish);
}

#[test]
fn peer_close_during_managed_run_is_successful() {
    let mut hub = EventHub::new();
    let mut run = ClientRun::new();
    assert_eq!(run.run_client(facts(0)), RunAction::Receive);
    run.conclude(
        &mut hub,
        Ok(vec![
            ClientEvent::DuplicateReply {
                seq: 0,
                received_at: stamp(0),
            },
            closed(),
        ]),
    )
    .unwrap();
    assert_eq!(
        run.run_client(RunFacts {
            peer_closed: true,
            packets_sent: 3,
            has_timed_out: true,
            ..facts(1)
        }),
        RunAction::Finish {
            outcome: SessionOutcome {
                duplicates: 1,
                ..outcome(SessionEndReason::TestComplete, 3)
            }
        }
    );
}

#[test]
fn finite_managed_run_drains_late_reply_after_timeout_before_close() {
    let mut hub = EventHub::new();
    let sub = hub.subscribe(SubscriberConfig::default()).unwrap();
    let mut run = ClientRun::new();
    let waiting = |millis: u128| RunFacts {
        run_complete: millis >= 20,
        has_timed_out: millis >= 20 && millis < 61,
        packets_sent: 1,
        ..facts(millis)
    };

    assert_eq!(run.run_client(waiting(0)), RunAction::Receive);
    run.conclude(&mut hub, Ok(vec![])).unwrap();
    assert_eq!(run.run_client(waiting(0)), RunAction::Expire);
    run.conclude(&mut hub, Ok(vec![])).unwrap();
    assert_eq!(
        run.run_client(RunFacts {
            next_send: Some(at(5)),
            ..waiting(0)
        }),
        RunAction::Sleep {
            duration: Duration::from_millis(5)
        }
    );
    assert_eq!(run.run_client(waiting(20)), RunAction::Receive);
    run.conclude(&mut hub, Ok(vec![])).unwrap();
    assert_eq!(run.run_client(waiting(20)), RunAction::Expire);
    run.conclude(&mut hub, Ok(vec![loss()])).unwrap();

    assert_eq!(run.run_client(waiting(20)), RunAction::Receive);
    run.conclude(&mut hub, Ok(vec![])).unwrap();
    assert_eq!(run.run_client(waiting(20)), RunAction::Expire);
    run.conclude(&mut hub, Ok(vec![])).unwrap();
    assert_eq!(
        run.run_client(waiting(20)),
        RunAction::Sleep {
            duration: Duration::from_millis(1)
        }
    );
    assert_eq!(run.run_client(waiting(60)), RunAction::Receive);
    run.conclude(&mut hub, Ok(vec![late()])).unwrap();
    assert_eq!(run.run_client(waiting(60)), RunAction::Expire);
    run.conclude(&mut hub, Ok(vec![])).unwrap();
    assert_eq!(run.run_client(waiting(61)), RunAction::Close);
    run.conclude(&mut hub, Ok(vec![closed()])).unwrap();
    assert_eq!(
        run.run_client(waiting(61)),
        RunAction::Finish {
            outcome: SessionOutcome {
                late: 1,
                ..outcome(SessionEndReason::TestComplete, 1)
            }
        }
    );

    assert_eq!(sub.try_recv(&mut hub), Ok(Some(loss())));
    assert_eq!(sub.try_recv(&mut hub), Ok(Some(late())));
    assert_eq!(sub.try_recv(&mut hub), Ok(Some(closed())));
}

#[test]
fn final_drain_is_bounded() {
    let mut hub = EventHub::new();
    let mut run = ClientRun::new();
    let complete = |millis: u128| RunFacts {
        run_complete: true,
        has_timed_out: true,
        ..facts(millis)
    };
    assert_eq!(run.run_client(facts(0)), RunAction::Receive);
    assert_eq!(run.run_client(facts(0)), RunAction::Expire);
    assert_eq!(run.run_client(complete(0)), RunAction::Receive);
    run.conclude(&mut hub, Ok(vec![])).unwrap();
    assert_eq!(run.run_client(complete(0)), RunAction::Expire);
    run.conclude(&mut hub, Ok(vec![loss()])).unwrap();
    let end = MANAGED_FINAL_DRAIN / MILLI;
    assert_eq!(run.run_client(complete(end - 1)), RunAction::Receive);
    assert_eq!(run.run_client(complete(end - 1)), RunAction::Expire);
    assert!(matches!(
        run.run_client(complete(end - 1)),
        RunAction::Sleep { .. }
    ));
    assert_eq!(run.run_client(complete(end)), RunAction::Close);
}

#[test]
fn finite_managed_run_emits_session_probe_and_close_events() {
    let mut hub = EventHub::new();
    let sub = hub.subscribe(SubscriberConfig::default()).unwrap();
    let started = ClientEvent::SessionStarted {
        remote: REMOTE,
        token: 7,
        at: stamp(0),
    };
    publish_open_outcome(
        &mut hub,
        &OpenOutcome::Started {
            event: started.clone(),
        },
    );
    let mut run = ClientRun::new();
    assert_eq!(run.run_client(facts(0)), RunAction::Receive);
    let warning = ClientEvent::Warning {
        kind: WarningKind::UntrackedReply,
        message: "untracked".to_owned(),
        at: stamp(0),
    };
    run.conclude(&mut hub, Ok(vec![warning.clone()])).unwrap();
    assert_eq!(run.run_client(facts(0)), RunAction::Expire);
    run.conclude(&mut hub, Ok(vec![])).unwrap();
    let complete = RunFacts {
        run_complete: true,
        packets_sent: 4,
        ..facts(35)
    };
    assert_eq!(run.run_client(complete), RunAction::Close);
    run.conclude(&mut hub, Ok(vec![closed()])).unwrap();
    assert_eq!(
        run.run_client(complete),
        RunAction::Finish {
            outcome: SessionOutcome {
                warning_events: 1,
                ..outcome(SessionEndReason::TestComplete, 4)
            }
        }
    );
    assert_eq!(sub.try_recv(&mut hub), Ok(Some(started)));
    assert_eq!(sub.try_recv(&mut hub), Ok(Some(warning)));
    assert_eq!(sub.try_recv(&mut hub), Ok(Some(closed())));
}

#[test]
fn failed_action_ends_the_run_without_publishing() {
    let mut hub = EventHub::new();
    let sub = hub.subscribe(SubscriberConfig::default()).unwrap();
    let mut run = ClientRun::new();
    assert_eq!(run.run_client(facts(0)), RunAction::Receive);
    assert!(matches!(
        run.conclude(&mut hub, Err(ClientError::NotOpen)),
        Err(ClientError::NotOpen)
    ));
    assert_eq!(sub.try_recv(&mut hub), Ok(None));
}

#[test]
fn sleeps_are_short() {
    let sleep = |next_send: Option<Instant>| {
        let mut run = ClientRun::new();
        run.run_client(facts(10));
        run.run_client(facts(10));
        run.run_client(RunFacts {
            next_send,
            ..facts(10)
        })
    };
    let millis = |duration: u64| RunAction::Sleep {
        duration: Duration::from_millis(duration),
    };
    assert_eq!(sleep(None), millis(1));
    assert_eq!(sleep(Some(at(9))), millis(1));
    assert_eq!(sleep(Some(at(10))), millis(0));
    assert_eq!(sleep(Some(at(13))), millis(3));
    assert_eq!(sleep(Some(at(500))), millis(20));
}

#[test]
fn join_reports_worker_panic() {
    let mut hub = EventHub::<ClientEvent>::new();
    let sub = hub.subscribe(SubscriberConfig::default()).unwrap();
    assert!(matches!(
        join_session(&mut hub, None),
        Err(ClientError::WorkerPanicked)
    ));
    assert_eq!(
        sub.try_recv(&mut hub),
        Err(EventSubscriptionError::Disconnected)
    );
    let finished = outcome(SessionEndReason::TestComplete, 2);
    assert_eq!(join_session(&mut hub, Some(Ok(finished))).unwrap(), finished);
}

#[test]
fn worker_panic_is_a_join_error() {
    assert_eq!(
        join_worker(None),
        Err(BlockingManagedJoinError::WorkerPanicked)
    );
}

fn config(recv_timeout: Option<Duration>) -> ClientConfig {
    ClientConfig {
        server_addr: "127.0.0.1:2112".to_owned(),
        hmac_key: Some(vec![1, 2, 3]),
        duration: None,
        interval: Duration::from_millis(10),
        dscp: 0,
        run_mode: RunMode::Normal,
        negotiation_policy: NegotiationPolicy::Strict,
        open_timeouts: vec![Duration::from_millis(200)],
        probe_timeout: Duration::from_millis(40),
        max_pending_probes: 8,
        socket_config: SocketConfig {
            ipv4_only: false,
            ipv6_only: false,
            ttl: None,
            recv_timeout,
        },
    }
}

#[test]
fn receive_timeout_is_clamped() {
    let clamped = |recv_timeout: Option<Duration>| {
        clamp_recv_timeout(config(recv_timeout))
            .socket_config
            .recv_timeout
    };
    assert_eq!(clamped(None), Some(Duration::from_millis(20)));
    assert_eq!(
        clamped(Some(Duration::from_secs(1))),
        Some(Duration::from_millis(20))
    );
    assert_eq!(
        clamped(Some(Duration::from_millis(3))),
        Some(Duration::from_millis(3))
    );
}
