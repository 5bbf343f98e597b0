use irtt_client::config::{ClientAuthConfig, ClientConfig, NegotiationPolicy, RunMode, SocketConfig};
use irtt_client::error::{ClientError, IoError, IoErrorKind};
use irtt_client::event::{ClientEvent, EventSubscriptionError, OpenOutcome, PacketMeta};
use irtt_client::group::drain::ReceiverDrainState;
use irtt_client::group::model::{
    classify_target_failure, ManagedClientGroupConfig, ManagedGroupCompletionPolicy,
    ManagedGroupEndReason, ManagedGroupEvent, ManagedGroupPacing, ManagedTargetConfig,
    ManagedTargetEndReason, ManagedTargetFailure, ManagedTargetFailureKind, ManagedTargetOutcome,
    TargetEvent, TargetId, TargetOutcomeHistory, MANAGED_GROUP_OUTCOME_HISTORY_LIMIT,
};
use irtt_client::group::opening::{
    judge_acceptance, judge_disposition, Acceptance, Disposition,
};
use irtt_client::group::pacing::{
    advance_cadence, advance_staggered_slot, divide_duration, PacingRuntime,
};
use irtt_client::group::registry::{
    scheduler_sleep, DatagramStep, ManagedClientGroup, ReceiveFailure, GROUP_FINAL_DRAIN,
};
use irtt_client::group::target::{
    instant_abs_diff, validate_datagram_length, CloseAttempt, FinishStep, OpenInspection, OpenStep,
    ProbeAttempt, ScheduleFacts, SentProbe, SessionFacts, TargetStatus,
};
use irtt_client::group::transmit::{
    advance_close, advance_probe, CloseProgress, CloseResult, CloseStage, ProbeProgress,
    ProbeResult, ProbeStage,
};
use irtt_client::group::validate::{
    prepare_group_open, validate_group_family_flags, validate_group_negotiation,
    validate_target_configs, GroupParams,
};
use irtt_client::hub::{EventHub, SubscriberConfig, SubscriberOverflow};
use irtt_client::net::SocketAddr;
use irtt_client::timing::{ClientTimestamp, Duration, Instant, SystemTime};

const TOKEN: u64 = 0x1234_5678_90ab_cdef;
const BASE: Instant = Instant {
    nanos: 1_000_000_000_000,
};
const STAMP: ClientTimestamp = ClientTimestamp {
    wall: SystemTime { nanos: 5 },
    mono: BASE,
};

const FRESH: SessionFacts = SessionFacts {
    open: false,
    peer_closed: false,
    terminal: false,
    pending_empty: true,
    has_timed_out: false,
    packets_sent: 0,
};
const OPEN: SessionFacts = SessionFacts {
    open: true,
    ..FRESH
};
const CLOSED: SessionFacts = SessionFacts {
    terminal: true,
    ..FRESH
};
const PEER_CLOSED: SessionFacts = SessionFacts {
    peer_closed: true,
    ..CLOSED
};

fn after(start: Instant, millis: u64) -> Instant {
    start.checked_add(Duration::from_millis(millis)).unwrap()
}

fn v4(port: u16) -> SocketAddr {
    SocketAddr::V4 {
        ip: 0x7f00_0001,
        port,
    }
}

fn client_config() -> ClientConfig {
    ClientConfig {
        server_addr: "127.0.0.1:1".to_owned(),
        hmac_key: None,
        duration: None,
        interval: Duration::from_millis(10),
        dscp: 0,
        run_mode: RunMode::Normal,
        negotiation_policy: NegotiationPolicy::Strict,
        open_timeouts: vec![Duration::from_millis(200)],
        probe_timeout: Duration::from_millis(80),
        max_pending_probes: 1024,
        socket_config: SocketConfig {
            ipv4_only: false,
            ipv6_only: false,
            ttl: None,
            recv_timeout: Some(Duration::from_millis(20)),
        },
    }
}

fn group_config() -> ManagedClientGroupConfig {
    ManagedClientGroupConfig {
        client: client_config(),
        pacing: ManagedGroupPacing::Staggered,
        completion: ManagedGroupCompletionPolicy::AllTargetsComplete,
    }
}

fn dynamic_config() -> ManagedClientGroupConfig {
    ManagedClientGroupConfig {
        completion: ManagedGroupCompletionPolicy::ExplicitCancellation,
        ..group_config()
    }
}

fn target(id: &str, remote: SocketAddr) -> ManagedTargetConfig {
    ManagedTargetConfig {
        id: TargetId::from(id),
        remote,
        auth: None,
    }
}

fn params() -> GroupParams {
    GroupParams {
        interval_ns: 10_000_000,
        dscp: 0,
    }
}

fn start(
    config: ManagedClientGroupConfig,
    targets: Vec<ManagedTargetConfig>,
) -> Result<ManagedClientGroup, ClientError> {
    let sessions = targets.iter().map(|_| Ok(FRESH)).collect();
    ManagedClientGroup::start(config, targets, Ok(()), Ok(params()), sessions, BASE)
}

fn two_attempts() -> ManagedClientGroupConfig {
    let mut config = group_config();
    config.client.open_timeouts = vec![Duration::from_millis(200), Duration::from_millis(200)];
    config
}

fn update(
    group: &mut ManagedClientGroup,
    targets: Vec<ManagedTargetConfig>,
) -> Result<(), ClientError> {
    let sessions = targets.iter().map(|_| Ok(FRESH)).collect();
    let removed = group.apply_target_update(targets, Ok(()), sessions, BASE)?;
    for target in removed {
        let attempt = if target.needs_close() {
            Some(sent_close())
        } else {
            None
        };
        group.finish_removed(target, ManagedTargetEndReason::Removed, attempt);
    }
    Ok(())
}

fn cancel(group: &mut ManagedClientGroup) {
    for target in group.drain_registry() {
        let attempt = if target.needs_close() {
            Some(sent_close())
        } else {
            None
        };
        group.finish_removed(target, ManagedTargetEndReason::Cancelled, attempt);
    }
}

/// One pass over the open attempts, with every request accepted by the socket.
/// Returns how many were sent.
fn drive_open_attempts(group: &mut ManagedClientGroup, now: Instant) -> usize {
    group.register_due_open_drains(now);
    let mut sent = 0;
    for index in 0..group.target_count() {
        if let OpenStep::Send { deadline } = group.step_open(index, now, now) {
            group.conclude_open_send(index, deadline, Ok(()));
            sent += 1;
        }
    }
    sent
}

fn empty_receive(group: &mut ManagedClientGroup, observed_generation: u64) -> ReceiveFailure {
    group.receive_failed(
        observed_generation,
        &IoError {
            kind: IoErrorKind::WouldBlock,
            message: "would block".to_owned(),
        },
    )
}

fn opening(group: &ManagedClientGroup, index: usize) -> (usize, Instant, Option<u64>) {
    match group.target(index).status {
        TargetStatus::Opening {
            attempt,
            next_send_at,
            awaiting_receiver_generation,
        } => (attempt, next_send_at, awaiting_receiver_generation),
        status => panic!("unexpected status: {status:?}"),
    }
}

fn started(remote: SocketAddr) -> OpenInspection {
    OpenInspection::Opened {
        outcome: OpenOutcome::Started {
            event: ClientEvent::SessionStarted {
                remote,
                token: TOKEN,
                at: STAMP,
            },
        },
        schedule: Some(ScheduleFacts {
            next_send: Some(BASE),
            finished: false,
        }),
        session: OPEN,
    }
}

fn session_closed() -> ClientEvent {
    ClientEvent::SessionClosed {
        remote: v4(2112),
        token: TOKEN,
        at: STAMP,
    }
}

fn sent_close() -> CloseAttempt {
    CloseAttempt::Sent {
        expected_bytes: 12,
        bytes: 12,
        event: session_closed(),
        session: CLOSED,
    }
}

fn reply() -> ClientEvent {
    ClientEvent::EchoReply {
        seq: 0,
        received_at: STAMP,
        rtt: Duration::from_millis(1),
        packet_meta: PacketMeta {
            traffic_class: None,
            dscp: None,
            ecn: None,
            kernel_rx_timestamp: None,
        },
    }
}

fn sent_probe(bytes: usize) -> SentProbe {
    SentProbe {
        seq: 0,
        expected_bytes: 60,
        bytes,
        scheduled_at: after(BASE, 500),
        sent_at: ClientTimestamp {
            wall: SystemTime { nanos: 5 },
            mono: after(BASE, 525),
        },
        send_call_start: after(BASE, 526),
        send_finished_at: after(BASE, 533),
        session: SessionFacts {
            pending_empty: false,
            packets_sent: 1,
            ..OPEN
        },
        schedule: ScheduleFacts {
            next_send: Some(after(BASE, 600)),
            finished: false,
        },
    }
}

/// A group of targets on consecutive ports whose sessions are open.
fn active_group(ids: &[&str]) -> ManagedClientGroup {
    let targets = ids
        .iter()
        .enumerate()
        .map(|(i, id)| target(id, v4(2112 + i as u16)))
        .collect();
    let mut group = start(group_config(), targets).unwrap();
    assert_eq!(drive_open_attempts(&mut group, BASE), ids.len());
    for (index, _) in ids.iter().enumerate() {
        let (cleanup, _) = group.conclude_inspection(index, started(v4(2112 + index as u16)));
        assert_eq!(cleanup, None);
        assert_eq!(group.target(index).status, TargetStatus::Active);
    }
    group
}

fn finished(group: &mut ManagedClientGroup) -> Vec<ManagedTargetOutcome> {
    group
        .take_outbox()
        .into_iter()
        .filter_map(|event| match event {
            ManagedGroupEvent::TargetFinished(outcome) => Some(outcome),
            ManagedGroupEvent::Client(_) => None,
        })
        .collect()
}

fn target_outcome(
    id: &str,
    remote: SocketAddr,
    end_reason: ManagedTargetEndReason,
) -> ManagedTargetOutcome {
    ManagedTargetOutcome {
        id: TargetId::from(id),
        remote,
        end_reason,
        packets_sent: 0,
        replies_received: 0,
        duplicates: 0,
        late: 0,
        warning_events: 0,
    }
}

#[test]
fn rejects_duplicate_resolved_remote_targets() {
    let err = start(
        group_config(),
        vec![target("a", v4(12345)), target("b", v4(12345))],
    )
    .unwrap_err();

    assert!(matches!(err, ClientError::InvalidConfig { .. }));
    assert!(err.to_text().contains("duplicate managed target remote"));
}

#[test]
fn rejects_mixed_address_families() {
    let err = start(
        group_config(),
        vec![
            target("a", v4(12345)),
            target(
                "b",
                SocketAddr::V6 {
                    ip: 1,
                    port: 12345,
                    flowinfo: 0,
                    scope_id: 0,
                },
            ),
        ],
    )
    .unwrap_err();

    assert!(matches!(err, ClientError::InvalidConfig { .. }));
    assert!(err.to_text().contains("one address family"));
}

#[test]
fn rejects_duplicate_target_ids() {
    let err = start(group_config(), vec![target("a", v4(1)), target("a", v4(2))]).unwrap_err();
    assert!(matches!(err, ClientError::InvalidConfig { .. }));
    assert!(err.to_text().contains("duplicate managed target id"));
}

#[test]
fn start_rejects_empty_target_set_with_documented_error() {
    let err = start(group_config(), Vec::new()).unwrap_err();

    assert!(matches!(err, ClientError::InvalidConfig { .. }));
    assert!(err
        .to_text()
        .contains("managed client group requires at least one target"));
}

#[test]
fn start_passes_on_what_was_refused_elsewhere() {
    assert!(matches!(
        ManagedClientGroup::start(
            group_config(),
            vec![target("a", v4(1))],
            Err(ClientError::NoOpenTimeouts),
            Ok(params()),
            vec![Ok(FRESH)],
            BASE
        ),
        Err(ClientError::NoOpenTimeouts)
    ));
    assert!(matches!(
        ManagedClientGroup::start(
            group_config(),
            vec![target("a", v4(1))],
            Ok(()),
            Err(ClientError::DurationOverflow),
            vec![Ok(FRESH)],
            BASE
        ),
        Err(ClientError::DurationOverflow)
    ));
    assert!(matches!(
        ManagedClientGroup::start(
            group_config(),
            vec![target("a", v4(1)), target("b", v4(2))],
            Ok(()),
            Ok(params()),
            vec![Ok(FRESH), Err(ClientError::NotOpen)],
            BASE
        ),
        Err(ClientError::NotOpen)
    ));
}

#[test]
fn family_flags_must_agree_with_the_targets() {
    let v6 = SocketAddr::V6 {
        ip: 1,
        port: 1,
        flowinfo: 0,
        scope_id: 0,
    };
    let mut config = client_config();
    assert!(validate_group_family_flags(&config, v6).is_ok());
    config.socket_config.ipv4_only = true;
    assert!(validate_group_family_flags(&config, v4(1)).is_ok());
    assert!(matches!(
        validate_group_family_flags(&config, v6),
        Err(ClientError::InvalidConfig { .. })
    ));
    config.socket_config.ipv4_only = false;
    config.socket_config.ipv6_only = true;
    assert!(validate_group_family_flags(&config, v6).is_ok());
    assert!(matches!(
        validate_group_family_flags(&config, v4(1)),
        Err(ClientError::InvalidConfig { .. })
    ));
    assert_eq!(
        validate_target_configs(&vec![target("a", v4(1))], None).unwrap(),
        v4(1)
    );
    assert!(validate_target_configs(&vec![target("a", v4(1))], Some(v6)).is_err());
}

#[test]
fn receiver_peer_close_wins_send_and_removal_races() {
    let mut group = active_group(&["peer"]);
    group.conclude_probe(
        0,
        ProbeAttempt::Sent {
            probe: sent_probe(60),
        },
    );
    let peer_closed = SessionFacts {
        packets_sent: 1,
        ..PEER_CLOSED
    };
    assert!(group.conclude_packet(0, Ok(vec![reply(), session_closed()]), peer_closed));
    assert_eq!(group.target(0).status, TargetStatus::Finished);
    assert!(group.target(0).schedule.is_none());
    assert_eq!(
        group.target(0).final_reason,
        Some(ManagedTargetEndReason::PeerClosed)
    );
    assert_eq!(group.peer_closed_target_count(), 0);

    group.conclude_probe(0, ProbeAttempt::Skipped);
    assert_eq!(
        group.target(0).final_reason,
        Some(ManagedTargetEndReason::PeerClosed)
    );
    assert_eq!(group.peer_closed_target_count(), 0);

    update(&mut group, Vec::new()).unwrap();
    assert_eq!(group.peer_closed_target_count(), 1);
    group.collect_finished_targets();
    assert_eq!(group.peer_closed_target_count(), 1);

    let terminal_sequence: Vec<&str> = group
        .take_outbox()
        .iter()
        .filter_map(|event| match event {
            ManagedGroupEvent::Client(TargetEvent {
                event: ClientEvent::EchoReply { .. },
                ..
            }) => Some("reply"),
            ManagedGroupEvent::Client(TargetEvent {
                event: ClientEvent::SessionClosed { .. },
                ..
            }) => Some("closed"),
            ManagedGroupEvent::TargetFinished(_) => Some("finished"),
            _ => None,
        })
        .collect();
    assert_eq!(terminal_sequence, ["reply", "closed", "finished"]);

    let outcome = group.take_outcome(ManagedGroupEndReason::AllTargetsComplete);
    assert_eq!(outcome.total_target_outcomes, 1);
    assert_eq!(outcome.successful_target_outcomes, 1);
    assert_eq!(outcome.peer_closed_target_outcomes, 1);
    assert_eq!(outcome.failed_target_outcomes, 0);
    assert_eq!(
        outcome.targets[0].end_reason,
        ManagedTargetEndReason::PeerClosed
    );
    assert_eq!(outcome.targets[0].packets_sent, 1);
    assert_eq!(outcome.targets[0].replies_received, 1);
}

#[test]
fn managed_close_success_commits_clears_schedule_and_publishes_once() {
    let mut group = active_group(&["peer"]);
    group.take_outbox();
    group.close_target(
        0,
        ManagedTargetEndReason::TestComplete,
        Some(sent_close()),
    );
    assert!(!group.target(0).session.open);
    assert!(group.target(0).schedule.is_none());
    assert_eq!(
        group.target(0).final_reason,
        Some(ManagedTargetEndReason::TestComplete)
    );
    assert_eq!(
        group.take_outbox(),
        vec![ManagedGroupEvent::Client(TargetEvent {
            target: TargetId::from("peer"),
            event: session_closed(),
        })]
    );
}

#[test]
fn managed_removal_and_cancellation_each_send_one_close() {
    for reason in [
        ManagedTargetEndReason::Removed,
        ManagedTargetEndReason::Cancelled,
    ] {
        let mut group = active_group(&["peer"]);
        assert!(group.target(0).needs_close());
        group.close_target(0, reason.clone(), Some(sent_close()));
        assert_eq!(group.target(0).final_reason, Some(reason));
        assert!(!group.target(0).session.open);
        assert!(group.target(0).schedule.is_none());
        assert!(!group.target(0).needs_close());
    }
}

#[test]
fn managed_close_send_failure_preserves_machine_and_requested_reason_is_not_recorded() {
    let mut group = active_group(&["peer"]);
    group.take_outbox();
    group.close_target(
        0,
        ManagedTargetEndReason::Removed,
        Some(CloseAttempt::SendFailed {
            error: IoError {
                kind: IoErrorKind::Other,
                message: "boom".to_owned(),
            },
        }),
    );
    assert!(group.target(0).session.open);
    assert!(group.target(0).schedule.is_some());
    let failure = group
        .target(0)
        .final_reason
        .as_ref()
        .and_then(ManagedTargetEndReason::failure)
        .unwrap();
    assert_eq!(failure.kind, ManagedTargetFailureKind::Socket);
    assert!(group.take_outbox().is_empty());
}

#[test]
fn managed_short_close_commits_and_clears_schedule_before_failure() {
    let mut group = active_group(&["peer"]);
    group.take_outbox();
    group.close_target(
        0,
        ManagedTargetEndReason::Cancelled,
        Some(CloseAttempt::Sent {
            expected_bytes: 12,
            bytes: 11,
            event: session_closed(),
            session: CLOSED,
        }),
    );
    assert!(!group.target(0).session.open);
    assert!(group.target(0).schedule.is_none());
    let failure = group
        .target(0)
        .final_reason
        .as_ref()
        .and_then(ManagedTargetEndReason::failure)
        .expect("short close must use managed failure policy");
    assert_eq!(failure.kind, ManagedTargetFailureKind::RuntimeProtocol);
    assert!(failure.message.contains("UDP accepted"));
    assert!(group.take_outbox().is_empty());
}

#[test]
fn managed_close_reservation_failure_precedes_send() {
    let mut group = active_group(&["peer"]);
    let source = Vec::<u8>::new().try_reserve(usize::MAX).unwrap_err();
    group.close_target(
        0,
        ManagedTargetEndReason::TestComplete,
        Some(CloseAttempt::ReserveFailed { source }),
    );
    assert!(group.target(0).session.open);
    assert!(group.target(0).schedule.is_some());
    assert!(matches!(
        group.target(0).final_reason,
        Some(ManagedTargetEndReason::Failed(_))
    ));
}

#[test]
fn managed_peer_close_affects_only_the_matching_target() {
    let mut group = active_group(&["peer", "other"]);
    assert_eq!(
        group.datagram_step(v4(2112)),
        DatagramStep::Process { index: 0 }
    );
    assert!(group.conclude_packet(0, Ok(vec![session_closed()]), PEER_CLOSED));
    assert!(group.target(0).session.peer_closed);
    assert!(group.target(0).schedule.is_none());
    assert_eq!(
        group.target(0).final_reason,
        Some(ManagedTargetEndReason::PeerClosed)
    );

    assert!(group.target(1).session.open);
    assert_eq!(group.target(1).status, TargetStatus::Active);
    assert!(group.target(1).schedule.is_some());
    assert_eq!(group.target(1).final_reason, None);
}

#[test]
fn managed_non_active_states_do_not_attempt_local_close() {
    let mut group = start(group_config(), vec![target("opening", v4(2112))]).unwrap();
    assert!(!group.target(0).needs_close());
    group.close_target(0, ManagedTargetEndReason::Removed, None);
    assert_eq!(
        group.target(0).final_reason,
        Some(ManagedTargetEndReason::Removed)
    );

    let mut group = start(group_config(), vec![target("no-test", v4(2112))]).unwrap();
    drive_open_attempts(&mut group, BASE);
    group.conclude_inspection(0, no_test_completed());
    assert!(!group.target(0).needs_close());
    group.close_target(0, ManagedTargetEndReason::Cancelled, None);
    assert_eq!(
        group.target(0).final_reason,
        Some(ManagedTargetEndReason::NoTestComplete)
    );
}

fn no_test_completed() -> OpenInspection {
    OpenInspection::Opened {
        outcome: OpenOutcome::NoTestCompleted {
            event: ClientEvent::NoTestCompleted {
                remote: v4(2112),
                at: STAMP,
            },
        },
        schedule: None,
        session: CLOSED,
    }
}

#[test]
fn authoritative_status_counts_only_peer_closed_outcomes() {
    let mut group = start(group_config(), vec![target("active", v4(2112))]).unwrap();
    let failure = ManagedTargetFailure {
        kind: ManagedTargetFailureKind::RuntimeProtocol,
        message: "test failure".to_owned(),
    };
    for (index, reason) in [
        ManagedTargetEndReason::TestComplete,
        ManagedTargetEndReason::NoTestComplete,
        ManagedTargetEndReason::Removed,
        ManagedTargetEndReason::Cancelled,
        ManagedTargetEndReason::OpenFailed(failure.clone()),
        ManagedTargetEndReason::Failed(failure),
    ]
    .into_iter()
    .enumerate()
    {
        group.record_target_outcome(target_outcome(
            &format!("non-peer-{index}"),
            v4(2112),
            reason,
        ));
        assert_eq!(group.peer_closed_target_count(), 0);
    }
    group.record_target_outcome(target_outcome(
        "peer",
        v4(2112),
        ManagedTargetEndReason::PeerClosed,
    ));
    assert_eq!(group.peer_closed_target_count(), 1);

    let outcome = group.take_outcome(ManagedGroupEndReason::AllTargetsComplete);
    assert_eq!(outcome.total_target_outcomes, 7);
    assert_eq!(outcome.peer_closed_target_outcomes, 1);
}

#[test]
fn drop_oldest_can_evict_peer_close_event_without_status_loss() {
    let mut group = active_group(&["peer", "healthy"]);
    group.take_outbox();
    let mut hub = EventHub::new();
    let subscription = hub
        .subscribe(SubscriberConfig {
            capacity: 1,
            overflow: SubscriberOverflow::DropOldest,
        })
        .unwrap();

    assert!(group.conclude_packet(0, Ok(vec![]), PEER_CLOSED));
    group.collect_finished_targets();
    for event in group.take_outbox() {
        hub.publish(event);
    }
    assert_eq!(group.peer_closed_target_count(), 1);
    assert_eq!(group.target(0).status, TargetStatus::Active);

    hub.publish(ManagedGroupEvent::Client(TargetEvent {
        target: TargetId::from("healthy"),
        event: ClientEvent::EchoLoss {
            seq: 7,
            sent_at: STAMP,
            timeout_at: BASE,
        },
    }));

    assert_eq!(subscription.dropped_events(&hub), 1);
    assert!(matches!(
        subscription.try_recv(&mut hub),
        Ok(Some(ManagedGroupEvent::Client(TargetEvent {
            target,
            event: ClientEvent::EchoLoss { seq: 7, .. },
        }))) if target.as_str() == "healthy"
    ));
    assert_eq!(subscription.try_recv(&mut hub), Ok(None));
    assert_eq!(group.peer_closed_target_count(), 1);
    assert_eq!(group.target_count(), 1);
    hub.disconnect_all();
    assert_eq!(
        subscription.try_recv(&mut hub),
        Err(EventSubscriptionError::Disconnected)
    );
}

#[test]
fn receiver_non_close_reply_leaves_target_active() {
    let mut group = active_group(&["peer"]);
    group.take_outbox();
    assert!(!group.conclude_packet(0, Ok(vec![reply()]), OPEN));
    assert_eq!(group.target(0).status, TargetStatus::Active);
    assert_eq!(group.target(0).final_reason, None);
    assert_eq!(group.target(0).counters.replies_received, 1);
    assert!(!group.target(0).session.peer_closed);
    assert_eq!(
        group.take_outbox(),
        vec![ManagedGroupEvent::Client(TargetEvent {
            target: TargetId::from("peer"),
            event: reply(),
        })]
    );
}

#[test]
fn peer_close_preserves_group_outcome_counters_and_provenance() {
    let mut group = active_group(&["peer"]);
    group.conclude_probe(
        0,
        ProbeAttempt::Sent {
            probe: sent_probe(60),
        },
    );
    group.conclude_packet(
        0,
        Ok(vec![reply(), session_closed()]),
        SessionFacts {
            packets_sent: 1,
            ..PEER_CLOSED
        },
    );
    group.collect_finished_targets();
    assert!(group.group_should_complete());
    let outcome = group.take_outcome(ManagedGroupEndReason::AllTargetsComplete);

    assert_eq!(
        outcome.end_reason,
        ManagedGroupEndReason::AllTargetsComplete
    );
    assert_eq!(outcome.targets.len(), 1);
    let target = &outcome.targets[0];
    assert_eq!(target.end_reason, ManagedTargetEndReason::PeerClosed);
    assert!(target.is_success());
    assert_eq!(target.packets_sent, 1);
    assert_eq!(target.replies_received, 1);
    assert_eq!(outcome.total_target_outcomes, 1);
    assert_eq!(outcome.successful_target_outcomes, 1);
    assert_eq!(outcome.peer_closed_target_outcomes, 1);
    assert_eq!(outcome.failed_target_outcomes, 0);
}

#[test]
fn peer_close_aggregate_survives_bounded_recent_history() {
    let mut history = TargetOutcomeHistory::new();
    history.record(ManagedTargetOutcome {
        packets_sent: 1,
        replies_received: 1,
        ..target_outcome("peer", v4(2112), ManagedTargetEndReason::PeerClosed)
    });
    for index in 0..MANAGED_GROUP_OUTCOME_HISTORY_LIMIT {
        history.record(target_outcome(
            &format!("removed-{index}"),
            v4(2112),
            ManagedTargetEndReason::Removed,
        ));
    }

    let outcome = history.into_group_outcome(ManagedGroupEndReason::AllTargetsComplete);
    let expected_total = u64::try_from(MANAGED_GROUP_OUTCOME_HISTORY_LIMIT + 1).unwrap();
    assert_eq!(outcome.total_target_outcomes, expected_total);
    assert_eq!(outcome.successful_target_outcomes, 1);
    assert_eq!(outcome.peer_closed_target_outcomes, 1);
    assert_eq!(outcome.failed_target_outcomes, 0);
    assert_eq!(outcome.targets.len(), MANAGED_GROUP_OUTCOME_HISTORY_LIMIT);
    assert_eq!(outcome.discarded_target_outcomes, 1);
    assert!(outcome
        .targets
        .iter()
        .all(|target| target.end_reason == ManagedTargetEndReason::Removed));
}

#[test]
fn mixed_peer_close_and_open_failure_publish_terminal_outcomes_and_disconnect() {
    let mut group = start(
        group_config(),
        vec![target("success", v4(2112)), target("failure", v4(2113))],
    )
    .unwrap();
    drive_open_attempts(&mut group, BASE);
    group.conclude_inspection(0, started(v4(2112)));
    group.conclude_inspection(
        1,
        OpenInspection::Rejected {
            error: ClientError::ServerRejected,
            cleanup_close: None,
        },
    );
    group.conclude_packet(0, Ok(vec![reply(), session_closed()]), PEER_CLOSED);
    group.collect_finished_targets();
    let terminal = finished(&mut group);
    assert_eq!(terminal.len(), 2);
    assert_eq!(terminal[0].id.as_str(), "success");
    assert_eq!(terminal[0].end_reason, ManagedTargetEndReason::PeerClosed);
    assert_eq!(terminal[1].id.as_str(), "failure");
    assert!(matches!(
        &terminal[1].end_reason,
        ManagedTargetEndReason::OpenFailed(failure)
            if failure.kind == ManagedTargetFailureKind::OpeningProtocol
    ));
    assert!(group.group_should_complete());
    let outcome = group.take_outcome(ManagedGroupEndReason::AllTargetsComplete);
    assert_eq!(outcome.targets.len(), 2);
    assert_eq!(outcome.total_target_outcomes, 2);
    assert_eq!(outcome.successful_target_outcomes, 1);
    assert_eq!(outcome.peer_closed_target_outcomes, 1);
    assert_eq!(outcome.failed_target_outcomes, 1);
}

#[test]
fn all_open_failures_publish_terminal_outcomes_and_disconnect() {
    let mut group = start(
        group_config(),
        vec![target("a", v4(1)), target("b", v4(2))],
    )
    .unwrap();
    drive_open_attempts(&mut group, BASE);
    for index in 0..2 {
        group.conclude_inspection(
            index,
            OpenInspection::Rejected {
                error: ClientError::ServerRejected,
                cleanup_close: None,
            },
        );
    }
    group.collect_finished_targets();
    assert_eq!(finished(&mut group).len(), 2);
    assert!(group.group_should_complete());
    let outcome = group.take_outcome(ManagedGroupEndReason::AllTargetsComplete);
    assert_eq!(outcome.targets.len(), 2);
    assert!(outcome
        .targets
        .iter()
        .all(|target| target.end_reason.failure().is_some()));
}

#[test]
fn bad_open_packet_followed_by_valid_reply_succeeds_without_retry() {
    let mut group = start(group_config(), vec![target("peer", v4(2112))]).unwrap();
    assert_eq!(drive_open_attempts(&mut group, BASE), 1);
    assert_eq!(
        group.datagram_step(v4(2112)),
        DatagramStep::Inspect { index: 0 }
    );
    group.conclude_inspection(0, OpenInspection::Ignored);
    assert_eq!(drive_open_attempts(&mut group, BASE), 0);
    group.conclude_inspection(0, no_test_completed());
    group.collect_finished_targets();
    let outcome = group.take_outcome(ManagedGroupEndReason::AllTargetsComplete);
    assert_eq!(outcome.successful_target_outcomes, 1);
}

#[test]
fn trusted_group_incompatibility_sends_cleanup_and_fails_without_retry() {
    let mut group = start(group_config(), vec![target("peer", v4(2112))]).unwrap();
    assert_eq!(drive_open_attempts(&mut group, BASE), 1);
    let error = prepare_group_open(
        group.requested(),
        Some(GroupParams {
            interval_ns: 20_000_000,
            ..params()
        }),
        Ok(ScheduleFacts {
            next_send: Some(BASE),
            finished: false,
        }),
    )
    .unwrap_err();
    let (cleanup, _) = group.conclude_inspection(
        0,
        OpenInspection::Rejected {
            error,
            cleanup_close: Some(vec![1, 2, 3]),
        },
    );
    assert_eq!(cleanup, Some(vec![1, 2, 3]));
    assert_eq!(drive_open_attempts(&mut group, after(BASE, 1_000)), 0);
    group.collect_finished_targets();
    let outcome = group.take_outcome(ManagedGroupEndReason::AllTargetsComplete);
    assert_eq!(outcome.failed_target_outcomes, 1);
    assert!(matches!(
        outcome.targets[0].end_reason,
        ManagedTargetEndReason::OpenFailed(ManagedTargetFailure {
            kind: ManagedTargetFailureKind::OpeningProtocol,
            ..
        })
    ));
}

#[test]
fn loose_no_test_group_skips_active_interval_and_dscp_policy() {
    assert_eq!(
        prepare_group_open(params(), None, Err(ClientError::DurationOverflow)).unwrap(),
        None
    );
    let mut group = start(group_config(), vec![target("peer", v4(2112))]).unwrap();
    drive_open_attempts(&mut group, BASE);
    group.conclude_inspection(0, no_test_completed());
    assert_eq!(group.target(0).status, TargetStatus::Finished);
    assert!(group.target(0).schedule.is_none());
    assert_eq!(
        group.target(0).final_reason,
        Some(ManagedTargetEndReason::NoTestComplete)
    );
}

#[test]
fn normal_and_strict_sessions_preserve_group_negotiation_checks() {
    assert!(validate_group_negotiation(params(), params()).is_ok());
    let changed_interval = GroupParams {
        interval_ns: params().interval_ns + 1,
        ..params()
    };
    let changed_dscp = GroupParams { dscp: 1, ..params() };
    for negotiated in [changed_interval, changed_dscp] {
        assert!(matches!(
            validate_group_negotiation(params(), negotiated),
            Err(ClientError::NegotiationRejected { .. })
        ));
    }
    assert!(matches!(
        prepare_group_open(params(), Some(params()), Err(ClientError::DurationOverflow)),
        Err(ClientError::DurationOverflow)
    ));
}

#[test]
fn group_open_deadline_overflow_fails_before_send() {
    let mut config = group_config();
    config.client.open_timeouts = vec![Duration::max_value()];
    let mut group = start(config, vec![target("peer", v4(2112))]).unwrap();
    assert_eq!(drive_open_attempts(&mut group, BASE), 0);
    group.collect_finished_targets();
    let outcome = group.take_outcome(ManagedGroupEndReason::AllTargetsComplete);
    assert_eq!(outcome.failed_target_outcomes, 1);
    let failure = outcome.targets[0].end_reason.failure().unwrap();
    assert!(failure.message.contains("duration"));
}

#[test]
fn receiver_drain_completion_is_monotonic_and_wakes_waiting_scheduler() {
    let mut drain = ReceiverDrainState::new();
    let generation = drain.request_or_join().unwrap();
    assert!(drain.complete_observed(generation));
    assert_eq!(drain.completed, generation);
    assert!(!drain.complete_observed(0));
    assert!(!drain.complete_observed(generation));
    assert_eq!(drain.completed, generation);
}

#[test]
fn receiver_drain_generations_can_run_out() {
    let mut drain = ReceiverDrainState {
        requested: u64::MAX,
        completed: u64::MAX,
    };
    assert!(matches!(
        drain.request_or_join(),
        Err(ClientError::CounterOverflow {
            counter: "receiver_drain_generation"
        })
    ));
}

#[test]
fn expired_attempt_waits_for_receiver_drain_before_retrying() {
    let mut group = start(two_attempts(), vec![target("peer", v4(2112))]).unwrap();
    assert_eq!(drive_open_attempts(&mut group, BASE), 1);
    let (attempt, deadline, _) = opening(&group, 0);
    assert_eq!(attempt, 1);
    assert_eq!(deadline, after(BASE, 200));

    assert_eq!(drive_open_attempts(&mut group, deadline), 0);
    let (attempt, _, waiting) = opening(&group, 0);
    assert_eq!(attempt, 1);
    let generation = waiting.unwrap();

    assert_eq!(
        empty_receive(&mut group, generation),
        ReceiveFailure::Empty { advanced: true }
    );
    assert_eq!(drive_open_attempts(&mut group, deadline), 1);
    let (attempt, _, waiting) = opening(&group, 0);
    assert_eq!(attempt, 2);
    assert_eq!(waiting, None);
}

#[test]
fn queued_reply_dequeued_after_deadline_opens_without_retry() {
    let mut group = start(group_config(), vec![target("peer", v4(2112))]).unwrap();
    drive_open_attempts(&mut group, BASE);
    let (_, deadline, _) = opening(&group, 0);
    drive_open_attempts(&mut group, deadline);
    assert!(opening(&group, 0).2.is_some());

    assert_eq!(
        group.datagram_step(v4(2112)),
        DatagramStep::Inspect { index: 0 }
    );
    group.conclude_inspection(0, started(v4(2112)));
    assert_eq!(group.target(0).status, TargetStatus::Active);
    assert!(group.target(0).final_reason.is_none());
    assert_eq!(drive_open_attempts(&mut group, deadline), 0);
}

#[test]
fn generation_requested_after_receive_snapshot_needs_later_empty_boundary() {
    let mut drain = ReceiverDrainState::new();
    let observed_before_request = drain.requested;
    let generation = drain.request_or_join().unwrap();
    drain.complete_observed(observed_before_request);
    assert!(drain.completed < generation);

    let observed_after_request = drain.requested;
    drain.complete_observed(observed_after_request);
    assert_eq!(drain.completed, generation);
}

#[test]
fn malformed_packet_requires_empty_receive_to_complete_drain() {
    let mut group = start(group_config(), vec![target("peer", v4(2112))]).unwrap();
    drive_open_attempts(&mut group, BASE);
    let (_, deadline, _) = opening(&group, 0);
    drive_open_attempts(&mut group, deadline);
    let generation = opening(&group, 0).2.unwrap();

    group.conclude_inspection(0, OpenInspection::Ignored);
    assert!(group.drain().completed < generation);

    let observed = group.drain().requested;
    assert_eq!(
        empty_receive(&mut group, observed),
        ReceiveFailure::Empty { advanced: true }
    );
    assert_eq!(group.drain().completed, generation);
}

#[test]
fn opening_reply_before_first_request_is_ignored() {
    let group = start(group_config(), vec![target("peer", v4(2112))]).unwrap();
    assert_eq!(group.datagram_step(v4(2112)), DatagramStep::Ignore);
    assert_eq!(group.datagram_step(v4(9)), DatagramStep::Ignore);
    assert_eq!(opening(&group, 0), (0, BASE, None));
}

#[test]
fn post_drain_reply_cannot_open_expired_attempt() {
    let mut group = start(two_attempts(), vec![target("peer", v4(2112))]).unwrap();
    drive_open_attempts(&mut group, BASE);
    let (_, deadline, _) = opening(&group, 0);
    drive_open_attempts(&mut group, deadline);
    let generation = opening(&group, 0).2.unwrap();
    empty_receive(&mut group, generation);

    assert_eq!(group.datagram_step(v4(2112)), DatagramStep::Ignore);
    assert_eq!(opening(&group, 0), (1, deadline, Some(generation)));

    assert_eq!(drive_open_attempts(&mut group, deadline), 1);
    let (attempt, _, waiting) = opening(&group, 0);
    assert_eq!((attempt, waiting), (2, None));
}

#[test]
fn multiple_expired_targets_share_one_receiver_drain_generation() {
    let mut group = start(
        two_attempts(),
        vec![target("first", v4(1)), target("second", v4(2))],
    )
    .unwrap();
    assert_eq!(drive_open_attempts(&mut group, BASE), 2);
    let (_, deadline, _) = opening(&group, 0);
    assert_eq!(drive_open_attempts(&mut group, deadline), 0);
    let generation = opening(&group, 0).2.unwrap();
    assert_eq!(opening(&group, 1).2, Some(generation));

    empty_receive(&mut group, generation);
    assert_eq!(drive_open_attempts(&mut group, deadline), 2);
    for index in 0..2 {
        let (attempt, _, waiting) = opening(&group, index);
        assert_eq!((attempt, waiting), (2, None));
    }
    assert_eq!(drive_open_attempts(&mut group, deadline), 0);
}

#[test]
fn removal_and_cancellation_release_targets_waiting_for_receiver_drain() {
    let mut group = start(
        group_config(),
        vec![target("first", v4(1)), target("second", v4(2))],
    )
    .unwrap();
    drive_open_attempts(&mut group, BASE);
    let (_, deadline, _) = opening(&group, 0);
    drive_open_attempts(&mut group, deadline);
    assert!(opening(&group, 0).2.is_some());
    assert!(opening(&group, 1).2.is_some());

    update(&mut group, vec![target("first", v4(1))]).unwrap();
    cancel(&mut group);
    let outcome = group.take_outcome(ManagedGroupEndReason::Cancelled);
    assert_eq!(outcome.total_target_outcomes, 2);
    assert_eq!(outcome.targets[0].id.as_str(), "second");
    assert_eq!(
        outcome.targets[0].end_reason,
        ManagedTargetEndReason::Removed
    );
    assert_eq!(outcome.targets[1].id.as_str(), "first");
    assert_eq!(
        outcome.targets[1].end_reason,
        ManagedTargetEndReason::Cancelled
    );
}

#[test]
fn final_open_timeout_waits_until_receiver_drain_completes() {
    let mut group = start(group_config(), vec![target("peer", v4(2112))]).unwrap();
    drive_open_attempts(&mut group, BASE);
    let (_, deadline, _) = opening(&group, 0);
    drive_open_attempts(&mut group, deadline);
    let generation = opening(&group, 0).2.unwrap();
    assert!(group.target(0).final_reason.is_none());

    empty_receive(&mut group, generation);
    assert_eq!(drive_open_attempts(&mut group, deadline), 0);
    assert_eq!(group.target(0).status, TargetStatus::Finished);
    let reason = group.target(0).final_reason.clone().unwrap();
    assert!(matches!(
        reason,
        ManagedTargetEndReason::OpenFailed(ManagedTargetFailure {
            kind: ManagedTargetFailureKind::OpeningTimeout,
            ..
        })
    ));

    drive_open_attempts(&mut group, deadline);
    assert_eq!(group.target(0).final_reason, Some(reason));
}

#[test]
fn group_probe_separates_permission_committed_send_and_send_call_timing() {
    let mut group = active_group(&["peer"]);
    group.take_outbox();
    group.conclude_probe(
        0,
        ProbeAttempt::Sent {
            probe: sent_probe(60),
        },
    );
    let events = group.take_outbox();
    assert!(matches!(
        events.as_slice(),
        [ManagedGroupEvent::Client(TargetEvent {
            event: ClientEvent::EchoSent {
                seq: 0,
                scheduled_at,
                sent_at,
                bytes: 60,
                send_call,
                timer_error,
                ..
            },
            ..
        })] if *scheduled_at == after(BASE, 500)
            && sent_at.mono == after(BASE, 525)
            && *send_call == Duration::from_millis(7)
            && *timer_error == Duration::from_millis(25)
    ));
    assert_eq!(
        group.target(0).next_send_deadline(),
        Some(after(BASE, 600))
    );
    assert_eq!(group.target(0).session.packets_sent, 1);
}

#[test]
fn group_failed_probe_send_preserves_machine_and_schedule() {
    let mut group = active_group(&["peer"]);
    group.take_outbox();
    group.conclude_probe(
        0,
        ProbeAttempt::Failed {
            error: ClientError::Socket(IoError {
                kind: IoErrorKind::Other,
                message: "boom".to_owned(),
            }),
        },
    );
    assert_eq!(group.target(0).session.packets_sent, 0);
    assert!(group.take_outbox().is_empty());
    let failure = group
        .target(0)
        .final_reason
        .as_ref()
        .and_then(ManagedTargetEndReason::failure)
        .unwrap();
    assert_eq!(failure.kind, ManagedTargetFailureKind::Socket);
}

#[test]
fn group_short_probe_commits_before_presentation_length_error() {
    assert!(matches!(
        sent_probe(59).report(v4(2112)),
        Err(ClientError::DatagramLengthMismatch {
            expected: 60,
            actual: 59
        })
    ));
    let mut group = active_group(&["peer"]);
    group.take_outbox();
    group.conclude_probe(
        0,
        ProbeAttempt::Sent {
            probe: sent_probe(59),
        },
    );
    assert_eq!(group.target(0).session.packets_sent, 1);
    assert!(group.take_outbox().is_empty());
    assert!(matches!(
        group.target(0).final_reason,
        Some(ManagedTargetEndReason::Failed(_))
    ));
}

#[test]
fn silent_opening_peer_times_out_all_attempts_and_publishes_once() {
    let mut group = start(two_attempts(), vec![target("silent", v4(2112))]).unwrap();
    let mut sent = 0;
    let mut now = BASE;
    for _ in 0..10 {
        sent += drive_open_attempts(&mut group, now);
        let observed = group.drain().requested;
        empty_receive(&mut group, observed);
        now = after(now, 100);
    }
    assert_eq!(sent, 2);
    group.collect_finished_targets();
    group.collect_finished_targets();
    let terminal = finished(&mut group);
    assert_eq!(terminal.len(), 1);
    let failure = match &terminal[0].end_reason {
        ManagedTargetEndReason::OpenFailed(failure) => failure,
        reason => panic!("expected OpenFailed, got {reason:?}"),
    };
    assert_eq!(failure.kind, ManagedTargetFailureKind::OpeningTimeout);
    assert!(failure.message.contains("all open requests timed out"));
    let outcome = group.take_outcome(ManagedGroupEndReason::AllTargetsComplete);
    assert_eq!(outcome.total_target_outcomes, 1);
    assert_eq!(outcome.failed_target_outcomes, 1);
    assert_eq!(outcome.targets, terminal);
}

#[test]
fn runtime_failure_publishes_terminal_outcome() {
    let mut group = active_group(&["runtime"]);
    group.conclude_probe(
        0,
        ProbeAttempt::Failed {
            error: ClientError::PendingLimitExceeded { limit: 1 },
        },
    );
    group.collect_finished_targets();
    let terminal = finished(&mut group);
    let failure = terminal[0]
        .end_reason
        .failure()
        .expect("runtime target should fail");
    assert_eq!(failure.kind, ManagedTargetFailureKind::RuntimeProtocol);
    assert!(failure.message.contains("pending probe limit"));
    let outcome = group.take_outcome(ManagedGroupEndReason::AllTargetsComplete);
    assert_eq!(outcome.targets, terminal);
}

#[test]
fn no_test_event_precedes_terminal_outcome() {
    let mut group = start(group_config(), vec![target("no-test", v4(2112))]).unwrap();
    drive_open_attempts(&mut group, BASE);
    group.conclude_inspection(0, no_test_completed());
    group.collect_finished_targets();
    let events = group.take_outbox();
    assert!(matches!(
        events.as_slice(),
        [
            ManagedGroupEvent::Client(TargetEvent {
                event: ClientEvent::NoTestCompleted { .. },
                ..
            }),
            ManagedGroupEvent::TargetFinished(ManagedTargetOutcome {
                end_reason: ManagedTargetEndReason::NoTestComplete,
                ..
            })
        ]
    ));
    assert_eq!(events[0].target().as_str(), "no-test");
    assert_eq!(events[1].target().as_str(), "no-test");
}

#[test]
fn delayed_burst_pacing_emits_one_current_slot_and_advances_to_future() {
    let interval = Duration::from_millis(10);
    let first_slot = BASE;
    let delayed_now = after(first_slot, 45);
    let mut pacing = PacingRuntime::new(ManagedGroupPacing::Burst);
    pacing.next_burst_at = Some(first_slot);

    let scheduled_at = pacing.next_burst(interval, delayed_now).unwrap().unwrap();

    assert_eq!(scheduled_at, after(first_slot, 40));
    assert_eq!(pacing.next_wakeup(), Some(after(first_slot, 50)));
    assert!(pacing.next_wakeup().unwrap() > delayed_now);
}

#[test]
fn delayed_staggered_pacing_skips_historical_slots() {
    let first_slot = BASE;
    let delayed_now = after(first_slot, 35);

    let (scheduled_at, next_slot_at, target_index) =
        advance_staggered_slot(first_slot, Duration::from_millis(30), 3, 0, delayed_now).unwrap();

    assert_eq!(scheduled_at, after(first_slot, 30));
    assert_eq!(next_slot_at, after(first_slot, 40));
    assert_eq!(target_index, 0);
    assert!(next_slot_at > delayed_now);
}

#[test]
fn scheduler_deadline_wakes_without_control_message() {
    let group = start(group_config(), vec![target("peer", v4(2112))]).unwrap();
    assert_eq!(group.scheduler_deadline(None), Some(BASE));
    let now = after(BASE, 0);
    assert_eq!(
        scheduler_sleep(after(BASE, 10), now),
        Duration::from_millis(10)
    );
    assert_eq!(
        scheduler_sleep(after(BASE, 500), now),
        Duration::from_millis(20)
    );
    let idle = active_group(&["peer"]);
    assert_eq!(idle.scheduler_deadline(None), None);
    assert_eq!(idle.scheduler_deadline(Some(BASE)), Some(BASE));
}

#[test]
fn staggered_pacing_assigns_distinct_target_slots() {
    let interval = Duration::from_millis(80);
    let first_slot = BASE;

    let (first_scheduled_at, second_slot, first_target) =
        advance_staggered_slot(first_slot, interval, 2, 0, first_slot).unwrap();
    let (second_scheduled_at, third_slot, second_target) =
        advance_staggered_slot(second_slot, interval, 2, 1, second_slot).unwrap();

    assert_eq!(first_scheduled_at, first_slot);
    assert_eq!(second_slot, after(first_slot, 40));
    assert_eq!(first_target, 0);
    assert_eq!(second_scheduled_at, second_slot);
    assert_eq!(third_slot, first_slot.checked_add(interval).unwrap());
    assert_eq!(second_target, 1);
    assert_ne!(first_scheduled_at, second_scheduled_at);
}

#[test]
fn burst_pacing_uses_one_shared_target_deadline() {
    let interval = Duration::from_millis(80);
    let first_burst = BASE;
    let mut pacing = PacingRuntime::new(ManagedGroupPacing::Burst);
    pacing.next_burst_at = Some(first_burst);

    let shared_deadline = pacing.next_burst(interval, first_burst).unwrap().unwrap();

    assert_eq!(shared_deadline, first_burst);
    assert_eq!(pacing.next_wakeup(), Some(after(first_burst, 80)));

    let next_deadline = pacing
        .next_burst(interval, after(first_burst, 80))
        .unwrap()
        .unwrap();
    assert_eq!(next_deadline, after(first_burst, 80));
    assert_eq!(pacing.next_wakeup(), Some(after(first_burst, 160)));
}

#[test]
fn update_targets_removes_and_adds_without_restarting_unchanged_target() {
    let mut group = active_group(&["a", "b"]);
    group.take_outbox();
    update(&mut group, vec![target("a", v4(2112)), target("c", v4(3000))]).unwrap();

    assert_eq!(group.target_count(), 2);
    assert_eq!(group.target(0).id.as_str(), "a");
    assert_eq!(group.target(0).status, TargetStatus::Active);
    assert_eq!(group.target(1).id.as_str(), "c");
    assert_eq!(opening(&group, 1).0, 0);
    let removed = finished(&mut group);
    assert_eq!(removed.len(), 1);
    assert_eq!(removed[0].id.as_str(), "b");
    assert_eq!(removed[0].end_reason, ManagedTargetEndReason::Removed);
}

#[test]
fn update_refuses_to_reconfigure_a_running_target() {
    let mut group = active_group(&["a"]);
    let err = update(&mut group, vec![target("a", v4(9))]).unwrap_err();
    assert!(matches!(err, ClientError::InvalidConfig { .. }));
    let with_auth = ManagedTargetConfig {
        auth: Some(ClientAuthConfig {
            hmac_key: Some(vec![1]),
        }),
        ..target("a", v4(2112))
    };
    assert!(update(&mut group, vec![with_auth]).is_err());
    assert_eq!(group.target_count(), 1);
    assert_eq!(group.target(0).status, TargetStatus::Active);
    assert!(update(&mut group, vec![target("a", v4(2112))]).is_ok());
}

#[test]
fn dynamic_group_can_remove_to_empty_and_add_targets_again() {
    let mut group = start(dynamic_config(), vec![target("a", v4(1))]).unwrap();
    update(&mut group, Vec::new()).unwrap();
    let removed = finished(&mut group);
    assert_eq!(removed[0].id.as_str(), "a");
    assert_eq!(removed[0].end_reason, ManagedTargetEndReason::Removed);
    assert!(!group.group_should_complete());

    update(&mut group, vec![target("b", v4(2))]).unwrap();
    assert_eq!(group.target_count(), 1);
    cancel(&mut group);
    let cancelled = finished(&mut group);
    assert_eq!(cancelled[0].id.as_str(), "b");
    assert_eq!(cancelled[0].end_reason, ManagedTargetEndReason::Cancelled);
}

#[test]
fn removing_final_target_keeps_control_channel_responsive() {
    let mut group = start(dynamic_config(), vec![target("only", v4(1))]).unwrap();
    update(&mut group, Vec::new()).unwrap();
    update(&mut group, Vec::new()).unwrap();
    assert!(!group.group_should_complete());
    assert_eq!(group.scheduler_deadline(None), None);
    let outcome = group.take_outcome(ManagedGroupEndReason::Cancelled);
    assert_eq!(outcome.end_reason, ManagedGroupEndReason::Cancelled);
}

#[test]
fn target_churn_retains_bounded_history_after_publishing_every_outcome() {
    let churn_count = MANAGED_GROUP_OUTCOME_HISTORY_LIMIT + 16;
    let mut group = start(dynamic_config(), vec![target("churn", v4(1))]).unwrap();
    update(&mut group, Vec::new()).unwrap();
    for _ in 0..churn_count {
        update(&mut group, vec![target("churn", v4(1))]).unwrap();
        update(&mut group, Vec::new()).unwrap();
    }
    cancel(&mut group);
    let expected_total = u64::try_from(churn_count + 1).unwrap();
    assert_eq!(finished(&mut group).len(), churn_count + 1);
    let outcome = group.take_outcome(ManagedGroupEndReason::Cancelled);
    assert_eq!(outcome.total_target_outcomes, expected_total);
    assert_eq!(outcome.successful_target_outcomes, 0);
    assert_eq!(outcome.peer_closed_target_outcomes, 0);
    assert_eq!(outcome.failed_target_outcomes, 0);
    assert_eq!(outcome.targets.len(), MANAGED_GROUP_OUTCOME_HISTORY_LIMIT);
    assert_eq!(
        outcome.discarded_target_outcomes,
        expected_total - u64::try_from(MANAGED_GROUP_OUTCOME_HISTORY_LIMIT).unwrap()
    );
    assert!(outcome
        .targets
        .iter()
        .all(|target| target.end_reason == ManagedTargetEndReason::Removed));
}

fn run_to_final_drain() -> ManagedClientGroup {
    let mut group = active_group(&["late"]);
    group.conclude_probe(
        0,
        ProbeAttempt::Sent {
            probe: SentProbe {
                schedule: ScheduleFacts {
                    next_send: None,
                    finished: true,
                },
                ..sent_probe(60)
            },
        },
    );
    assert_eq!(group.step_completion(0, BASE), FinishStep::Nothing);
    assert!(group.step_timeouts(0));
    group.conclude_timeouts(
        0,
        Ok(vec![ClientEvent::EchoLoss {
            seq: 0,
            sent_at: STAMP,
            timeout_at: BASE,
        }]),
        SessionFacts {
            has_timed_out: true,
            packets_sent: 1,
            ..OPEN
        },
    );
    assert_eq!(group.step_completion(0, BASE), FinishStep::Nothing);
    assert_eq!(
        group.target(0).status,
        TargetStatus::Draining {
            deadline: Instant {
                nanos: BASE.nanos + GROUP_FINAL_DRAIN
            }
        }
    );
    group
}

#[test]
fn finite_group_drains_late_reply_during_final_drain() {
    let mut group = run_to_final_drain();
    assert_eq!(
        group.datagram_step(v4(2112)),
        DatagramStep::Process { index: 0 }
    );
    group.conclude_packet(
        0,
        Ok(vec![ClientEvent::LateReply {
            seq: 0,
            sent_at: Some(STAMP),
            received_at: STAMP,
            rtt: None,
        }]),
        SessionFacts {
            packets_sent: 1,
            ..OPEN
        },
    );
    assert_eq!(group.step_completion(0, after(BASE, 1)), FinishStep::Close);
    group.close_completed(0, Some(sent_close()));
    group.collect_finished_targets();
    let outcome = group.take_outcome(ManagedGroupEndReason::AllTargetsComplete);
    assert_eq!(outcome.targets[0].late, 1);
    assert_eq!(
        outcome.targets[0].end_reason,
        ManagedTargetEndReason::TestComplete
    );
}

#[test]
fn finite_group_final_drain_expires_without_late_reply() {
    let mut group = run_to_final_drain();
    assert_eq!(
        group.step_completion(0, after(BASE, 99)),
        FinishStep::Nothing
    );
    assert_eq!(
        group.step_completion(0, after(BASE, 100)),
        FinishStep::Close
    );
}

#[test]
fn finite_static_group_still_completes_naturally() {
    let mut group = active_group(&["only"]);
    group.conclude_probe(
        0,
        ProbeAttempt::Sent {
            probe: SentProbe {
                session: SessionFacts {
                    packets_sent: 1,
                    ..OPEN
                },
                schedule: ScheduleFacts {
                    next_send: None,
                    finished: true,
                },
                ..sent_probe(60)
            },
        },
    );
    assert_eq!(group.step_completion(0, BASE), FinishStep::Close);
    group.close_completed(0, Some(sent_close()));
    group.collect_finished_targets();
    assert!(group.group_should_complete());
}

#[test]
fn broken_socket_fails_all_targets() {
    let mut group = active_group(&["a", "b"]);
    assert_eq!(
        group.receive_failed(
            0,
            &IoError {
                kind: IoErrorKind::Other,
                message: "boom".to_owned(),
            }
        ),
        ReceiveFailure::Fatal
    );
    group.collect_finished_targets();
    let outcome = group.take_outcome(ManagedGroupEndReason::AllTargetsComplete);
    assert_eq!(outcome.failed_target_outcomes, 2);
    let failure = outcome.targets[1].end_reason.failure().unwrap();
    assert_eq!(failure.kind, ManagedTargetFailureKind::Socket);
    assert_eq!(failure.message, "socket error: boom");
}

#[test]
fn internal_failure_ends_all_targets() {
    let mut group = active_group(&["a", "b"]);
    group.fail_all_targets(ManagedTargetFailure {
        kind: ManagedTargetFailureKind::InternalWorker,
        message: "receiver panicked".to_owned(),
    });
    group.collect_finished_targets();
    let outcome = group.take_outcome(ManagedGroupEndReason::AllTargetsComplete);
    assert_eq!(outcome.failed_target_outcomes, 2);
}

#[test]
fn failures_are_classified_by_stage() {
    assert_eq!(
        classify_target_failure(&ClientError::OpenTimeout, true),
        ManagedTargetFailureKind::OpeningTimeout
    );
    assert_eq!(
        classify_target_failure(&ClientError::ZeroToken, true),
        ManagedTargetFailureKind::OpeningProtocol
    );
    assert_eq!(
        classify_target_failure(&ClientError::ZeroToken, false),
        ManagedTargetFailureKind::RuntimeProtocol
    );
    assert_eq!(
        classify_target_failure(&ClientError::NoOpenTimeouts, false),
        ManagedTargetFailureKind::InvalidConfiguration
    );
    assert_eq!(
        classify_target_failure(&ClientError::WorkerPanicked, false),
        ManagedTargetFailureKind::InternalWorker
    );
    assert_eq!(
        ManagedTargetFailureKind::OpeningProtocol.to_text(),
        "opening protocol/authentication/negotiation"
    );
}

#[test]
fn formulas_have_their_documented_values() {
    assert_eq!(
        divide_duration(Duration::from_millis(10), 3),
        Duration { nanos: 3_333_333 }
    );
    assert_eq!(
        instant_abs_diff(after(BASE, 3), after(BASE, 10)),
        Duration::from_millis(7)
    );
    assert_eq!(
        instant_abs_diff(after(BASE, 10), after(BASE, 3)),
        Duration::from_millis(7)
    );
    assert!(validate_datagram_length(60, 60).is_ok());
    assert!(validate_datagram_length(60, 61).is_err());
    let step = advance_cadence(BASE, Duration::from_millis(10), after(BASE, 25)).unwrap();
    assert_eq!(step.scheduled_at, after(BASE, 20));
    assert_eq!(step.following_at, after(BASE, 30));
    assert_eq!(step.skipped, 2);
}

#[test]
fn staggered_pacing_gives_targets_their_turns() {
    let mut pacing = PacingRuntime::new(ManagedGroupPacing::Staggered);
    pacing.reconcile(vec![TargetId::from("a"), TargetId::from("b")], BASE);
    assert!(pacing.send_due(2, BASE));
    assert!(!pacing.send_due(0, BASE));
    let deadlines = vec![Some(BASE), Some(BASE)];
    let interval = Duration::from_millis(80);
    assert_eq!(
        pacing.next_staggered(&deadlines, interval, BASE).unwrap(),
        Some((0, BASE))
    );
    assert!(!pacing.send_due(2, after(BASE, 39)));
    assert_eq!(
        pacing
            .next_staggered(&deadlines, interval, after(BASE, 40))
            .unwrap(),
        Some((1, after(BASE, 40)))
    );
    assert_eq!(pacing.next_wakeup(), Some(after(BASE, 80)));
    assert_eq!(ManagedGroupPacing::default(), ManagedGroupPacing::Staggered);
}

#[test]
fn probe_is_committed_only_after_it_was_sent() {
    let mut stage = ProbeStage::EnsureOpen;
    let mut stages = vec![stage];
    while stage != ProbeStage::Commit {
        match advance_probe(stage, ProbeResult::Passed) {
            ProbeProgress::Next { stage: next } => stage = next,
            progress => panic!("unexpected progress: {progress:?}"),
        }
        stages.push(stage);
    }
    assert_eq!(
        stages,
        vec![
            ProbeStage::EnsureOpen,
            ProbeStage::Permit,
            ProbeStage::Prepare,
            ProbeStage::PreflightSession,
            ProbeStage::PreflightSchedule,
            ProbeStage::Reserve,
            ProbeStage::Finalize,
            ProbeStage::Transmit,
            ProbeStage::Commit,
        ]
    );
    assert!(matches!(
        advance_probe(
            ProbeStage::Commit,
            ProbeResult::Committed {
                probe: sent_probe(60)
            }
        ),
        ProbeProgress::Done {
            attempt: ProbeAttempt::Sent { .. }
        }
    ));
}

#[test]
fn probe_failures_keep_their_cause() {
    assert!(matches!(
        advance_probe(ProbeStage::Permit, ProbeResult::Declined),
        ProbeProgress::Done {
            attempt: ProbeAttempt::Skipped
        }
    ));
    assert!(matches!(
        advance_probe(
            ProbeStage::EnsureOpen,
            ProbeResult::Failed {
                error: ClientError::NotOpen
            }
        ),
        ProbeProgress::Done {
            attempt: ProbeAttempt::Failed {
                error: ClientError::NotOpen
            }
        }
    ));
    let source = Vec::<u8>::new().try_reserve(usize::MAX).unwrap_err();
    assert!(matches!(
        advance_probe(ProbeStage::Reserve, ProbeResult::NoRoom { source }),
        ProbeProgress::Done {
            attempt: ProbeAttempt::Failed {
                error: ClientError::AllocationFailed {
                    operation: "managed probe event result",
                    ..
                }
            }
        }
    ));
    assert!(matches!(
        advance_probe(
            ProbeStage::Transmit,
            ProbeResult::NotSent {
                error: IoError {
                    kind: IoErrorKind::Other,
                    message: "boom".to_owned()
                }
            }
        ),
        ProbeProgress::Done {
            attempt: ProbeAttempt::Failed {
                error: ClientError::Socket(_)
            }
        }
    ));
}

#[test]
fn close_goes_through_its_stages() {
    let next = |stage: CloseStage| match advance_close(stage, CloseResult::Passed) {
        CloseProgress::Next { stage } => stage,
        progress => panic!("unexpected progress: {progress:?}"),
    };
    assert_eq!(next(CloseStage::Prepare), CloseStage::Reserve);
    assert_eq!(next(CloseStage::Reserve), CloseStage::Transmit);
    assert_eq!(next(CloseStage::Transmit), CloseStage::Commit);
    assert!(matches!(
        advance_close(
            CloseStage::Prepare,
            CloseResult::Failed {
                error: ClientError::NotOpen
            }
        ),
        CloseProgress::Done {
            attempt: CloseAttempt::PrepareFailed {
                error: ClientError::NotOpen
            }
        }
    ));
    assert!(matches!(
        advance_close(
            CloseStage::Commit,
            CloseResult::Committed {
                expected_bytes: 12,
                bytes: 11,
                event: session_closed(),
                session: CLOSED,
            }
        ),
        CloseProgress::Done {
            attempt: CloseAttempt::Sent {
                expected_bytes: 12,
                bytes: 11,
                ..
            }
        }
    ));
}

#[test]
fn no_test_non_close_reply_sends_cleanup_and_fails_without_retry() {
    let inspection = judge_acceptance(
        params(),
        Acceptance::Refused {
            error: ClientError::UnexpectedNoTestReply,
            cleanup_close: Some(vec![7]),
        },
    )
    .unwrap_err();
    let mut group = start(group_config(), vec![target("peer", v4(2112))]).unwrap();
    drive_open_attempts(&mut group, BASE);
    let (cleanup, wake) = group.conclude_inspection(0, inspection);
    assert_eq!(cleanup, Some(vec![7]));
    assert!(wake);
    assert_eq!(drive_open_attempts(&mut group, after(BASE, 1_000)), 0);
    group.collect_finished_targets();
    let outcome = group.take_outcome(ManagedGroupEndReason::AllTargetsComplete);
    assert_eq!(outcome.failed_target_outcomes, 1);
    assert!(matches!(
        outcome.targets[0].end_reason,
        ManagedTargetEndReason::OpenFailed(ManagedTargetFailure {
            kind: ManagedTargetFailureKind::OpeningProtocol,
            ..
        })
    ));
}

#[test]
fn replies_are_judged_in_two_steps() {
    assert!(judge_disposition(Disposition::Trusted).is_ok());
    assert!(matches!(
        judge_disposition(Disposition::Ignore),
        Err(OpenInspection::Ignored)
    ));
    assert!(matches!(
        judge_disposition(Disposition::Failed {
            error: ClientError::ServerRejected
        }),
        Err(OpenInspection::Untrusted {
            error: ClientError::ServerRejected
        })
    ));
    let schedule = ScheduleFacts {
        next_send: Some(BASE),
        finished: false,
    };
    let prepared = |negotiated: Option<GroupParams>| Acceptance::Prepared {
        negotiated,
        schedule: Ok(schedule),
        cleanup_close: Some(vec![9]),
    };
    assert_eq!(
        judge_acceptance(params(), prepared(Some(params()))).unwrap(),
        Some(schedule)
    );
    assert_eq!(judge_acceptance(params(), prepared(None)).unwrap(), None);
    assert!(matches!(
        judge_acceptance(
            params(),
            prepared(Some(GroupParams {
                interval_ns: 1,
                ..params()
            }))
        ),
        Err(OpenInspection::Rejected {
            error: ClientError::NegotiationRejected { .. },
            cleanup_close: Some(bytes),
        }) if bytes == vec![9]
    ));
    assert!(matches!(
        judge_acceptance(
            params(),
            Acceptance::Prepared {
                negotiated: Some(params()),
                schedule: Err(ClientError::DurationOverflow),
                cleanup_close: None,
            }
        ),
        Err(OpenInspection::Rejected {
            error: ClientError::DurationOverflow,
            cleanup_close: None,
        })
    ));
}

#[test]
fn completed_target_tells_whether_it_drains_first() {
    let group = active_group(&["only"]);
    assert!(!group.target(0).begins_drain());
    let mut group = active_group(&["only"]);
    group.conclude_probe(
        0,
        ProbeAttempt::Sent {
            probe: SentProbe {
                session: SessionFacts {
                    has_timed_out: true,
                    packets_sent: 1,
                    ..OPEN
                },
                schedule: ScheduleFacts {
                    next_send: None,
                    finished: true,
                },
                ..sent_probe(60)
            },
        },
    );
    assert!(group.target(0).begins_drain());
    assert_eq!(group.step_completion(0, BASE), FinishStep::Nothing);
    assert!(!group.target(0).begins_drain());
}
