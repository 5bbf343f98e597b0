use irtt_client::config::{ClientConfig, NegotiationPolicy, RunMode, SocketConfig};
use irtt_client::error::ClientError;
use irtt_client::event::{ClientEvent, OpenOutcome};
use irtt_client::group::model::{
    ManagedClientGroupConfig, ManagedGroupCompletionPolicy, ManagedGroupEndReason,
    ManagedGroupOutcome, ManagedGroupPacing, ManagedTargetConfig, TargetId,
};
use irtt_client::group::registry::ManagedClientGroup;
use irtt_client::group::schedule::{
    advance_scheduler, join_group, plan_sends, SchedulerReport, SchedulerStage, SendPlan,
};
use irtt_client::group::target::{OpenInspection, OpenStep, ScheduleFacts, SessionFacts};
use irtt_client::group::validate::GroupParams;
use irtt_client::net::SocketAddr;
use irtt_client::timing::{ClientTimestamp, Duration, Instant, SystemTime, MAX_INSTANT_NANOS};

const BASE: Instant = Instant {
    nanos: 1_000_000_000_000,
};
const FRESH: SessionFacts = SessionFacts {
    open: false,
    peer_closed: false,
    terminal: false,
    pending_empty: true,
    has_timed_out: false,
    packets_sent: 0,
};

fn after(start: Instant, millis: u64) -> Instant {
    start.checked_add(Duration::from_millis(millis)).unwrap()
}

fn remote(port: u16) -> SocketAddr {
    SocketAddr::V4 {
        ip: 0x7f00_0001,
        port,
    }
}

/// Targets whose sessions are open, each with the instant of its next send.
fn active_group(
    pacing: ManagedGroupPacing,
    next_sends: &[Option<Instant>],
) -> ManagedClientGroup {
    let config = ManagedClientGroupConfig {
        client: ClientConfig {
            server_addr: "127.0.0.1:1".to_owned(),
            hmac_key: None,
            duration: None,
            interval: Duration::from_millis(80),
            dscp: 0,
            run_mode: RunMode::Normal,
            negotiation_policy: NegotiationPolicy::Strict,
            open_timeouts: vec![Duration::from_millis(200)],
            probe_timeout: Duration::from_millis(80),
            max_pending_probes: 1024,
            socket_config: SocketConfig {
                ipv4_only: false,
                ipv6_only: false,
                ttl: None,
                recv_timeout: None,
            },
        },
        pacing,
        completion: ManagedGroupCompletionPolicy::AllTargetsComplete,
    };
    let targets: Vec<ManagedTargetConfig> = (0..next_sends.len())
        .map(|index| ManagedTargetConfig {
            id: TargetId::new(format!("target-{index}")),
            remote: remote(2112 + index as u16),
            auth: None,
        })
        .collect();
    let sessions = targets.iter().map(|_| Ok(FRESH)).collect();
    let params = GroupParams {
        interval_ns: 80_000_000,
        dscp: 0,
    };
    let mut group =
        ManagedClientGroup::start(config, targets, Ok(()), Ok(params), sessions, BASE).unwrap();
    for (index, next_send) in next_sends.iter().enumerate() {
        match group.step_open(index, BASE, BASE) {
            OpenStep::Send { deadline } => group.conclude_open_send(index, deadline, Ok(())),
            step => panic!("unexpected step: {step:?}"),
        }
        group.conclude_inspection(
            index,
            OpenInspection::Opened {
                outcome: OpenOutcome::Started {
                    event: ClientEvent::SessionStarted {
                        remote: remote(2112 + index as u16),
                        token: 7,
                        at: ClientTimestamp {
                            wall: SystemTime { nanos: 0 },
                            mono: BASE,
                        },
                    },
                },
                schedule: Some(ScheduleFacts {
                    next_send: *next_send,
                    finished: false,
                }),
                session: SessionFacts {
                    open: true,
                    ..FRESH
                },
            },
        );
    }
    group
}

fn send(targets: &[usize], scheduled_at: Instant) -> SendPlan {
    SendPlan::Send {
        targets: targets.to_vec(),
        scheduled_at,
    }
}

#[test]
fn staggered_slots_go_round() {
    let group = active_group(ManagedGroupPacing::Staggered, &[Some(BASE), Some(BASE)]);
    let mut pacing = group.pacing();
    assert_eq!(
        plan_sends(&group, &mut pacing, BASE).unwrap(),
        send(&[0], BASE)
    );
    assert_eq!(
        plan_sends(&group, &mut pacing, after(BASE, 1)).unwrap(),
        SendPlan::Wait {
            deadline: Some(after(BASE, 40))
        }
    );
    assert_eq!(
        plan_sends(&group, &mut pacing, after(BASE, 40)).unwrap(),
        send(&[1], after(BASE, 40))
    );
    assert_eq!(
        plan_sends(&group, &mut pacing, after(BASE, 80)).unwrap(),
        send(&[0], after(BASE, 80))
    );
}

#[test]
fn staggered_slot_without_taker_goes_unused() {
    let group = active_group(ManagedGroupPacing::Staggered, &[Some(after(BASE, 30)), None]);
    let mut pacing = group.pacing();
    assert_eq!(
        plan_sends(&group, &mut pacing, BASE).unwrap(),
        SendPlan::Skip
    );
    assert_eq!(
        plan_sends(&group, &mut pacing, BASE).unwrap(),
        SendPlan::Wait {
            deadline: Some(after(BASE, 30))
        }
    );
    assert_eq!(
        plan_sends(&group, &mut pacing, after(BASE, 30)).unwrap(),
        send(&[0], after(BASE, 30))
    );
}

#[test]
fn burst_slots_go_to_all() {
    let group = active_group(ManagedGroupPacing::Burst, &[Some(BASE), None, Some(BASE)]);
    let mut pacing = group.pacing();
    assert_eq!(
        plan_sends(&group, &mut pacing, BASE).unwrap(),
        send(&[0, 1, 2], BASE)
    );
    assert_eq!(
        plan_sends(&group, &mut pacing, after(BASE, 200)).unwrap(),
        send(&[0, 1, 2], after(BASE, 160))
    );
    assert_eq!(
        plan_sends(&group, &mut pacing, after(BASE, 200)).unwrap(),
        SendPlan::Wait {
            deadline: Some(after(BASE, 240))
        }
    );
}

#[test]
fn group_without_targets_waits_for_control() {
    let mut group = active_group(ManagedGroupPacing::Staggered, &[Some(BASE)]);
    let removed = group
        .apply_target_update(vec![], Ok(()), vec![], BASE)
        .unwrap();
    assert_eq!(removed.len(), 1);
    let mut pacing = group.pacing();
    assert_eq!(
        plan_sends(&group, &mut pacing, BASE).unwrap(),
        SendPlan::Wait { deadline: None }
    );
}

#[test]
fn cadence_can_run_out_of_time() {
    let group = active_group(ManagedGroupPacing::Burst, &[Some(BASE)]);
    let mut pacing = group.pacing();
    let end = Instant {
        nanos: MAX_INSTANT_NANOS,
    };
    assert!(matches!(
        plan_sends(&group, &mut pacing, end),
        Err(ClientError::DurationOverflow)
    ));
}

fn outcome() -> ManagedGroupOutcome {
    ManagedGroupOutcome {
        end_reason: ManagedGroupEndReason::Cancelled,
        targets: vec![],
        total_target_outcomes: 0,
        successful_target_outcomes: 0,
        peer_closed_target_outcomes: 0,
        failed_target_outcomes: 0,
        discarded_target_outcomes: 0,
    }
}

#[test]
fn scheduler_failure_comes_before_receiver_failure() {
    assert_eq!(
        join_group(Some(Ok(outcome())), Some(Ok(()))).unwrap(),
        outcome()
    );
    assert!(matches!(
        join_group(None, Some(Err(ClientError::NotOpen))),
        Err(ClientError::WorkerPanicked)
    ));
    assert!(matches!(
        join_group(Some(Err(ClientError::DurationOverflow)), None),
        Err(ClientError::DurationOverflow)
    ));
    assert!(matches!(
        join_group(Some(Ok(outcome())), Some(Err(ClientError::NotOpen))),
        Err(ClientError::NotOpen)
    ));
    assert!(matches!(
        join_group(Some(Ok(outcome())), None),
        Err(ClientError::WorkerPanicked)
    ));
}

#[test]
fn scheduler_goes_round_until_the_group_ends() {
    let done = SchedulerReport::Done;
    let mut stage = SchedulerStage::Control;
    let mut stages = vec![];
    for report in [
        SchedulerReport::Handled { cancelled: false },
        done,
        done,
        done,
        SchedulerReport::Collected { complete: false },
        SchedulerReport::Sent { wait: true },
        done,
    ] {
        stages.push(stage);
        stage = advance_scheduler(stage, report);
    }
    assert_eq!(
        stages,
        vec![
            SchedulerStage::Control,
            SchedulerStage::Opens,
            SchedulerStage::Timeouts,
            SchedulerStage::Completion,
            SchedulerStage::Collect,
            SchedulerStage::Sends,
            SchedulerStage::Wait,
        ]
    );
    assert_eq!(stage, SchedulerStage::Control);
    assert_eq!(
        advance_scheduler(
            SchedulerStage::Sends,
            SchedulerReport::Sent { wait: false }
        ),
        SchedulerStage::Control
    );
    assert_eq!(
        advance_scheduler(
            SchedulerStage::Collect,
            SchedulerReport::Collected { complete: true }
        ),
        SchedulerStage::End {
            reason: ManagedGroupEndReason::AllTargetsComplete
        }
    );
}

#[test]
fn cancellation_closes_targets_before_the_scheduler_ends() {
    let stage = advance_scheduler(
        SchedulerStage::Control,
        SchedulerReport::Handled { cancelled: true },
    );
    assert_eq!(stage, SchedulerStage::Cancel);
    assert_eq!(
        advance_scheduler(stage, SchedulerReport::Done),
        SchedulerStage::End {
            reason: ManagedGroupEndReason::Cancelled
        }
    );
}

#[test]
fn group_keeps_its_configured_pacing() {
    for mode in [ManagedGroupPacing::Staggered, ManagedGroupPacing::Burst] {
        let pacing = active_group(mode, &[None]).pacing();
        assert_eq!(pacing.mode, mode);
        assert_eq!(pacing.next_wakeup(), None);
    }
}
