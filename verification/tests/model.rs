use std::collections::TryReserveError;

use irtt_client::error::{ClientError, IoError, IoErrorKind, ProtoError};
use irtt_client::history::OutcomeHistory;
use irtt_client::model::{
    classify_client_error, ManagedEndReason, ManagedTargetEndReason, ManagedTargetFailureKind,
    ManagedTargetFailurePhase, ManagedTargetOutcome, TargetInstance,
};
use irtt_client::net::SocketAddr;
use irtt_client::target_id::TargetId;
use irtt_client::timing::Duration;

fn io_error() -> IoError {
    IoError {
        kind: IoErrorKind::Other,
        message: "boom".to_owned(),
    }
}

fn try_reserve_error() -> TryReserveError {
    Vec::<u8>::new().try_reserve(usize::MAX).unwrap_err()
}

fn classification_cases() -> Vec<(ClientError, ManagedTargetFailureKind)> {
    vec![
        (
            ClientError::Resolve {
                addr: "example.invalid:2112".to_owned(),
            },
            ManagedTargetFailureKind::Resolve,
        ),
        (
            ClientError::Socket(io_error()),
            ManagedTargetFailureKind::Socket,
        ),
        (
            ClientError::DatagramLengthMismatch {
                expected: 64,
                actual: 32,
            },
            ManagedTargetFailureKind::Socket,
        ),
        (
            ClientError::SocketOption {
                operation: "set read timeout",
                remote: SocketAddr::V4 {
                    ip: 0x7f00_0001,
                    port: 2112,
                },
                source: io_error(),
            },
            ManagedTargetFailureKind::SocketOption,
        ),
        (
            ClientError::ReadTimeoutRestore { source: io_error() },
            ManagedTargetFailureKind::SocketOption,
        ),
        (
            ClientError::Protocol(ProtoError::BadMagic),
            ManagedTargetFailureKind::Protocol,
        ),
        (
            ClientError::ProtocolVersionMismatch {
                requested: 1,
                received: 2,
            },
            ManagedTargetFailureKind::Protocol,
        ),
        (ClientError::ZeroToken, ManagedTargetFailureKind::Protocol),
        (
            ClientError::UnexpectedNoTestReply,
            ManagedTargetFailureKind::Protocol,
        ),
        (
            ClientError::NonZeroNoTestToken { token: 7 },
            ManagedTargetFailureKind::Protocol,
        ),
        (
            ClientError::ServerRejected,
            ManagedTargetFailureKind::Protocol,
        ),
        (
            ClientError::NegotiationRejected {
                reason: "duration".to_owned(),
            },
            ManagedTargetFailureKind::Protocol,
        ),
        (ClientError::OpenTimeout, ManagedTargetFailureKind::Timeout),
        (
            ClientError::InvalidConfig {
                reason: "interval".to_owned(),
            },
            ManagedTargetFailureKind::Configuration,
        ),
        (
            ClientError::OpenTimeoutTooSmall {
                timeout: Duration::from_millis(1),
                minimum: Duration::from_millis(10),
            },
            ManagedTargetFailureKind::Configuration,
        ),
        (
            ClientError::NoOpenTimeouts,
            ManagedTargetFailureKind::Configuration,
        ),
        (
            ClientError::AllocationFailed {
                operation: "pending probes",
                source: try_reserve_error(),
            },
            ManagedTargetFailureKind::ResourceExhausted,
        ),
        (
            ClientError::CounterOverflow {
                counter: "packets_sent",
            },
            ManagedTargetFailureKind::ResourceExhausted,
        ),
        (
            ClientError::DurationOverflow,
            ManagedTargetFailureKind::ResourceExhausted,
        ),
        (
            ClientError::PendingLimitExceeded { limit: 8 },
            ManagedTargetFailureKind::ResourceExhausted,
        ),
        (
            ClientError::NoTokioRuntime,
            ManagedTargetFailureKind::InvalidState,
        ),
        (ClientError::NotOpen, ManagedTargetFailureKind::InvalidState),
        (
            ClientError::AlreadyOpen,
            ManagedTargetFailureKind::InvalidState,
        ),
        (
            ClientError::AlreadyCompleted,
            ManagedTargetFailureKind::InvalidState,
        ),
        (
            ClientError::AlreadyClosed,
            ManagedTargetFailureKind::InvalidState,
        ),
        (
            ClientError::StalePreparedProbe {
                prepared_seq: 3,
                next_wire_seq: 4,
            },
            ManagedTargetFailureKind::InvalidState,
        ),
        (
            ClientError::PendingSequenceCollision { seq: 9 },
            ManagedTargetFailureKind::InvalidState,
        ),
    ]
}

#[test]
fn every_client_error_classifies_to_its_documented_kind() {
    for (error, expected) in classification_cases() {
        let failure = classify_client_error(ManagedTargetFailurePhase::Opening, &error);
        assert_eq!(
            failure.kind, expected,
            "unexpected classification for {error:?}"
        );
        assert_eq!(failure.phase, ManagedTargetFailurePhase::Opening);
        assert_eq!(failure.message, error.to_text());
    }
}

#[test]
fn classification_covers_every_failure_kind_except_other() {
    let observed: Vec<_> = classification_cases()
        .into_iter()
        .map(|(error, _)| classify_client_error(ManagedTargetFailurePhase::Sending, &error).kind)
        .collect();
    for kind in [
        ManagedTargetFailureKind::Resolve,
        ManagedTargetFailureKind::Socket,
        ManagedTargetFailureKind::SocketOption,
        ManagedTargetFailureKind::Protocol,
        ManagedTargetFailureKind::Timeout,
        ManagedTargetFailureKind::Configuration,
        ManagedTargetFailureKind::ResourceExhausted,
        ManagedTargetFailureKind::InvalidState,
    ] {
        assert!(observed.contains(&kind), "no case classifies as {kind:?}");
    }
    assert!(
        !observed.contains(&ManagedTargetFailureKind::Other),
        "Other must remain a deliberate category, not a fallback"
    );
}

#[test]
fn classification_preserves_the_reported_phase() {
    for phase in [
        ManagedTargetFailurePhase::Connecting,
        ManagedTargetFailurePhase::Opening,
        ManagedTargetFailurePhase::Sending,
        ManagedTargetFailurePhase::Receiving,
        ManagedTargetFailurePhase::Timing,
        ManagedTargetFailurePhase::Closing,
    ] {
        let failure = classify_client_error(phase, &ClientError::OpenTimeout);
        assert_eq!(failure.phase, phase);
    }
}

#[test]
fn phase_and_kind_display_without_debug_spelling() {
    assert_eq!(
        ManagedTargetFailurePhase::Connecting.to_text(),
        "connecting"
    );
    assert_eq!(ManagedTargetFailurePhase::Closing.to_text(), "closing");
    assert_eq!(
        ManagedTargetFailureKind::SocketOption.to_text(),
        "socket option"
    );
    assert_eq!(
        ManagedTargetFailureKind::ResourceExhausted.to_text(),
        "resource exhausted"
    );
    assert_eq!(
        ManagedTargetFailureKind::InvalidState.to_text(),
        "invalid state"
    );
    assert_eq!(ManagedTargetFailureKind::Other.to_text(), "other");
}

#[test]
fn errors_describe_themselves() {
    assert_eq!(
        ClientError::Resolve {
            addr: "example.invalid:2112".to_owned()
        }
        .to_text(),
        "failed to resolve server address example.invalid:2112"
    );
    assert_eq!(
        ClientError::DatagramLengthMismatch {
            expected: 64,
            actual: 32
        }
        .to_text(),
        "UDP accepted 32 of 64 bytes"
    );
    assert_eq!(
        ClientError::PendingLimitExceeded { limit: 8 }.to_text(),
        "pending probe limit reached: 8"
    );
    assert_eq!(
        ClientError::StalePreparedProbe {
            prepared_seq: 3,
            next_wire_seq: 4
        }
        .to_text(),
        "prepared probe 3 is stale; next is 4"
    );
    assert_eq!(
        ClientError::NonZeroNoTestToken { token: u64::MAX }.to_text(),
        "no-test reply carried session token 18446744073709551615"
    );
}

#[test]
fn addresses_are_written_as_usual() {
    let v4 = |ip: u32, port: u16| SocketAddr::V4 { ip, port }.to_text();
    assert_eq!(v4(0x7f00_0001, 2112), "127.0.0.1:2112");
    assert_eq!(v4(0, 0), "0.0.0.0:0");
    assert_eq!(v4(u32::MAX, u16::MAX), "255.255.255.255:65535");

    let v6 = |ip: u128, port: u16, scope_id: u32| {
        let address = SocketAddr::V6 {
            ip,
            port,
            flowinfo: 0,
            scope_id,
        };
        assert!(!address.is_ipv4());
        address.to_text()
    };
    assert_eq!(v6(1, 80, 0), "[::1]:80");
    assert_eq!(v6(0, 0, 0), "[::]:0");
    assert_eq!(
        v6(0x2001_0db8_0000_0000_0000_0000_0000_0001, 2112, 0),
        "[2001:db8::1]:2112"
    );
    assert_eq!(
        v6(0x2001_0db8_0000_0001_0001_0001_0001_0001, 1, 0),
        "[2001:db8:0:1:1:1:1:1]:1"
    );
    assert_eq!(
        v6(0x0001_0000_0000_0002_0000_0000_0000_0003, 1, 0),
        "[1:0:0:2::3]:1"
    );
    assert_eq!(
        v6(0x0000_0000_0000_0000_0000_ffff_c000_0201, 443, 0),
        "[::ffff:192.0.2.1]:443"
    );
    assert_eq!(
        v6(0xfe80_0000_0000_0000_0000_0000_0000_0001, 9, 7),
        "[fe80::1%7]:9"
    );
    assert_eq!(
        v6(0x0001_0002_0003_0004_0005_0006_0007_0008, 9, 0),
        "[1:2:3:4:5:6:7:8]:9"
    );
    assert_eq!(
        v6(0x0001_0002_0003_0004_0005_0006_0000_0000, 9, 0),
        "[1:2:3:4:5:6::]:9"
    );
}

fn target_outcome(generation: u64, end_reason: ManagedTargetEndReason) -> ManagedTargetOutcome {
    ManagedTargetOutcome {
        target: TargetInstance {
            id: TargetId::from("peer"),
            generation,
        },
        server_addr: "127.0.0.1:2112".to_owned(),
        remote: None,
        end_reason,
        packets_sent: 0,
        replies_received: 0,
        duplicates: 0,
        late: 0,
        warning_events: 0,
        cleanup_failure: None,
    }
}

#[test]
fn outcome_history_keeps_the_most_recent_outcomes() {
    let mut history = OutcomeHistory::new(2);
    history.record(target_outcome(1, ManagedTargetEndReason::TestComplete));
    history.record(target_outcome(2, ManagedTargetEndReason::PeerClosed));
    history.record(target_outcome(3, ManagedTargetEndReason::Removed));

    assert_eq!(history.total(), 3);
    assert_eq!(history.successful(), 3);
    assert_eq!(history.peer_closed(), 1);
    assert_eq!(history.failed(), 0);
    assert_eq!(history.discarded(), 1);
    let kept: Vec<u64> = history
        .recent()
        .iter()
        .map(|outcome| outcome.target.generation)
        .collect();
    assert_eq!(kept, vec![2, 3]);

    let outcome = history.outcome(ManagedEndReason::StopRequested, 7);
    assert_eq!(outcome.applied_command_sequence, 7);
    assert_eq!(outcome.total_target_outcomes, 3);
    assert_eq!(outcome.recent_target_outcomes, history.recent());
}

#[test]
fn outcome_history_without_room_counts_only() {
    let mut history = OutcomeHistory::new(0);
    history.record(target_outcome(1, ManagedTargetEndReason::TestComplete));
    assert_eq!(history.total(), 1);
    assert_eq!(history.discarded(), 1);
    assert!(history.recent().is_empty());
}
