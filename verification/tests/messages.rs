use irtt_client::blocking::{BlockingManagedJoinError, BlockingManagedStartError};
use irtt_client::driver;
use irtt_client::error::{ClientError, IoError, IoErrorKind};
use irtt_client::model::{
    ManagedCommandApplyError, ManagedCommandError, ManagedConfigError, ManagedDriverFailure,
    ManagedSubscribeError,
};
use irtt_client::target_id::TargetId;
use irtt_client::timing::Duration;

#[test]
fn durations_read_as_their_largest_unit() {
    for nanos in [
        0,
        1,
        999,
        1_000,
        1_500,
        999_999,
        1_000_000,
        100_000_000,
        123_456_789,
        1_000_000_000,
        1_000_000_001,
        2_500_000_000,
        60_120_003_400,
    ] {
        assert_eq!(
            Duration { nanos }.to_text(),
            format!("{:?}", std::time::Duration::from_nanos(nanos as u64))
        );
    }
    assert_eq!(
        Duration::max_value().to_text(),
        "18446744073709551615.999999999s"
    );
}

#[test]
fn configuration_failures_describe_themselves() {
    assert_eq!(
        ManagedConfigError::EmptyInitialTargets.to_text(),
        "FinishWhenQuiescent requires at least one initial target"
    );
    assert_eq!(
        ManagedConfigError::DuplicateTargetId {
            id: TargetId::from("a")
        }
        .to_text(),
        "duplicate managed target id a"
    );
    assert_eq!(
        ManagedConfigError::TooManyTargets {
            configured: 12,
            limit: 3
        }
        .to_text(),
        "configured 12 targets exceeds live-generation limit 3"
    );
    assert_eq!(
        ManagedConfigError::CommandCapacityTooLarge {
            configured: 9,
            maximum: 8
        }
        .to_text(),
        "managed command capacity 9 exceeds Tokio's maximum 8"
    );
    assert_eq!(
        ManagedConfigError::UnschedulableFinalDrain {
            duration: Duration::from_millis(1_500)
        }
        .to_text(),
        "managed final drain 1.5s cannot be scheduled from the current instant"
    );
    assert_eq!(
        ManagedConfigError::InvalidTarget {
            id: TargetId::from("a"),
            source: ClientError::NoOpenTimeouts
        }
        .to_text(),
        "invalid managed target a: at least one open timeout is required"
    );
}

#[test]
fn command_failures_describe_themselves() {
    assert_eq!(
        ManagedCommandError::TooManyTargets {
            configured: 2,
            limit: 1
        }
        .to_text(),
        "managed target update contains 2 targets but the limit is 1"
    );
    assert_eq!(
        ManagedCommandError::QueueFull.to_text(),
        "managed command queue is full"
    );
    assert_eq!(
        ManagedCommandApplyError::LiveGenerationLimitExceeded {
            required: 2,
            limit: 1
        }
        .to_text(),
        "target update requires 2 live generations but limit is 1"
    );
    assert_eq!(
        ManagedCommandApplyError::DriverFailed(ManagedDriverFailure::Internal {
            message: "odd".to_owned()
        })
        .to_text(),
        "managed driver failed before command application: managed driver invariant failed: odd"
    );
    assert_eq!(
        ManagedSubscribeError::Closed.to_text(),
        "managed event stream is closed"
    );
    assert_eq!(
        driver::ManagedCommandError::AcknowledgementDisconnected.to_text(),
        "managed client command acknowledgement was disconnected"
    );
}

#[test]
fn worker_failures_describe_themselves() {
    assert_eq!(
        driver::ManagedRunError::RuntimeBuild {
            message: "no epoll".to_owned()
        }
        .to_text(),
        "failed to build managed client Tokio runtime: no epoll"
    );
    assert_eq!(
        BlockingManagedJoinError::WorkerPanicked.to_text(),
        "blocking managed worker thread panicked"
    );
    assert_eq!(
        BlockingManagedStartError::ThreadSpawn {
            source: IoError {
                kind: IoErrorKind::Other,
                message: "too many threads".to_owned()
            }
        }
        .to_text(),
        "failed to spawn blocking managed worker thread: too many threads"
    );
    assert_eq!(
        BlockingManagedStartError::Config(ManagedConfigError::ZeroEventCapacity).to_text(),
        "managed event capacity must be greater than zero"
    );
}
