use irtt_client::error::{IoError, IoErrorKind};
use irtt_client::error_queue::{
    classify, classify_with, error_queue_record, error_queue_record_with, ErrorQueueRead,
    ErrorQueueRecord, SCM_TSTAMP_SND, SO_EE_ORIGIN_TIMESTAMPING,
};
use irtt_client::receive::{ControlMessage, ExtendedError, TimeSpec};
use irtt_client::timing::SystemTime;

fn extended_error(errno: u32, origin: u8, info: u32, data: u32) -> ExtendedError {
    ExtendedError {
        errno,
        origin,
        info,
        data,
    }
}

fn timestamps_with_system(tv_sec: i64, tv_nsec: i64) -> ControlMessage {
    ControlMessage::ScmTimestampsns {
        system: TimeSpec { tv_sec, tv_nsec },
    }
}

fn send_timestamp_error(id: u32) -> ControlMessage {
    ControlMessage::Ipv4RecvErr(extended_error(
        nix::libc::ENOMSG as u32,
        nix::libc::SO_EE_ORIGIN_TIMESTAMPING,
        SCM_TSTAMP_SND,
        id,
    ))
}

#[test]
fn constants_are_those_of_the_kernel_interface() {
    assert_eq!(
        SO_EE_ORIGIN_TIMESTAMPING,
        nix::libc::SO_EE_ORIGIN_TIMESTAMPING
    );
}

#[test]
fn classifies_valid_send_timestamp_completion() {
    let cmsgs = vec![send_timestamp_error(7), timestamps_with_system(1, 2)];

    assert_eq!(
        classify(&cmsgs),
        ErrorQueueRecord::TxTimestamp {
            id: 7,
            timestamp: SystemTime {
                nanos: 1_000_000_002
            },
        }
    );
}

#[test]
fn classifies_timestamp_origin_without_timestamp_as_malformed() {
    assert_eq!(
        classify(&vec![send_timestamp_error(3)]),
        ErrorQueueRecord::MalformedOrUnsupportedTimestamp
    );
}

#[test]
fn classifies_timestamp_origin_with_invalid_timespec_as_malformed() {
    assert_eq!(
        classify(&vec![send_timestamp_error(3), timestamps_with_system(-1, 0)]),
        ErrorQueueRecord::MalformedOrUnsupportedTimestamp
    );
}

#[test]
fn classifies_non_timestamp_extended_error_as_socket_error() {
    let cmsgs = vec![ControlMessage::Ipv4RecvErr(extended_error(
        nix::libc::ECONNREFUSED as u32,
        nix::libc::SO_EE_ORIGIN_ICMP,
        0,
        0,
    ))];

    assert_eq!(
        classify(&cmsgs),
        ErrorQueueRecord::SocketError {
            errno: nix::libc::ECONNREFUSED,
            origin: nix::libc::SO_EE_ORIGIN_ICMP,
        }
    );
}

#[test]
fn classifies_timestamping_origin_with_wrong_completion_kind_as_malformed() {
    let cmsgs = vec![ControlMessage::Ipv4RecvErr(extended_error(
        nix::libc::ENOMSG as u32,
        nix::libc::SO_EE_ORIGIN_TIMESTAMPING,
        1,
        0,
    ))];

    assert_eq!(
        classify(&cmsgs),
        ErrorQueueRecord::MalformedOrUnsupportedTimestamp
    );
}

#[test]
fn classifies_timestamping_origin_with_unexpected_errno_as_malformed() {
    let cmsgs = vec![ControlMessage::Ipv4RecvErr(extended_error(
        nix::libc::ECONNREFUSED as u32,
        nix::libc::SO_EE_ORIGIN_TIMESTAMPING,
        SCM_TSTAMP_SND,
        0,
    ))];

    assert_eq!(
        classify(&cmsgs),
        ErrorQueueRecord::MalformedOrUnsupportedTimestamp
    );
}

#[test]
fn ignores_records_without_any_extended_error() {
    assert_eq!(
        classify(&vec![ControlMessage::Ipv4Tos(0)]),
        ErrorQueueRecord::Ignored
    );
}

#[test]
fn unknown_cmsgs_do_not_affect_classification() {
    let cmsgs = vec![
        ControlMessage::Ipv4Tos(0),
        send_timestamp_error(4),
        timestamps_with_system(9, 0),
    ];

    assert_eq!(
        classify(&cmsgs),
        ErrorQueueRecord::TxTimestamp {
            id: 4,
            timestamp: SystemTime {
                nanos: 9_000_000_000
            },
        }
    );
}

#[test]
fn cmsg_order_does_not_affect_classification() {
    let forward = classify(&vec![send_timestamp_error(9), timestamps_with_system(5, 0)]);
    let reversed = classify(&vec![timestamps_with_system(5, 0), send_timestamp_error(9)]);

    assert_eq!(forward, reversed);
}

#[test]
fn empty_queue_and_failures_are_told_apart() {
    assert_eq!(error_queue_record(ErrorQueueRead::WouldBlock), Ok(None));
    let failure = IoError {
        kind: IoErrorKind::Other,
        message: "bad descriptor".to_owned(),
    };
    assert_eq!(
        error_queue_record(ErrorQueueRead::Failed {
            error: failure.clone()
        }),
        Err(failure)
    );
    assert_eq!(
        error_queue_record(ErrorQueueRead::Message {
            cmsgs: Some(vec![send_timestamp_error(3), timestamps_with_system(1, 0)]),
        }),
        Ok(Some(ErrorQueueRecord::TxTimestamp {
            id: 3,
            timestamp: SystemTime {
                nanos: 1_000_000_000
            },
        }))
    );
    assert_eq!(
        error_queue_record(ErrorQueueRead::Interrupted),
        Ok(Some(ErrorQueueRecord::Ignored))
    );
    assert_eq!(
        error_queue_record(ErrorQueueRead::Message { cmsgs: None })
            .unwrap_err()
            .kind,
        IoErrorKind::InvalidData
    );
}

#[test]
fn error_number_of_the_architecture_decides() {
    let record = |errno: u32| {
        vec![
            ControlMessage::Ipv6RecvErr(extended_error(
                errno,
                SO_EE_ORIGIN_TIMESTAMPING,
                SCM_TSTAMP_SND,
                5,
            )),
            timestamps_with_system(1, 0),
        ]
    };
    let completion = ErrorQueueRecord::TxTimestamp {
        id: 5,
        timestamp: SystemTime {
            nanos: 1_000_000_000,
        },
    };
    for enomsg in [35, 42, 75] {
        assert_eq!(classify_with(&record(enomsg), enomsg), completion);
        assert_eq!(
            classify_with(&record(enomsg + 1), enomsg),
            ErrorQueueRecord::MalformedOrUnsupportedTimestamp
        );
        assert_eq!(
            error_queue_record_with(
                ErrorQueueRead::Message {
                    cmsgs: Some(record(enomsg))
                },
                enomsg
            ),
            Ok(Some(completion))
        );
    }
    assert_eq!(classify(&record(nix::libc::ENOMSG as u32)), completion);
    assert_eq!(
        classify(&record(nix::libc::ENOMSG as u32 + 1)),
        ErrorQueueRecord::MalformedOrUnsupportedTimestamp
    );
}
