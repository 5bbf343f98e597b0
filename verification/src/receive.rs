//! Interpretation of the ancillary data of received datagrams.
use vstd::prelude::*;

use crate::metadata::ReceiveMeta;
use crate::timing::{ClientTimestamp, Duration, SystemTime, MAX_SYSTEM_NANOS, NANOS_PER_SEC};

verus! {

/// Seconds and nanoseconds, as the kernel reports a time.
#[derive(Debug, Clone, Copy, PartialEq, Eq, Structural)]
pub struct TimeSpec {
    pub tv_sec: i64,
    pub tv_nsec: i64,
}

/// The extended error record of a socket's error queue.
#[derive(Debug, Clone, Copy, PartialEq, Eq, Structural)]
pub struct ExtendedError {
    pub errno: u32,
    pub origin: u8,
    pub info: u32,
    pub data: u32,
}

/// One control message that came with a datagram.
#[derive(Debug, Clone, Copy, PartialEq, Eq, Structural)]
pub enum ControlMessage {
    /// Receive timestamp of the datagram.
    ScmTimestampns(TimeSpec),
    /// Software timestamp out of a timestamping record.
    ScmTimestampsns { system: TimeSpec },
    Ipv4Tos(u8),
    Ipv6TClass(i32),
    Ipv4RecvErr(ExtendedError),
    Ipv6RecvErr(ExtendedError),
    /// Any other control message.
    Unknown,
}

/// A datagram that was received, without its payload.
#[derive(Debug, Clone, Copy, PartialEq, Eq, Structural)]
pub struct ReceivedDatagram {
    pub len: usize,
    pub received_at: ClientTimestamp,
    pub meta: ReceiveMeta,
}

/// The wall-clock time that `timespec` names, where it names one: both parts
/// are nonnegative, the nanoseconds are less than a second, and the clock can
/// represent the sum.
pub open spec fn spec_system_time_from_timespec(timespec: TimeSpec) -> Option<SystemTime> {
    if timespec.tv_sec >= 0 && 0 <= timespec.tv_nsec < NANOS_PER_SEC && timespec.tv_sec
        * NANOS_PER_SEC + timespec.tv_nsec <= MAX_SYSTEM_NANOS {
        Some(
            SystemTime {
                nanos: (timespec.tv_sec * NANOS_PER_SEC + timespec.tv_nsec) as i128,
            },
        )
    } else {
        None
    }
}

#[verifier::when_used_as_spec(spec_system_time_from_timespec)]
pub fn system_time_from_timespec(timespec: TimeSpec) -> (result: Option<SystemTime>)
    ensures
        result == spec_system_time_from_timespec(timespec),
{
    if timespec.tv_sec < 0 || timespec.tv_nsec < 0 || timespec.tv_nsec >= 1_000_000_000 {
        return None;
    }
    let since_epoch = Duration {
        nanos: timespec.tv_sec as u128 * NANOS_PER_SEC + timespec.tv_nsec as u128,
    };
    SystemTime::unix_epoch().checked_add(since_epoch)
}

/// The metadata after one more control message.
pub open spec fn meta_after(meta: ReceiveMeta, cmsg: ControlMessage) -> ReceiveMeta {
    match cmsg {
        ControlMessage::ScmTimestampns(timestamp) => ReceiveMeta {
            kernel_rx_timestamp: spec_system_time_from_timespec(timestamp),
            ..meta
        },
        ControlMessage::Ipv4Tos(tos) => ReceiveMeta { traffic_class: Some(tos), ..meta },
        ControlMessage::Ipv6TClass(class) => ReceiveMeta {
            traffic_class: if 0 <= class <= 255 {
                Some(class as u8)
            } else {
                None
            },
            ..meta
        },
        _ => meta,
    }
}

/// The metadata that a list of control messages adds up to. A later message
/// overrides an earlier one of the same kind.
pub open spec fn meta_of(cmsgs: Seq<ControlMessage>) -> ReceiveMeta {
    cmsgs.fold_left(
        ReceiveMeta { traffic_class: None, kernel_rx_timestamp: None },
        |meta: ReceiveMeta, cmsg: ControlMessage| meta_after(meta, cmsg),
    )
}

/// Metadata of a datagram with the control messages `cmsgs`. `None` stands for
/// control data that was truncated and cannot be walked: the datagram is still
/// valid and is reported without metadata.
pub fn receive_meta(cmsgs: Option<&Vec<ControlMessage>>) -> (result: ReceiveMeta)
    ensures
        result == match cmsgs {
            Some(cmsgs) => meta_of(cmsgs@),
            None => ReceiveMeta { traffic_class: None, kernel_rx_timestamp: None },
        },
{
    let mut meta = ReceiveMeta { traffic_class: None, kernel_rx_timestamp: None };
    if let Some(cmsgs) = cmsgs {
        let mut i: usize = 0;
        while i < cmsgs.len()
            invariant
                i <= cmsgs@.len(),
                meta == meta_of(cmsgs@.take(i as int)),
            decreases cmsgs@.len() - i,
        {
            let ghost before = meta;
            match cmsgs[i] {
                ControlMessage::ScmTimestampns(timestamp) => {
                    meta.kernel_rx_timestamp = system_time_from_timespec(timestamp);
                },
                ControlMessage::Ipv4Tos(tos) => {
                    meta.traffic_class = Some(tos);
                },
                ControlMessage::Ipv6TClass(class) => {
                    meta.traffic_class = if 0 <= class && class <= 255 {
                        Some(class as u8)
                    } else {
                        None
                    };
                },
                _ => {},
            }
            proof {
                assert(meta == meta_after(before, cmsgs@[i as int]));
                assert(cmsgs@.take(i as int + 1).drop_last() =~= cmsgs@.take(i as int));
            }
            i += 1;
        }
        assert(cmsgs@.take(i as int) =~= cmsgs@);
    }
    meta
}

/// A kernel time is the seconds and nanoseconds since the epoch added up. It
/// names a time exactly where neither is negative, the nanoseconds make less
/// than a second, and the clock can represent the sum.
pub proof fn law_kernel_time_adds_up(timespec: TimeSpec)
    ensures
        ({
            let sum = timespec.tv_sec * 1_000_000_000 + timespec.tv_nsec;
            let named = spec_system_time_from_timespec(timespec);
            &&& named is Some <==> timespec.tv_sec >= 0 && 0 <= timespec.tv_nsec < 1_000_000_000
                && sum <= MAX_SYSTEM_NANOS
            &&& named matches Some(time) ==> time.nanos == sum
        }),
{
}

/// The control message tells a traffic class.
pub open spec fn tells_class(cmsg: ControlMessage) -> bool {
    cmsg is Ipv4Tos || cmsg is Ipv6TClass
}

/// The last message that tells a traffic class decides it, and the last receive
/// timestamp decides that. Without such a message there is none. Others do not
/// matter.
pub proof fn law_last_message_of_a_kind_counts(cmsgs: Seq<ControlMessage>, i: int)
    requires
        0 <= i < cmsgs.len(),
    ensures
        ({
            let meta = meta_of(cmsgs);
            let last_class = forall|j: int| i < j < cmsgs.len() ==> !tells_class(#[trigger] cmsgs[j]);
            let last_time = forall|j: int|
                i < j < cmsgs.len() ==> !((#[trigger] cmsgs[j]) is ScmTimestampns);
            &&& last_class ==> (cmsgs[i] matches ControlMessage::Ipv4Tos(tos)
                ==> meta.traffic_class == Some(tos))
            &&& last_class ==> (cmsgs[i] matches ControlMessage::Ipv6TClass(class) ==> {
                &&& 0 <= class <= 255 ==> meta.traffic_class is Some && meta.traffic_class->0
                    == class
                &&& !(0 <= class <= 255) ==> meta.traffic_class is None
            })
            &&& last_time ==> (cmsgs[i] matches ControlMessage::ScmTimestampns(timestamp)
                ==> meta.kernel_rx_timestamp == spec_system_time_from_timespec(timestamp))
        }),
    decreases cmsgs.len(),
{
    let rest = cmsgs.drop_last();
    let last = cmsgs.last();
    assert(meta_of(cmsgs) == meta_after(meta_of(rest), last));
    if i < rest.len() {
        law_last_message_of_a_kind_counts(rest, i);
        assert(rest[i] == cmsgs[i]);
        if forall|j: int| i < j < cmsgs.len() ==> !tells_class(#[trigger] cmsgs[j]) {
            assert(!tells_class(cmsgs[cmsgs.len() - 1]));
            assert forall|j: int| i < j < rest.len() implies !tells_class(#[trigger] rest[j]) by {
                assert(rest[j] == cmsgs[j]);
            }
        }
        if forall|j: int| i < j < cmsgs.len() ==> !((#[trigger] cmsgs[j]) is ScmTimestampns) {
            assert(!(cmsgs[cmsgs.len() - 1] is ScmTimestampns));
            assert forall|j: int| i < j < rest.len() implies !((
            #[trigger] rest[j]) is ScmTimestampns) by {
                assert(rest[j] == cmsgs[j]);
            }
        }
    }
}

/// What no message tells is not there.
pub proof fn law_untold_metadata_is_absent(cmsgs: Seq<ControlMessage>)
    ensures
        (forall|j: int| 0 <= j < cmsgs.len() ==> !tells_class(#[trigger] cmsgs[j])) ==> meta_of(
            cmsgs,
        ).traffic_class is None,
        (forall|j: int| 0 <= j < cmsgs.len() ==> !((#[trigger] cmsgs[j]) is ScmTimestampns))
            ==> meta_of(cmsgs).kernel_rx_timestamp is None,
    decreases cmsgs.len(),
{
    if cmsgs.len() > 0 {
        let rest = cmsgs.drop_last();
        law_untold_metadata_is_absent(rest);
        assert(meta_of(cmsgs) == meta_after(meta_of(rest), cmsgs.last()));
        if forall|j: int| 0 <= j < cmsgs.len() ==> !tells_class(#[trigger] cmsgs[j]) {
            assert(!tells_class(cmsgs[cmsgs.len() - 1]));
            assert forall|j: int| 0 <= j < rest.len() implies !tells_class(#[trigger] rest[j]) by {
                assert(rest[j] == cmsgs[j]);
            }
        }
        if forall|j: int| 0 <= j < cmsgs.len() ==> !((#[trigger] cmsgs[j]) is ScmTimestampns) {
            assert(!(cmsgs[cmsgs.len() - 1] is ScmTimestampns));
            assert forall|j: int| 0 <= j < rest.len() implies !((
            #[trigger] rest[j]) is ScmTimestampns) by {
                assert(rest[j] == cmsgs[j]);
            }
        }
    }
}

} // verus!
