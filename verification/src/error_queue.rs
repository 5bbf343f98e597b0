//! Classification of the records on a socket's error queue.
//!
//! A socket with transmit timestamping puts one extended-error record on its
//! error queue for each datagram that it sent.
use vstd::prelude::*;
use vstd::string::*;

use crate::error::{IoError, IoErrorKind};
use crate::receive::{
    spec_system_time_from_timespec, system_time_from_timespec, ControlMessage, ExtendedError,
    TimeSpec,
};
use crate::timing::SystemTime;

verus! {

/// Completion kind of a send timestamp, `SCM_TSTAMP_SND` of the kernel's
/// error-queue interface.
pub const SCM_TSTAMP_SND: u32 = 0;

/// Origin of a record that the timestamping facility made.
pub const SO_EE_ORIGIN_TIMESTAMPING: u8 = 4;

/// `errno` is the number of `ENOMSG` on some Linux architecture: 42 on most, 35
/// on MIPS and 75 on SPARC.
pub open spec fn is_enomsg(errno: u32) -> bool {
    errno == 42 || errno == 35 || errno == 75
}

/// The error number that a timestamping record carries on this architecture.
/// It reads `ENOMSG` of the libc crate that nix exports, which is one of the
/// numbers listed by [`is_enomsg`] wherever the kernel has an error queue.
/// Which of them it is depends on the architecture and is left unsaid.
#[verifier::external_body]
fn no_message_errno() -> (result: u32)
    ensures
        is_enomsg(result),
{
    nix::libc::ENOMSG as u32
}

/// The origin of timestamping records. It reads `SO_EE_ORIGIN_TIMESTAMPING` of
/// the libc crate that nix exports, which is 4 on Linux and Android and not
/// there elsewhere.
#[verifier::external_body]
fn timestamping_origin() -> (result: u8)
    ensures
        result == SO_EE_ORIGIN_TIMESTAMPING,
{
    nix::libc::SO_EE_ORIGIN_TIMESTAMPING
}

/// A classified record of the error queue.
#[derive(Debug, Clone, Copy, PartialEq, Eq, Structural)]
pub enum ErrorQueueRecord {
    /// A send-timestamp completion with a usable software timestamp.
    TxTimestamp { id: u32, timestamp: SystemTime },
    /// A record of the timestamping facility that is no usable send-timestamp
    /// completion. An accuracy failure, never a socket failure.
    MalformedOrUnsupportedTimestamp,
    /// A real network, local or ICMP error.
    SocketError { errno: i32, origin: u8 },
    /// No extended error was present.
    Ignored,
}

/// What one nonblocking read of the error queue came back with.
#[derive(Debug, Clone, PartialEq, Eq)]
pub enum ErrorQueueRead {
    /// A record; `None` where its control data was truncated.
    Message { cmsgs: Option<Vec<ControlMessage>> },
    /// The queue was empty.
    WouldBlock,
    /// The read was interrupted, which says nothing about the queue.
    Interrupted,
    Failed { error: IoError },
}

/// The extended error that `cmsg` holds.
pub open spec fn extended_error(cmsg: ControlMessage) -> Option<ExtendedError> {
    match cmsg {
        ControlMessage::Ipv4RecvErr(error) => Some(error),
        ControlMessage::Ipv6RecvErr(error) => Some(error),
        _ => None,
    }
}

/// The software timestamp that `cmsg` holds.
pub open spec fn software_timestamp(cmsg: ControlMessage) -> Option<TimeSpec> {
    match cmsg {
        ControlMessage::ScmTimestampsns { system } => Some(system),
        _ => None,
    }
}

/// The last extended error among `cmsgs`.
pub open spec fn last_error(cmsgs: Seq<ControlMessage>) -> Option<ExtendedError>
    decreases cmsgs.len(),
{
    if cmsgs.len() == 0 {
        None
    } else if extended_error(cmsgs.last()) is Some {
        extended_error(cmsgs.last())
    } else {
        last_error(cmsgs.drop_last())
    }
}

/// The last software timestamp among `cmsgs`.
pub open spec fn last_timestamp(cmsgs: Seq<ControlMessage>) -> Option<TimeSpec>
    decreases cmsgs.len(),
{
    if cmsgs.len() == 0 {
        None
    } else if software_timestamp(cmsgs.last()) is Some {
        software_timestamp(cmsgs.last())
    } else {
        last_timestamp(cmsgs.drop_last())
    }
}

/// What a record is, given its extended error and its software timestamp. The
/// origin alone tells a timestamping record from a socket error. `enomsg` is the
/// error number that a timestamping record carries.
pub open spec fn record_of(
    error: Option<ExtendedError>,
    timestamp: Option<TimeSpec>,
    enomsg: u32,
) -> ErrorQueueRecord {
    match error {
        None => ErrorQueueRecord::Ignored,
        Some(error) => if error.origin != SO_EE_ORIGIN_TIMESTAMPING {
            ErrorQueueRecord::SocketError { errno: error.errno as i32, origin: error.origin }
        } else if error.errno != enomsg || error.info != SCM_TSTAMP_SND {
            ErrorQueueRecord::MalformedOrUnsupportedTimestamp
        } else {
            match timestamp {
                None => ErrorQueueRecord::MalformedOrUnsupportedTimestamp,
                Some(timespec) => match spec_system_time_from_timespec(timespec) {
                    None => ErrorQueueRecord::MalformedOrUnsupportedTimestamp,
                    Some(timestamp) => ErrorQueueRecord::TxTimestamp { id: error.data, timestamp },
                },
            }
        },
    }
}

pub open spec fn classification(cmsgs: Seq<ControlMessage>, enomsg: u32) -> ErrorQueueRecord {
    record_of(last_error(cmsgs), last_timestamp(cmsgs), enomsg)
}

/// The two's complement reading of an unsigned error number.
#[verifier::truncate]
fn signed_errno(errno: u32) -> (result: i32)
    ensures
        result == errno as i32,
{
    errno as i32
}

/// Classifies the control messages of one record, with the error number of
/// this architecture.
pub fn classify(cmsgs: &Vec<ControlMessage>) -> (result: ErrorQueueRecord)
    ensures
        exists|enomsg: u32| #[trigger]
            is_enomsg(enomsg) && result == classification(cmsgs@, enomsg),
{
    classify_with(cmsgs, no_message_errno())
}

/// Classifies the control messages of one record, where a timestamping record
/// carries the error number `enomsg`. The extended error and the timestamp are
/// collected before either is looked at, so that the order of the messages does
/// not matter.
pub fn classify_with(cmsgs: &Vec<ControlMessage>, enomsg: u32) -> (result: ErrorQueueRecord)
    ensures
        result == classification(cmsgs@, enomsg),
{
    let mut error: Option<ExtendedError> = None;
    let mut timestamp: Option<TimeSpec> = None;
    let mut i: usize = 0;
    while i < cmsgs.len()
        invariant
            i <= cmsgs@.len(),
            error == last_error(cmsgs@.take(i as int)),
            timestamp == last_timestamp(cmsgs@.take(i as int)),
        decreases cmsgs@.len() - i,
    {
        match cmsgs[i] {
            ControlMessage::Ipv4RecvErr(observed) => {
                error = Some(observed);
            },
            ControlMessage::Ipv6RecvErr(observed) => {
                error = Some(observed);
            },
            ControlMessage::ScmTimestampsns { system } => {
                timestamp = Some(system);
            },
            _ => {},
        }
        assert(cmsgs@.take(i as int + 1).drop_last() =~= cmsgs@.take(i as int));
        i += 1;
    }
    assert(cmsgs@.take(i as int) =~= cmsgs@);
    let error: ExtendedError = match error {
        Some(error) => error,
        None => {
            return ErrorQueueRecord::Ignored;
        },
    };
    if error.origin != timestamping_origin() {
        return ErrorQueueRecord::SocketError {
            errno: signed_errno(error.errno),
            origin: error.origin,
        };
    }
    if error.errno != enomsg || error.info != SCM_TSTAMP_SND {
        return ErrorQueueRecord::MalformedOrUnsupportedTimestamp;
    }
    match timestamp {
        Some(timespec) => match system_time_from_timespec(timespec) {
            Some(timestamp) => ErrorQueueRecord::TxTimestamp { id: error.data, timestamp },
            None => ErrorQueueRecord::MalformedOrUnsupportedTimestamp,
        },
        None => ErrorQueueRecord::MalformedOrUnsupportedTimestamp,
    }
}

/// `result` is what one read of the error queue comes to, with `enomsg` as the
/// error number of timestamping records.
pub open spec fn read_as(
    read: ErrorQueueRead,
    enomsg: u32,
    result: Result<Option<ErrorQueueRecord>, IoError>,
) -> bool {
    match read {
        ErrorQueueRead::Message { cmsgs: Some(cmsgs) } => result == Ok::<_, IoError>(
            Some(classification(cmsgs@, enomsg)),
        ),
        ErrorQueueRead::Message { cmsgs: None } => result matches Err(error) && error.kind
            == IoErrorKind::InvalidData && error.message@ == "invalid data"@,
        ErrorQueueRead::WouldBlock => result == Ok::<_, IoError>(None::<ErrorQueueRecord>),
        ErrorQueueRead::Interrupted => result == Ok::<_, IoError>(Some(ErrorQueueRecord::Ignored)),
        ErrorQueueRead::Failed { error } => result == Err::<Option<ErrorQueueRecord>, _>(error),
    }
}

/// What one read of the error queue means to a bounded drain, with the error
/// number of this architecture.
pub fn error_queue_record(read: ErrorQueueRead) -> (result: Result<Option<ErrorQueueRecord>, IoError>)
    ensures
        exists|enomsg: u32| #[trigger] is_enomsg(enomsg) && read_as(read, enomsg, result),
{
    error_queue_record_with(read, no_message_errno())
}

/// What one read of the error queue means to a bounded drain. `Ok(None)` ends
/// the drain: the queue is empty. An interrupted read neither ends it nor is an
/// error; it counts as one record that is ignored.
pub fn error_queue_record_with(read: ErrorQueueRead, enomsg: u32) -> (result: Result<
    Option<ErrorQueueRecord>,
    IoError,
>)
    ensures
        read_as(read, enomsg, result),
{
    match read {
        ErrorQueueRead::Message { cmsgs } => match cmsgs {
            Some(cmsgs) => Ok(Some(classify_with(&cmsgs, enomsg))),
            None => Err(
                IoError {
                    kind: IoErrorKind::InvalidData,
                    message: String::from_str("invalid data"),
                },
            ),
        },
        ErrorQueueRead::WouldBlock => Ok(None),
        ErrorQueueRead::Interrupted => Ok(Some(ErrorQueueRecord::Ignored)),
        ErrorQueueRead::Failed { error } => Err(error),
    }
}

/// A record whose extended error has the timestamping origin is never reported
/// as a socket error, whatever else it holds.
pub proof fn law_timestamp_origin_is_no_socket_error(
    cmsgs: Seq<ControlMessage>,
    enomsg: u32,
)
    requires
        last_error(cmsgs) matches Some(error) && error.origin == SO_EE_ORIGIN_TIMESTAMPING,
    ensures
        !(classification(cmsgs, enomsg) is SocketError),
        !(classification(cmsgs, enomsg) is Ignored),
{
}

proof fn lemma_last_error(cmsgs: Seq<ControlMessage>)
    ensures
        match last_error(cmsgs) {
            Some(error) => exists|i: int|
                0 <= i < cmsgs.len() && extended_error(#[trigger] cmsgs[i]) == Some(error),
            None => forall|i: int|
                0 <= i < cmsgs.len() ==> extended_error(#[trigger] cmsgs[i]) is None,
        },
    decreases cmsgs.len(),
{
    if cmsgs.len() > 0 && extended_error(cmsgs.last()) is None {
        let rest = cmsgs.drop_last();
        lemma_last_error(rest);
        match last_error(rest) {
            Some(error) => {
                let i = choose|i: int|
                    0 <= i < rest.len() && extended_error(#[trigger] rest[i]) == Some(error);
                assert(extended_error(cmsgs[i]) == Some(error));
            },
            None => {
                assert forall|i: int| 0 <= i < cmsgs.len() implies extended_error(
                    #[trigger] cmsgs[i],
                ) is None by {
                    if i < rest.len() {
                        assert(rest[i] == cmsgs[i]);
                    }
                }
            },
        }
    }
}

proof fn lemma_last_timestamp(cmsgs: Seq<ControlMessage>)
    ensures
        match last_timestamp(cmsgs) {
            Some(timestamp) => exists|i: int|
                0 <= i < cmsgs.len() && software_timestamp(#[trigger] cmsgs[i]) == Some(timestamp),
            None => forall|i: int|
                0 <= i < cmsgs.len() ==> software_timestamp(#[trigger] cmsgs[i]) is None,
        },
    decreases cmsgs.len(),
{
    if cmsgs.len() > 0 && software_timestamp(cmsgs.last()) is None {
        let rest = cmsgs.drop_last();
        lemma_last_timestamp(rest);
        match last_timestamp(rest) {
            Some(timestamp) => {
                let i = choose|i: int|
                    0 <= i < rest.len() && software_timestamp(#[trigger] rest[i]) == Some(
                        timestamp,
                    );
                assert(software_timestamp(cmsgs[i]) == Some(timestamp));
            },
            None => {
                assert forall|i: int| 0 <= i < cmsgs.len() implies software_timestamp(
                    #[trigger] cmsgs[i],
                ) is None by {
                    if i < rest.len() {
                        assert(rest[i] == cmsgs[i]);
                    }
                }
            },
        }
    }
}

/// The order of the control messages does not affect the classification, as
/// long as there is one extended error and one software timestamp at most.
pub proof fn law_order_does_not_matter(
    first: Seq<ControlMessage>,
    second: Seq<ControlMessage>,
    enomsg: u32,
)
    requires
        first.to_multiset() == second.to_multiset(),
        forall|i: int, j: int|
            0 <= i < first.len() && 0 <= j < first.len() && extended_error(#[trigger] first[i])
                is Some && extended_error(#[trigger] first[j]) is Some ==> i == j,
        forall|i: int, j: int|
            0 <= i < first.len() && 0 <= j < first.len() && software_timestamp(#[trigger] first[i])
                is Some && software_timestamp(#[trigger] first[j]) is Some ==> i == j,
    ensures
        classification(first, enomsg) == classification(second, enomsg),
{
    broadcast use vstd::seq_lib::group_to_multiset_ensures;

    lemma_last_error(first);
    lemma_last_error(second);
    lemma_last_timestamp(first);
    lemma_last_timestamp(second);
    assert forall|cmsg: ControlMessage| first.contains(cmsg) <==> second.contains(cmsg) by {
        assert(first.contains(cmsg) <==> first.to_multiset().count(cmsg) > 0);
        assert(second.contains(cmsg) <==> second.to_multiset().count(cmsg) > 0);
    }
    if let Some(error) = last_error(second) {
        let i = choose|i: int|
            0 <= i < second.len() && extended_error(#[trigger] second[i]) == Some(error);
        assert(first.contains(second[i]));
    }
    if let Some(error) = last_error(first) {
        let i = choose|i: int|
            0 <= i < first.len() && extended_error(#[trigger] first[i]) == Some(error);
        assert(second.contains(first[i]));
    }
    if let Some(timestamp) = last_timestamp(second) {
        let i = choose|i: int|
            0 <= i < second.len() && software_timestamp(#[trigger] second[i]) == Some(timestamp);
        assert(first.contains(second[i]));
    }
    if let Some(timestamp) = last_timestamp(first) {
        let i = choose|i: int|
            0 <= i < first.len() && software_timestamp(#[trigger] first[i]) == Some(timestamp);
        assert(second.contains(first[i]));
    }
}

/// A record is what its last extended error and its last software timestamp
/// make it: a send timestamp for the datagram that the error numbers where the
/// timestamping facility says so and the time is usable, a timestamping record
/// of no use where the facility says anything else, and a socket error where
/// the error is of any other origin.
pub proof fn law_record_is_classified(
    cmsgs: Seq<ControlMessage>,
    enomsg: u32,
    e: int,
    error: ExtendedError,
)
    requires
        0 <= e < cmsgs.len(),
        cmsgs[e] == ControlMessage::Ipv4RecvErr(error) || cmsgs[e] == ControlMessage::Ipv6RecvErr(
            error,
        ),
        forall|j: int|
            e < j < cmsgs.len() ==> !((#[trigger] cmsgs[j]) is Ipv4RecvErr) && !(cmsgs[j]
                is Ipv6RecvErr),
    ensures
        ({
            let record = classification(cmsgs, enomsg);
            let completes = error.origin == 4 && error.errno == enomsg && error.info == 0;
            &&& record is SocketError <==> error.origin != 4
            &&& record matches ErrorQueueRecord::SocketError { errno, origin } ==> origin
                == error.origin && errno == error.errno as i32
            &&& record is TxTimestamp ==> completes
            &&& !(record is Ignored)
            &&& record matches ErrorQueueRecord::TxTimestamp { id, timestamp } ==> id == error.data
                && exists|t: int| 0 <= t < cmsgs.len() && timed(#[trigger] cmsgs[t], timestamp)
        }),
        forall|t: int, time: SystemTime|
            0 <= t < cmsgs.len() && #[trigger] timed(cmsgs[t], time) && (forall|j: int|
                t < j < cmsgs.len() ==> !((#[trigger] cmsgs[j]) is ScmTimestampsns))
                && error.origin == 4 && error.errno == enomsg && error.info == 0
                ==> classification(cmsgs, enomsg) == (ErrorQueueRecord::TxTimestamp {
                id: error.data,
                timestamp: time,
            }),
{
    lemma_error_at(cmsgs, e, error);
    lemma_last_timestamp(cmsgs);
    if let Some(timespec) = last_timestamp(cmsgs) {
        let t = choose|t: int|
            0 <= t < cmsgs.len() && software_timestamp(#[trigger] cmsgs[t]) == Some(timespec);
        if let Some(time) = spec_system_time_from_timespec(timespec) {
            assert(timed(cmsgs[t], time));
        }
    }
    assert forall|t: int, time: SystemTime|
        0 <= t < cmsgs.len() && #[trigger] timed(cmsgs[t], time) && (forall|j: int|
            t < j < cmsgs.len() ==> !((#[trigger] cmsgs[j]) is ScmTimestampsns)) && error.origin
            == 4 && error.errno == enomsg && error.info == 0 implies classification(cmsgs, enomsg)
        == (ErrorQueueRecord::TxTimestamp { id: error.data, timestamp: time }) by {
        lemma_timestamp_at(cmsgs, t);
    }
}

/// The control message holds a software timestamp that names `time`.
pub open spec fn timed(cmsg: ControlMessage, time: SystemTime) -> bool {
    cmsg matches ControlMessage::ScmTimestampsns { system } && spec_system_time_from_timespec(system)
        == Some(time)
}

proof fn lemma_error_at(cmsgs: Seq<ControlMessage>, e: int, error: ExtendedError)
    requires
        0 <= e < cmsgs.len(),
        extended_error(cmsgs[e]) == Some(error),
        forall|j: int| e < j < cmsgs.len() ==> extended_error(#[trigger] cmsgs[j]) is None,
    ensures
        last_error(cmsgs) == Some(error),
    decreases cmsgs.len(),
{
    if e < cmsgs.len() - 1 {
        assert(extended_error(cmsgs[cmsgs.len() - 1]) is None);
        let rest = cmsgs.drop_last();
        assert forall|j: int| e < j < rest.len() implies extended_error(
            #[trigger] rest[j],
        ) is None by {
            assert(rest[j] == cmsgs[j]);
        }
        lemma_error_at(rest, e, error);
    }
}

proof fn lemma_timestamp_at(cmsgs: Seq<ControlMessage>, t: int)
    requires
        0 <= t < cmsgs.len(),
        cmsgs[t] is ScmTimestampsns,
        forall|j: int| t < j < cmsgs.len() ==> !((#[trigger] cmsgs[j]) is ScmTimestampsns),
    ensures
        last_timestamp(cmsgs) == Some(cmsgs[t]->system),
    decreases cmsgs.len(),
{
    if t < cmsgs.len() - 1 {
        assert(!(cmsgs[cmsgs.len() - 1] is ScmTimestampsns));
        let rest = cmsgs.drop_last();
        assert forall|j: int| t < j < rest.len() implies !((
        #[trigger] rest[j]) is ScmTimestampsns) by {
            assert(rest[j] == cmsgs[j]);
        }
        lemma_timestamp_at(rest, t);
    }
}

/// A record without an extended error is ignored.
pub proof fn law_record_without_error_is_ignored(cmsgs: Seq<ControlMessage>, enomsg: u32)
    requires
        forall|j: int|
            0 <= j < cmsgs.len() ==> !((#[trigger] cmsgs[j]) is Ipv4RecvErr) && !(cmsgs[j]
                is Ipv6RecvErr),
    ensures
        classification(cmsgs, enomsg) is Ignored,
{
    lemma_last_error(cmsgs);
}

/// A drain of the error queue ends where the queue is empty and fails where
/// reading fails or a record cannot be read. Anything else is a record.
pub proof fn law_read_goes_on_or_ends(
    read: ErrorQueueRead,
    enomsg: u32,
    result: Result<Option<ErrorQueueRecord>, IoError>,
)
    requires
        read_as(read, enomsg, result),
    ensures
        result is Ok && result->Ok_0 is None <==> read is WouldBlock,
        result is Err <==> read is Failed || (read matches ErrorQueueRead::Message { cmsgs }
            && cmsgs is None),
        read is Interrupted ==> result == Ok::<_, IoError>(Some(ErrorQueueRecord::Ignored)),
        read matches ErrorQueueRead::Failed { error } ==> result == Err::<
            Option<ErrorQueueRecord>,
            _,
        >(error),
{
}

} // verus!
