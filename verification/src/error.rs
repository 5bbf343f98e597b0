//! Failures of a client session.
use std::collections::TryReserveError;
use vstd::prelude::*;
use vstd::string::*;

use crate::net::SocketAddr;
use crate::text::{decimal, push_decimal};
use crate::timing::Duration;

verus! {

/// What an I/O operation failed with, as far as a decision depends on it.
#[derive(Debug, Clone, Copy, PartialEq, Eq, Structural)]
pub enum IoErrorKind {
    WouldBlock,
    TimedOut,
    Interrupted,
    InvalidData,
    Other,
}

/// A failed I/O operation and the text the system gave for it.
#[derive(Debug, Clone, PartialEq, Eq)]
pub struct IoError {
    pub kind: IoErrorKind,
    pub message: String,
}

/// A packet that the wire format refuses.
#[derive(Debug, Clone, PartialEq, Eq)]
pub enum ProtoError {
    BadMagic,
    Malformed { message: String },
}

/// Failure of a client session or of its configuration.
#[derive(Debug)]
#[allow(inconsistent_fields)]
pub enum ClientError {
    Resolve { addr: String },
    Socket(IoError),
    DatagramLengthMismatch { expected: usize, actual: usize },
    SocketOption { operation: &'static str, remote: SocketAddr, source: IoError },
    ReadTimeoutRestore { source: IoError },
    Protocol(ProtoError),
    ProtocolVersionMismatch { requested: i64, received: i64 },
    ZeroToken,
    UnexpectedNoTestReply,
    NonZeroNoTestToken { token: u64 },
    ServerRejected,
    NegotiationRejected { reason: String },
    OpenTimeout,
    InvalidConfig { reason: String },
    OpenTimeoutTooSmall { timeout: Duration, minimum: Duration },
    NoOpenTimeouts,
    AllocationFailed { operation: &'static str, source: TryReserveError },
    CounterOverflow { counter: &'static str },
    DurationOverflow,
    PendingLimitExceeded { limit: usize },
    NoTokioRuntime,
    NotOpen,
    AlreadyOpen,
    AlreadyCompleted,
    AlreadyClosed,
    StalePreparedProbe { prepared_seq: u32, next_wire_seq: u32 },
    PendingSequenceCollision { seq: u32 },
    WorkerPanicked,
}

/// `prefix` followed by `detail`.
fn joined(prefix: &str, detail: &str) -> (result: String)
    ensures
        result@ == prefix@ + detail@,
{
    let mut result = String::from_str(prefix);
    result.append(detail);
    result
}

/// `prefix` followed by the decimal digits of `value`.
fn numbered(prefix: &str, value: u64) -> (result: String)
    ensures
        result@ == prefix@ + decimal(value as nat),
{
    let mut result = String::from_str(prefix);
    push_decimal(&mut result, value);
    result
}

impl ProtoError {
    pub open spec fn text(self) -> Seq<char> {
        match self {
            ProtoError::BadMagic => "packet does not start with the protocol magic"@,
            ProtoError::Malformed { message } => message@,
        }
    }

    pub fn to_text(&self) -> (result: String)
        ensures
            result@ == self.text(),
    {
        match self {
            ProtoError::BadMagic => String::from_str("packet does not start with the protocol magic"),
            ProtoError::Malformed { message } => message.clone(),
        }
    }
}

impl ClientError {
    /// The sentence that describes this failure to a reader.
    pub open spec fn text(self) -> Seq<char> {
        match self {
            ClientError::Resolve { addr } => "failed to resolve server address "@ + addr@,
            ClientError::Socket(source) => "socket error: "@ + source.message@,
            ClientError::DatagramLengthMismatch { expected, actual } => "UDP accepted "@
                + decimal(actual as nat) + " of "@ + decimal(expected as nat) + " bytes"@,
            ClientError::SocketOption { operation, source, .. } => "socket option failed: "@
                + operation@ + ": "@ + source.message@,
            ClientError::ReadTimeoutRestore { source } => "failed to restore read timeout: "@
                + source.message@,
            ClientError::Protocol(source) => "protocol error: "@ + source.text(),
            ClientError::ProtocolVersionMismatch { .. } => "server answered with another protocol version"@,
            ClientError::ZeroToken => "server returned a zero session token"@,
            ClientError::UnexpectedNoTestReply => "server answered a test request without a test"@,
            ClientError::NonZeroNoTestToken { token } => "no-test reply carried session token "@
                + decimal(token as nat),
            ClientError::ServerRejected => "server rejected the session"@,
            ClientError::NegotiationRejected { reason } => "negotiation rejected: "@ + reason@,
            ClientError::OpenTimeout => "all open requests timed out"@,
            ClientError::InvalidConfig { reason } => "invalid configuration: "@ + reason@,
            ClientError::OpenTimeoutTooSmall { .. } => "open timeout is below the minimum"@,
            ClientError::NoOpenTimeouts => "at least one open timeout is required"@,
            ClientError::AllocationFailed { operation, .. } => "allocation failed for "@
                + operation@,
            ClientError::CounterOverflow { counter } => "counter overflow: "@ + counter@,
            ClientError::DurationOverflow => "duration overflow"@,
            ClientError::PendingLimitExceeded { limit } => "pending probe limit reached: "@
                + decimal(limit as nat),
            ClientError::NoTokioRuntime => "a current Tokio runtime is required"@,
            ClientError::NotOpen => "session is not open"@,
            ClientError::AlreadyOpen => "session is already open"@,
            ClientError::AlreadyCompleted => "session is already completed"@,
            ClientError::AlreadyClosed => "session is already closed"@,
            ClientError::StalePreparedProbe { prepared_seq, next_wire_seq } => "prepared probe "@
                + decimal(prepared_seq as nat) + " is stale; next is "@ + decimal(
                next_wire_seq as nat,
            ),
            ClientError::PendingSequenceCollision { seq } => "pending probe collision at sequence "@
                + decimal(seq as nat),
            ClientError::WorkerPanicked => "worker thread panicked"@,
        }
    }

    pub fn to_text(&self) -> (result: String)
        ensures
            result@ == self.text(),
    {
        match self {
            ClientError::Resolve { addr } => joined(
                "failed to resolve server address ",
                addr.as_str(),
            ),
            ClientError::Socket(source) => joined("socket error: ", source.message.as_str()),
            ClientError::DatagramLengthMismatch { expected, actual } => {
                let mut result = numbered("UDP accepted ", *actual as u64);
                result.append(" of ");
                push_decimal(&mut result, *expected as u64);
                result.append(" bytes");
                result
            },
            ClientError::SocketOption { operation, source, .. } => {
                let mut result = joined("socket option failed: ", operation);
                result.append(": ");
                result.append(source.message.as_str());
                result
            },
            ClientError::ReadTimeoutRestore { source } => joined(
                "failed to restore read timeout: ",
                source.message.as_str(),
            ),
            ClientError::Protocol(source) => {
                let detail = source.to_text();
                joined("protocol error: ", detail.as_str())
            },
            ClientError::ProtocolVersionMismatch { .. } => String::from_str(
                "server answered with another protocol version",
            ),
            ClientError::ZeroToken => String::from_str("server returned a zero session token"),
            ClientError::UnexpectedNoTestReply => String::from_str(
                "server answered a test request without a test",
            ),
            ClientError::NonZeroNoTestToken { token } => numbered(
                "no-test reply carried session token ",
                *token,
            ),
            ClientError::ServerRejected => String::from_str("server rejected the session"),
            ClientError::NegotiationRejected { reason } => joined(
                "negotiation rejected: ",
                reason.as_str(),
            ),
            ClientError::OpenTimeout => String::from_str("all open requests timed out"),
            ClientError::InvalidConfig { reason } => joined(
                "invalid configuration: ",
                reason.as_str(),
            ),
            ClientError::OpenTimeoutTooSmall { .. } => String::from_str(
                "open timeout is below the minimum",
            ),
            ClientError::NoOpenTimeouts => String::from_str(
                "at least one open timeout is required",
            ),
            ClientError::AllocationFailed { operation, .. } => joined(
                "allocation failed for ",
                operation,
            ),
            ClientError::CounterOverflow { counter } => joined("counter overflow: ", counter),
            ClientError::DurationOverflow => String::from_str("duration overflow"),
            ClientError::PendingLimitExceeded { limit } => numbered(
                "pending probe limit reached: ",
                *limit as u64,
            ),
            ClientError::NoTokioRuntime => String::from_str("a current Tokio runtime is required"),
            ClientError::NotOpen => String::from_str("session is not open"),
            ClientError::AlreadyOpen => String::from_str("session is already open"),
            ClientError::AlreadyCompleted => String::from_str("session is already completed"),
            ClientError::AlreadyClosed => String::from_str("session is already closed"),
            ClientError::StalePreparedProbe { prepared_seq, next_wire_seq } => {
                let mut result = numbered("prepared probe ", *prepared_seq as u64);
                result.append(" is stale; next is ");
                push_decimal(&mut result, *next_wire_seq as u64);
                result
            },
            ClientError::PendingSequenceCollision { seq } => numbered(
                "pending probe collision at sequence ",
                *seq as u64,
            ),
            ClientError::WorkerPanicked => String::from_str("worker thread panicked"),
        }
    }
}

} // verus!
