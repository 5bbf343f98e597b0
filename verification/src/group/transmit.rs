//! The stages of sending a probe or a close on the shared socket.
//!
//! Whatever may fail is tried before the datagram is handed to the network,
//! and nothing is committed unless it was.
use std::collections::TryReserveError;
use vstd::prelude::*;

use crate::error::{ClientError, IoError};
use crate::event::ClientEvent;
use crate::group::target::{CloseAttempt, ProbeAttempt, SentProbe, SessionFacts, TargetView};

verus! {

/// What is done next to send a probe.
#[derive(Debug, Clone, Copy, PartialEq, Eq, Structural)]
pub enum ProbeStage {
    /// Make sure that the session is open.
    EnsureOpen,
    /// Ask the schedule whether a probe may be sent now.
    Permit,
    /// Let the session prepare the next probe.
    Prepare,
    /// Check that the session will be able to commit it.
    PreflightSession,
    /// Check that the schedule will be able to commit it.
    PreflightSchedule,
    /// Reserve room for its report.
    Reserve,
    /// Fix the commit with the time of sending.
    Finalize,
    /// Hand the datagram to the network.
    Transmit,
    /// Commit the probe in the session and in the schedule.
    Commit,
}

/// What a stage came to.
#[derive(Debug)]
#[allow(inconsistent_fields)]
pub enum ProbeResult {
    Passed,
    /// There is no probe to send now.
    Declined,
    Failed { error: ClientError },
    NoRoom { source: TryReserveError },
    NotSent { error: IoError },
    Committed { probe: SentProbe },
}

/// How the attempt goes on.
#[derive(Debug)]
pub enum ProbeProgress {
    Next { stage: ProbeStage },
    Done { attempt: ProbeAttempt },
}

impl ProbeResult {
    /// `self` can come of `stage`.
    pub open spec fn fits(self, stage: ProbeStage) -> bool {
        match self {
            ProbeResult::Passed => stage != ProbeStage::Commit,
            ProbeResult::Declined => stage == ProbeStage::Permit || stage == ProbeStage::Prepare,
            ProbeResult::Failed { .. } => stage != ProbeStage::Permit && stage
                != ProbeStage::Reserve && stage != ProbeStage::Transmit && stage
                != ProbeStage::Commit,
            ProbeResult::NoRoom { .. } => stage == ProbeStage::Reserve,
            ProbeResult::NotSent { .. } => stage == ProbeStage::Transmit,
            ProbeResult::Committed { .. } => stage == ProbeStage::Commit,
        }
    }
}

/// The stage that follows `stage`.
pub open spec fn following(stage: ProbeStage) -> ProbeStage {
    match stage {
        ProbeStage::EnsureOpen => ProbeStage::Permit,
        ProbeStage::Permit => ProbeStage::Prepare,
        ProbeStage::Prepare => ProbeStage::PreflightSession,
        ProbeStage::PreflightSession => ProbeStage::PreflightSchedule,
        ProbeStage::PreflightSchedule => ProbeStage::Reserve,
        ProbeStage::Reserve => ProbeStage::Finalize,
        ProbeStage::Finalize => ProbeStage::Transmit,
        ProbeStage::Transmit => ProbeStage::Commit,
        ProbeStage::Commit => ProbeStage::Commit,
    }
}

pub open spec fn probe_progress(stage: ProbeStage, result: ProbeResult) -> ProbeProgress {
    match result {
        ProbeResult::Passed => ProbeProgress::Next { stage: following(stage) },
        ProbeResult::Declined => ProbeProgress::Done { attempt: ProbeAttempt::Skipped },
        ProbeResult::Failed { error } => ProbeProgress::Done {
            attempt: ProbeAttempt::Failed { error },
        },
        ProbeResult::NoRoom { source } => ProbeProgress::Done {
            attempt: ProbeAttempt::Failed {
                error: ClientError::AllocationFailed {
                    operation: "managed probe event result",
                    source,
                },
            },
        },
        ProbeResult::NotSent { error } => ProbeProgress::Done {
            attempt: ProbeAttempt::Failed { error: ClientError::Socket(error) },
        },
        ProbeResult::Committed { probe } => ProbeProgress::Done {
            attempt: ProbeAttempt::Sent { probe },
        },
    }
}

/// What follows a stage of sending a probe.
pub fn advance_probe(stage: ProbeStage, result: ProbeResult) -> (progress: ProbeProgress)
    requires
        result.fits(stage),
    ensures
        progress == probe_progress(stage, result),
{
    match result {
        ProbeResult::Passed => ProbeProgress::Next {
            stage: match stage {
                ProbeStage::EnsureOpen => ProbeStage::Permit,
                ProbeStage::Permit => ProbeStage::Prepare,
                ProbeStage::Prepare => ProbeStage::PreflightSession,
                ProbeStage::PreflightSession => ProbeStage::PreflightSchedule,
                ProbeStage::PreflightSchedule => ProbeStage::Reserve,
                ProbeStage::Reserve => ProbeStage::Finalize,
                ProbeStage::Finalize => ProbeStage::Transmit,
                _ => ProbeStage::Commit,
            },
        },
        ProbeResult::Declined => ProbeProgress::Done { attempt: ProbeAttempt::Skipped },
        ProbeResult::Failed { error } => ProbeProgress::Done {
            attempt: ProbeAttempt::Failed { error },
        },
        ProbeResult::NoRoom { source } => ProbeProgress::Done {
            attempt: ProbeAttempt::Failed {
                error: ClientError::AllocationFailed {
                    operation: "managed probe event result",
                    source,
                },
            },
        },
        ProbeResult::NotSent { error } => ProbeProgress::Done {
            attempt: ProbeAttempt::Failed { error: ClientError::Socket(error) },
        },
        ProbeResult::Committed { probe } => ProbeProgress::Done {
            attempt: ProbeAttempt::Sent { probe },
        },
    }
}

/// What is done next to close a session.
#[derive(Debug, Clone, Copy, PartialEq, Eq, Structural)]
pub enum CloseStage {
    /// Let the session prepare its close.
    Prepare,
    /// Reserve room for its report.
    Reserve,
    /// Hand the datagram to the network.
    Transmit,
    /// Commit the close in the session.
    Commit,
}

/// What a stage of closing came to.
#[derive(Debug)]
#[allow(inconsistent_fields)]
pub enum CloseResult {
    Passed,
    Failed { error: ClientError },
    NoRoom { source: TryReserveError },
    NotSent { error: IoError },
    Committed { expected_bytes: usize, bytes: usize, event: ClientEvent, session: SessionFacts },
}

/// How closing goes on.
#[derive(Debug)]
pub enum CloseProgress {
    Next { stage: CloseStage },
    Done { attempt: CloseAttempt },
}

impl CloseResult {
    /// `self` can come of `stage`.
    pub open spec fn fits(self, stage: CloseStage) -> bool {
        match self {
            CloseResult::Passed => stage != CloseStage::Commit,
            CloseResult::Failed { .. } => stage == CloseStage::Prepare,
            CloseResult::NoRoom { .. } => stage == CloseStage::Reserve,
            CloseResult::NotSent { .. } => stage == CloseStage::Transmit,
            CloseResult::Committed { .. } => stage == CloseStage::Commit,
        }
    }
}

pub open spec fn close_progress(stage: CloseStage, result: CloseResult) -> CloseProgress {
    match result {
        CloseResult::Passed => CloseProgress::Next {
            stage: match stage {
                CloseStage::Prepare => CloseStage::Reserve,
                CloseStage::Reserve => CloseStage::Transmit,
                _ => CloseStage::Commit,
            },
        },
        CloseResult::Failed { error } => CloseProgress::Done {
            attempt: CloseAttempt::PrepareFailed { error },
        },
        CloseResult::NoRoom { source } => CloseProgress::Done {
            attempt: CloseAttempt::ReserveFailed { source },
        },
        CloseResult::NotSent { error } => CloseProgress::Done {
            attempt: CloseAttempt::SendFailed { error },
        },
        CloseResult::Committed { expected_bytes, bytes, event, session } => CloseProgress::Done {
            attempt: CloseAttempt::Sent { expected_bytes, bytes, event, session },
        },
    }
}

/// What follows a stage of closing a session.
pub fn advance_close(stage: CloseStage, result: CloseResult) -> (progress: CloseProgress)
    requires
        result.fits(stage),
    ensures
        progress == close_progress(stage, result),
{
    match result {
        CloseResult::Passed => CloseProgress::Next {
            stage: match stage {
                CloseStage::Prepare => CloseStage::Reserve,
                CloseStage::Reserve => CloseStage::Transmit,
                _ => CloseStage::Commit,
            },
        },
        CloseResult::Failed { error } => CloseProgress::Done {
            attempt: CloseAttempt::PrepareFailed { error },
        },
        CloseResult::NoRoom { source } => CloseProgress::Done {
            attempt: CloseAttempt::ReserveFailed { source },
        },
        CloseResult::NotSent { error } => CloseProgress::Done {
            attempt: CloseAttempt::SendFailed { error },
        },
        CloseResult::Committed { expected_bytes, bytes, event, session } => CloseProgress::Done {
            attempt: CloseAttempt::Sent { expected_bytes, bytes, event, session },
        },
    }
}

/// A probe is committed, and a close is, only after its datagram was handed to
/// the network, and every such datagram is committed.
pub proof fn law_commit_follows_transmission(
    stage: ProbeStage,
    result: ProbeResult,
    close_stage: CloseStage,
    close_result: CloseResult,
)
    requires
        result.fits(stage),
        close_result.fits(close_stage),
    ensures
        probe_progress(stage, result) == (ProbeProgress::Next { stage: ProbeStage::Commit }) <==> (
        stage == ProbeStage::Transmit && result is Passed),
        (probe_progress(stage, result) matches ProbeProgress::Done { attempt } && attempt is Sent)
            <==> stage == ProbeStage::Commit,
        close_progress(close_stage, close_result) == (CloseProgress::Next {
            stage: CloseStage::Commit,
        }) <==> (close_stage == CloseStage::Transmit && close_result is Passed),
        (close_progress(close_stage, close_result) matches CloseProgress::Done { attempt }
            && attempt is Sent) <==> close_stage == CloseStage::Commit,
{
}

/// A probe that was not handed to the network leaves the session and the
/// schedule of its target as they were and reports nothing.
pub proof fn law_unsent_probe_changes_nothing(
    target: TargetView,
    stage: ProbeStage,
    result: ProbeResult,
)
    requires
        result.fits(stage),
        stage != ProbeStage::Commit,
    ensures
        probe_progress(stage, result) matches ProbeProgress::Done { attempt } ==> {
            let (after, reported) = target.probed(attempt);
            &&& after.session == target.session
            &&& after.schedule == target.schedule
            &&& reported.len() == 0
        },
{
}

} // verus!
