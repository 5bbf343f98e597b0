//! Configuration, events and outcomes of a group.
use std::collections::VecDeque;
use vstd::prelude::*;
use vstd::string::*;

use crate::config::{ClientAuthConfig, ClientConfig};
use crate::counting::bumped;
use crate::error::ClientError;
use crate::event::ClientEvent;
use crate::net::SocketAddr;

pub use crate::target_id::TargetId;

verus! {

/// Maximum number of recent target outcomes retained in a [`ManagedGroupOutcome`].
pub const MANAGED_GROUP_OUTCOME_HISTORY_LIMIT: usize = 256;

/// Configuration of one target of a group.
#[derive(Debug, PartialEq, Eq)]
pub struct ManagedTargetConfig {
    pub id: TargetId,
    /// Resolved address of the target.
    pub remote: SocketAddr,
    /// Authentication that overrides the group's for this target.
    pub auth: Option<ClientAuthConfig>,
}

pub ghost struct ConfigView {
    pub id: Seq<char>,
    pub remote: SocketAddr,
    pub auth: Option<Option<Seq<u8>>>,
}

pub open spec fn auth_view(auth: Option<ClientAuthConfig>) -> Option<Option<Seq<u8>>> {
    match auth {
        Some(auth) => Some(auth@),
        None => None,
    }
}

impl View for ManagedTargetConfig {
    type V = ConfigView;

    open spec fn view(&self) -> ConfigView {
        ConfigView { id: self.id@, remote: self.remote, auth: auth_view(self.auth) }
    }
}

impl ManagedTargetConfig {
    pub fn copy(&self) -> (result: ManagedTargetConfig)
        ensures
            result@ == self@,
    {
        ManagedTargetConfig {
            id: self.id.clone(),
            remote: self.remote,
            auth: match &self.auth {
                Some(auth) => Some(auth.copy()),
                None => None,
            },
        }
    }
}

pub open spec fn config_views(targets: Seq<ManagedTargetConfig>) -> Seq<ConfigView> {
    targets.map_values(|target: ManagedTargetConfig| target@)
}

/// Pacing of sends. Both modes keep an absolute cadence and skip slots that
/// were missed instead of sending them as a burst.
#[derive(Debug, Clone, Copy, PartialEq, Eq, Structural)]
pub enum ManagedGroupPacing {
    /// One active target at a time, spaced by an equal share of the interval.
    Staggered,
    /// Every active target back-to-back, once per interval.
    Burst,
}

impl Default for ManagedGroupPacing {
    fn default() -> (result: ManagedGroupPacing)
        ensures
            result == ManagedGroupPacing::Staggered,
    {
        ManagedGroupPacing::Staggered
    }
}

/// When a group completes on its own.
#[derive(Debug, Clone, Copy, PartialEq, Eq, Structural)]
pub enum ManagedGroupCompletionPolicy {
    /// Once all targets of a non-empty desired set have ended. An empty
    /// desired set leaves the group alive and idle.
    AllTargetsComplete,
    /// Never; the group stays alive until it is cancelled.
    ExplicitCancellation,
}

impl Default for ManagedGroupCompletionPolicy {
    fn default() -> (result: ManagedGroupCompletionPolicy)
        ensures
            result == ManagedGroupCompletionPolicy::AllTargetsComplete,
    {
        ManagedGroupCompletionPolicy::AllTargetsComplete
    }
}

/// Configuration of a group.
#[derive(Debug, PartialEq, Eq)]
pub struct ManagedClientGroupConfig {
    /// Template for the sessions of all targets. Its server address is not used.
    pub client: ClientConfig,
    pub pacing: ManagedGroupPacing,
    pub completion: ManagedGroupCompletionPolicy,
}

/// Category of a target's failure.
#[derive(Debug, Clone, Copy, PartialEq, Eq, Structural)]
pub enum ManagedTargetFailureKind {
    /// No valid open reply arrived before the configured attempts expired.
    OpeningTimeout,
    /// Opening failed during parsing, authentication or negotiation.
    OpeningProtocol,
    /// A socket or socket-option operation failed.
    Socket,
    /// Processing of an open session failed.
    RuntimeProtocol,
    /// The target or client configuration was invalid.
    InvalidConfiguration,
    /// A worker failed internally.
    InternalWorker,
}

impl ManagedTargetFailureKind {
    pub open spec fn text(self) -> Seq<char> {
        match self {
            ManagedTargetFailureKind::OpeningTimeout => "opening timeout"@,
            ManagedTargetFailureKind::OpeningProtocol => "opening protocol/authentication/negotiation"@,
            ManagedTargetFailureKind::Socket => "socket"@,
            ManagedTargetFailureKind::RuntimeProtocol => "runtime protocol"@,
            ManagedTargetFailureKind::InvalidConfiguration => "invalid configuration"@,
            ManagedTargetFailureKind::InternalWorker => "internal worker"@,
        }
    }

    pub fn to_text(&self) -> (result: String)
        ensures
            result@ == self.text(),
    {
        String::from_str(
            match self {
                ManagedTargetFailureKind::OpeningTimeout => "opening timeout",
                ManagedTargetFailureKind::OpeningProtocol => "opening protocol/authentication/negotiation",
                ManagedTargetFailureKind::Socket => "socket",
                ManagedTargetFailureKind::RuntimeProtocol => "runtime protocol",
                ManagedTargetFailureKind::InvalidConfiguration => "invalid configuration",
                ManagedTargetFailureKind::InternalWorker => "internal worker",
            },
        )
    }
}

/// Details of a target's failure.
#[derive(Debug, PartialEq, Eq)]
pub struct ManagedTargetFailure {
    pub kind: ManagedTargetFailureKind,
    pub message: String,
}

pub ghost struct FailureView {
    pub kind: ManagedTargetFailureKind,
    pub message: Seq<char>,
}

impl View for ManagedTargetFailure {
    type V = FailureView;

    open spec fn view(&self) -> FailureView {
        FailureView { kind: self.kind, message: self.message@ }
    }
}

impl Clone for ManagedTargetFailure {
    fn clone(&self) -> (result: ManagedTargetFailure)
        ensures
            result == *self,
    {
        ManagedTargetFailure { kind: self.kind, message: self.message.clone() }
    }
}

/// The category of an error, which for most errors depends on whether it came
/// while opening.
pub open spec fn target_failure_kind(error: ClientError, opening: bool) -> ManagedTargetFailureKind {
    match error {
        ClientError::OpenTimeout => ManagedTargetFailureKind::OpeningTimeout,
        ClientError::Socket(_) => ManagedTargetFailureKind::Socket,
        ClientError::SocketOption { .. } => ManagedTargetFailureKind::Socket,
        ClientError::ReadTimeoutRestore { .. } => ManagedTargetFailureKind::Socket,
        ClientError::InvalidConfig { .. } => ManagedTargetFailureKind::InvalidConfiguration,
        ClientError::OpenTimeoutTooSmall { .. } => ManagedTargetFailureKind::InvalidConfiguration,
        ClientError::NoOpenTimeouts => ManagedTargetFailureKind::InvalidConfiguration,
        ClientError::WorkerPanicked => ManagedTargetFailureKind::InternalWorker,
        _ => if opening {
            ManagedTargetFailureKind::OpeningProtocol
        } else {
            ManagedTargetFailureKind::RuntimeProtocol
        },
    }
}

pub fn classify_target_failure(error: &ClientError, opening: bool) -> (result:
    ManagedTargetFailureKind)
    ensures
        result == target_failure_kind(*error, opening),
{
    match error {
        ClientError::OpenTimeout => ManagedTargetFailureKind::OpeningTimeout,
        ClientError::Socket(_)
        | ClientError::SocketOption { .. }
        | ClientError::ReadTimeoutRestore { .. } => ManagedTargetFailureKind::Socket,
        ClientError::InvalidConfig { .. }
        | ClientError::OpenTimeoutTooSmall { .. }
        | ClientError::NoOpenTimeouts => ManagedTargetFailureKind::InvalidConfiguration,
        ClientError::WorkerPanicked => ManagedTargetFailureKind::InternalWorker,
        _ => if opening {
            ManagedTargetFailureKind::OpeningProtocol
        } else {
            ManagedTargetFailureKind::RuntimeProtocol
        },
    }
}

/// The failure that `error` stands for while opening.
pub open spec fn opening_failure(error: ClientError) -> FailureView {
    FailureView { kind: target_failure_kind(error, true), message: error.text() }
}

/// The failure that `error` stands for in an open session.
pub open spec fn runtime_failure(error: ClientError) -> FailureView {
    FailureView { kind: target_failure_kind(error, false), message: error.text() }
}

impl ManagedTargetFailure {
    pub fn opening(error: &ClientError) -> (result: ManagedTargetFailure)
        ensures
            result@ == opening_failure(*error),
    {
        ManagedTargetFailure {
            kind: classify_target_failure(error, true),
            message: error.to_text(),
        }
    }

    pub fn runtime(error: &ClientError) -> (result: ManagedTargetFailure)
        ensures
            result@ == runtime_failure(*error),
    {
        ManagedTargetFailure {
            kind: classify_target_failure(error, false),
            message: error.to_text(),
        }
    }
}

/// Why a target stopped.
#[derive(Debug, PartialEq, Eq)]
pub enum ManagedTargetEndReason {
    /// The negotiated finite test duration completed.
    TestComplete,
    /// Cancellation stopped the target.
    Cancelled,
    /// An update removed the target.
    Removed,
    /// The target completed an open exchange without a test.
    NoTestComplete,
    /// The server closed the session.
    PeerClosed,
    /// Opening failed before a session became active.
    OpenFailed(ManagedTargetFailure),
    /// Sending, receiving or closing failed.
    Failed(ManagedTargetFailure),
}

pub ghost enum EndReasonView {
    TestComplete,
    Cancelled,
    Removed,
    NoTestComplete,
    PeerClosed,
    OpenFailed(FailureView),
    Failed(FailureView),
}

impl View for ManagedTargetEndReason {
    type V = EndReasonView;

    open spec fn view(&self) -> EndReasonView {
        match self {
            ManagedTargetEndReason::TestComplete => EndReasonView::TestComplete,
            ManagedTargetEndReason::Cancelled => EndReasonView::Cancelled,
            ManagedTargetEndReason::Removed => EndReasonView::Removed,
            ManagedTargetEndReason::NoTestComplete => EndReasonView::NoTestComplete,
            ManagedTargetEndReason::PeerClosed => EndReasonView::PeerClosed,
            ManagedTargetEndReason::OpenFailed(failure) => EndReasonView::OpenFailed(failure@),
            ManagedTargetEndReason::Failed(failure) => EndReasonView::Failed(failure@),
        }
    }
}

impl EndReasonView {
    pub open spec fn success(self) -> bool {
        self is TestComplete || self is NoTestComplete || self is PeerClosed
    }

    pub open spec fn failed(self) -> bool {
        self is OpenFailed || self is Failed
    }
}

impl Clone for ManagedTargetEndReason {
    fn clone(&self) -> (result: ManagedTargetEndReason)
        ensures
            result == *self,
    {
        match self {
            ManagedTargetEndReason::TestComplete => ManagedTargetEndReason::TestComplete,
            ManagedTargetEndReason::Cancelled => ManagedTargetEndReason::Cancelled,
            ManagedTargetEndReason::Removed => ManagedTargetEndReason::Removed,
            ManagedTargetEndReason::NoTestComplete => ManagedTargetEndReason::NoTestComplete,
            ManagedTargetEndReason::PeerClosed => ManagedTargetEndReason::PeerClosed,
            ManagedTargetEndReason::OpenFailed(failure) => ManagedTargetEndReason::OpenFailed(
                failure.clone(),
            ),
            ManagedTargetEndReason::Failed(failure) => ManagedTargetEndReason::Failed(
                failure.clone(),
            ),
        }
    }
}

impl ManagedTargetEndReason {
    /// Whether the run completed successfully.
    pub fn is_success(&self) -> (result: bool)
        ensures
            result == self@.success(),
    {
        match self {
            ManagedTargetEndReason::TestComplete
            | ManagedTargetEndReason::NoTestComplete
            | ManagedTargetEndReason::PeerClosed => true,
            _ => false,
        }
    }

    /// Details of the failure, where the target failed.
    pub fn failure(&self) -> (result: Option<&ManagedTargetFailure>)
        ensures
            match *self {
                ManagedTargetEndReason::OpenFailed(failure) => result == Some(&failure),
                ManagedTargetEndReason::Failed(failure) => result == Some(&failure),
                _ => result is None,
            },
            result is Some <==> self@.failed(),
    {
        match self {
            ManagedTargetEndReason::OpenFailed(failure) | ManagedTargetEndReason::Failed(failure) =>
                Some(failure),
            _ => None,
        }
    }
}

/// Outcome of one target.
#[derive(Debug, PartialEq, Eq)]
pub struct ManagedTargetOutcome {
    pub id: TargetId,
    pub remote: SocketAddr,
    pub end_reason: ManagedTargetEndReason,
    pub packets_sent: u64,
    pub replies_received: u64,
    pub duplicates: u64,
    pub late: u64,
    pub warning_events: u64,
}

pub ghost struct OutcomeView {
    pub id: Seq<char>,
    pub remote: SocketAddr,
    pub end_reason: EndReasonView,
    pub packets_sent: u64,
    pub replies_received: u64,
    pub duplicates: u64,
    pub late: u64,
    pub warning_events: u64,
}

impl View for ManagedTargetOutcome {
    type V = OutcomeView;

    open spec fn view(&self) -> OutcomeView {
        OutcomeView {
            id: self.id@,
            remote: self.remote,
            end_reason: self.end_reason@,
            packets_sent: self.packets_sent,
            replies_received: self.replies_received,
            duplicates: self.duplicates,
            late: self.late,
            warning_events: self.warning_events,
        }
    }
}

impl Clone for ManagedTargetOutcome {
    fn clone(&self) -> (result: ManagedTargetOutcome)
        ensures
            result == *self,
    {
        ManagedTargetOutcome {
            id: self.id.clone(),
            remote: self.remote,
            end_reason: self.end_reason.clone(),
            packets_sent: self.packets_sent,
            replies_received: self.replies_received,
            duplicates: self.duplicates,
            late: self.late,
            warning_events: self.warning_events,
        }
    }
}

impl ManagedTargetOutcome {
    pub fn is_success(&self) -> (result: bool)
        ensures
            result == self@.end_reason.success(),
    {
        self.end_reason.is_success()
    }
}

/// An event of one target's session.
#[derive(Debug, PartialEq, Eq)]
pub struct TargetEvent {
    pub target: TargetId,
    pub event: ClientEvent,
}

impl Clone for TargetEvent {
    fn clone(&self) -> (result: TargetEvent)
        ensures
            result == *self,
    {
        TargetEvent { target: self.target.clone(), event: self.event.clone() }
    }
}

/// Event of a group. The events of a target's session are followed by exactly
/// one report of its outcome.
#[derive(Debug, PartialEq, Eq)]
pub enum ManagedGroupEvent {
    Client(TargetEvent),
    TargetFinished(ManagedTargetOutcome),
}

pub ghost enum GroupEventView {
    Client { target: Seq<char>, event: ClientEvent },
    TargetFinished { outcome: OutcomeView },
}

impl View for ManagedGroupEvent {
    type V = GroupEventView;

    open spec fn view(&self) -> GroupEventView {
        match self {
            ManagedGroupEvent::Client(event) => GroupEventView::Client {
                target: event.target@,
                event: event.event,
            },
            ManagedGroupEvent::TargetFinished(outcome) => GroupEventView::TargetFinished {
                outcome: outcome@,
            },
        }
    }
}

impl Clone for ManagedGroupEvent {
    fn clone(&self) -> (result: ManagedGroupEvent)
        ensures
            result == *self,
    {
        match self {
            ManagedGroupEvent::Client(event) => ManagedGroupEvent::Client(event.clone()),
            ManagedGroupEvent::TargetFinished(outcome) => ManagedGroupEvent::TargetFinished(
                outcome.clone(),
            ),
        }
    }
}

impl ManagedGroupEvent {
    /// The target of the event.
    pub fn target(&self) -> (result: &TargetId)
        ensures
            result@ == (match self@ {
                GroupEventView::Client { target, .. } => target,
                GroupEventView::TargetFinished { outcome } => outcome.id,
            }),
    {
        match self {
            ManagedGroupEvent::Client(event) => &event.target,
            ManagedGroupEvent::TargetFinished(outcome) => &outcome.id,
        }
    }
}

/// Why a group stopped.
#[derive(Debug, Clone, Copy, PartialEq, Eq, Structural)]
pub enum ManagedGroupEndReason {
    AllTargetsComplete,
    Cancelled,
}

/// Outcome of a group.
#[must_use]
#[derive(Debug, PartialEq, Eq)]
pub struct ManagedGroupOutcome {
    pub end_reason: ManagedGroupEndReason,
    /// The most recent target outcomes, in completion order.
    pub targets: Vec<ManagedTargetOutcome>,
    pub total_target_outcomes: u64,
    pub successful_target_outcomes: u64,
    /// How many targets ended because the peer closed the session. They count
    /// as successful too.
    pub peer_closed_target_outcomes: u64,
    pub failed_target_outcomes: u64,
    /// How many older outcomes are not in the list.
    pub discarded_target_outcomes: u64,
}

pub open spec fn outcome_views(outcomes: Seq<ManagedTargetOutcome>) -> Seq<OutcomeView> {
    outcomes.map_values(|outcome: ManagedTargetOutcome| outcome@)
}

/// Record of the outcomes of a group's targets.
#[derive(Debug)]
pub struct TargetOutcomeHistory {
    recent: VecDeque<ManagedTargetOutcome>,
    total: u64,
    successful: u64,
    peer_closed: u64,
    failed: u64,
    discarded: u64,
}

pub ghost struct GroupHistoryView {
    pub recent: Seq<OutcomeView>,
    pub total: u64,
    pub successful: u64,
    pub peer_closed: u64,
    pub failed: u64,
    pub discarded: u64,
}

impl GroupHistoryView {
    pub open spec fn empty() -> GroupHistoryView {
        GroupHistoryView {
            recent: Seq::empty(),
            total: 0,
            successful: 0,
            peer_closed: 0,
            failed: 0,
            discarded: 0,
        }
    }

    /// The history with `outcome` added. A removed or cancelled target is
    /// neither successful nor failed.
    pub open spec fn recorded(self, outcome: OutcomeView) -> GroupHistoryView {
        let full = self.recent.len() == MANAGED_GROUP_OUTCOME_HISTORY_LIMIT;
        GroupHistoryView {
            recent: if full {
                self.recent.drop_first().push(outcome)
            } else {
                self.recent.push(outcome)
            },
            total: bumped(self.total),
            successful: if outcome.end_reason.success() {
                bumped(self.successful)
            } else {
                self.successful
            },
            peer_closed: if outcome.end_reason is PeerClosed {
                bumped(self.peer_closed)
            } else {
                self.peer_closed
            },
            failed: if outcome.end_reason.failed() {
                bumped(self.failed)
            } else {
                self.failed
            },
            discarded: if full {
                bumped(self.discarded)
            } else {
                self.discarded
            },
        }
    }

    /// Counts and retained outcomes agree, as long as no count has stopped at
    /// `u64::MAX`.
    pub open spec fn consistent(self) -> bool {
        &&& self.recent.len() <= MANAGED_GROUP_OUTCOME_HISTORY_LIMIT
        &&& self.total < u64::MAX ==> {
            &&& self.successful + self.failed <= self.total
            &&& self.peer_closed <= self.successful
            &&& self.total == self.discarded + self.recent.len()
        }
    }
}

/// Peer closes are counted although their outcomes may no longer be retained,
/// and no eviction disturbs a count.
pub proof fn law_group_history_survives_eviction(history: GroupHistoryView, outcome: OutcomeView)
    requires
        history.consistent(),
    ensures
        history.recorded(outcome).consistent(),
        history.recorded(outcome).recent.last() == outcome,
        history.recorded(outcome).peer_closed >= history.peer_closed,
        history.recorded(outcome).total >= history.total,
        GroupHistoryView::empty().consistent(),
{
}

impl TargetOutcomeHistory {
    pub closed spec fn view(&self) -> GroupHistoryView {
        GroupHistoryView {
            recent: outcome_views(self.recent@),
            total: self.total,
            successful: self.successful,
            peer_closed: self.peer_closed,
            failed: self.failed,
            discarded: self.discarded,
        }
    }

    pub fn new() -> (result: TargetOutcomeHistory)
        ensures
            result@ == GroupHistoryView::empty(),
    {
        let result = TargetOutcomeHistory {
            recent: VecDeque::new(),
            total: 0,
            successful: 0,
            peer_closed: 0,
            failed: 0,
            discarded: 0,
        };
        assert(result@.recent =~= Seq::<OutcomeView>::empty());
        result
    }

    pub fn record(&mut self, outcome: ManagedTargetOutcome)
        ensures
            final(self)@ == old(self)@.recorded(outcome@),
    {
        self.total = self.total.saturating_add(1);
        if outcome.is_success() {
            self.successful = self.successful.saturating_add(1);
        }
        if let ManagedTargetEndReason::PeerClosed = &outcome.end_reason {
            self.peer_closed = self.peer_closed.saturating_add(1);
        }
        if outcome.end_reason.failure().is_some() {
            self.failed = self.failed.saturating_add(1);
        }
        if self.recent.len() == MANAGED_GROUP_OUTCOME_HISTORY_LIMIT {
            let _ = self.recent.pop_front();
            self.discarded = self.discarded.saturating_add(1);
        }
        self.recent.push_back(outcome);
        assert(self@.recent =~= old(self)@.recorded(outcome@).recent);
    }

    /// The outcome of a group that stops for `end_reason`.
    pub fn into_group_outcome(self, end_reason: ManagedGroupEndReason) -> (result:
        ManagedGroupOutcome)
        ensures
            result.end_reason == end_reason,
            outcome_views(result.targets@) == self@.recent,
            result.total_target_outcomes == self@.total,
            result.successful_target_outcomes == self@.successful,
            result.peer_closed_target_outcomes == self@.peer_closed,
            result.failed_target_outcomes == self@.failed,
            result.discarded_target_outcomes == self@.discarded,
    {
        let mut targets: Vec<ManagedTargetOutcome> = Vec::new();
        let mut i: usize = 0;
        while i < self.recent.len()
            invariant
                i <= self.recent@.len(),
                targets@ == self.recent@.take(i as int),
            decreases self.recent@.len() - i,
        {
            targets.push(self.recent[i].clone());
            assert(self.recent@.take(i as int).push(self.recent@[i as int]) =~= self.recent@.take(
                i as int + 1,
            ));
            i += 1;
        }
        assert(self.recent@.take(i as int) =~= self.recent@);
        ManagedGroupOutcome {
            end_reason,
            targets,
            total_target_outcomes: self.total,
            successful_target_outcomes: self.successful,
            peer_closed_target_outcomes: self.peer_closed,
            failed_target_outcomes: self.failed,
            discarded_target_outcomes: self.discarded,
        }
    }
}

/// A failure falls under a category for what went wrong. Where it came while a
/// session was opened matters only for what the peer said or a session met.
pub proof fn law_failures_fall_under_their_cause(error: ClientError, opening: bool)
    ensures
        ({
            let kind = target_failure_kind(error, opening);
            let specific = target_failure_kind(error, true) == target_failure_kind(error, false);
            &&& kind is OpeningTimeout <==> error is OpenTimeout
            &&& kind is Socket <==> error is Socket || error is SocketOption
                || error is ReadTimeoutRestore
            &&& kind is InvalidConfiguration <==> error is InvalidConfig
                || error is OpenTimeoutTooSmall || error is NoOpenTimeouts
            &&& kind is InternalWorker <==> error is WorkerPanicked
            &&& !specific ==> (kind is OpeningProtocol <==> opening) && (kind is RuntimeProtocol
                <==> !opening)
            &&& specific <==> error is OpenTimeout || error is Socket || error is SocketOption
                || error is ReadTimeoutRestore || error is InvalidConfig
                || error is OpenTimeoutTooSmall || error is NoOpenTimeouts
                || error is WorkerPanicked
            &&& opening_failure(error) == (FailureView {
                kind: target_failure_kind(error, true),
                message: error.text(),
            })
            &&& runtime_failure(error) == (FailureView {
                kind: target_failure_kind(error, false),
                message: error.text(),
            })
        }),
{
}

/// No two categories of failures are written alike.
pub proof fn law_failures_are_told_apart(
    one: ManagedTargetFailureKind,
    other: ManagedTargetFailureKind,
)
    ensures
        one.text() == other.text() ==> one == other,
{
    reveal_strlit("opening timeout");
    reveal_strlit("opening protocol/authentication/negotiation");
    reveal_strlit("socket");
    reveal_strlit("runtime protocol");
    reveal_strlit("invalid configuration");
    reveal_strlit("internal worker");
    if one.text() == other.text() {
        assert(one.text().len() == other.text().len());
        assert(one.text()[0] == other.text()[0]);
    }
}

/// A target that ended is successful, failed, or was told to end. It is not two
/// of these.
pub proof fn law_ends_are_successful_failed_or_wanted(reason: ManagedTargetEndReason)
    ensures
        reason@.success() <==> reason is TestComplete || reason is NoTestComplete
            || reason is PeerClosed,
        reason@.failed() <==> reason is OpenFailed || reason is Failed,
        !reason@.success() && !reason@.failed() <==> reason is Cancelled || reason is Removed,
        reason is TestComplete <==> reason@ is TestComplete,
        reason is NoTestComplete <==> reason@ is NoTestComplete,
        reason is PeerClosed <==> reason@ is PeerClosed,
        reason is Cancelled <==> reason@ is Cancelled,
        reason is Removed <==> reason@ is Removed,
        reason matches ManagedTargetEndReason::OpenFailed(failure) ==> reason@
            == EndReasonView::OpenFailed(failure@),
        reason matches ManagedTargetEndReason::Failed(failure) ==> reason@
            == EndReasonView::Failed(failure@),
{
}

/// What is said of a target's configuration and end is what the fields say,
/// each of its own.
pub proof fn law_targets_are_seen_as_they_are(
    config: ManagedTargetConfig,
    failure: ManagedTargetFailure,
    outcome: ManagedTargetOutcome,
    event: ManagedGroupEvent,
)
    ensures
        config@.id == config.id@ && config@.remote == config.remote,
        config.auth is None <==> config@.auth is None,
        config.auth matches Some(auth) ==> config@.auth == Some(auth@),
        failure@.kind == failure.kind && failure@.message == failure.message@,
        outcome@.id == outcome.id@ && outcome@.remote == outcome.remote,
        outcome@.end_reason == outcome.end_reason@,
        outcome@.packets_sent == outcome.packets_sent,
        outcome@.replies_received == outcome.replies_received,
        outcome@.duplicates == outcome.duplicates && outcome@.late == outcome.late,
        outcome@.warning_events == outcome.warning_events,
        event matches ManagedGroupEvent::Client(inner) ==> event@ == (GroupEventView::Client {
            target: inner.target@,
            event: inner.event,
        }),
        event matches ManagedGroupEvent::TargetFinished(outcome) ==> event@ == (
        GroupEventView::TargetFinished { outcome: outcome@ }),
{
}

} // verus!
