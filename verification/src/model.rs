//! Configuration, status and outcomes of a managed task.
use vstd::prelude::*;
use vstd::string::*;

use crate::config::{ClientAuthConfig, ClientConfig, ClientConfigView};
use crate::error::ClientError;
use crate::event::ClientEvent;
use crate::net::SocketAddr;
use crate::target_id::TargetId;
use crate::timing::Duration;

verus! {

/// Default capacity of the lossy managed event channel.
pub const DEFAULT_MANAGED_EVENT_CAPACITY: usize = 256;

/// Default capacity of the bounded managed control queue.
pub const DEFAULT_MANAGED_COMMAND_CAPACITY: usize = 64;

/// Default number of recent target outcomes retained in status and output.
pub const DEFAULT_MANAGED_OUTCOME_HISTORY_LIMIT: usize = 256;

/// Default maximum number of simultaneously live target generations.
pub const DEFAULT_MANAGED_MAX_LIVE_TARGET_GENERATIONS: usize = 256;

/// Default time, in nanoseconds, retained for late replies after the final
/// committed timeout.
pub const DEFAULT_MANAGED_FINAL_DRAIN: u128 = 100_000_000;

/// One incarnation of a target. Generations increase across the whole task,
/// not independently for each identifier.
#[derive(Debug, PartialEq, Eq, PartialOrd, Ord, Hash)]
pub struct TargetInstance {
    pub id: TargetId,
    pub generation: u64,
}

pub ghost struct InstanceView {
    pub id: Seq<char>,
    pub generation: u64,
}

impl View for TargetInstance {
    type V = InstanceView;

    open spec fn view(&self) -> InstanceView {
        InstanceView { id: self.id@, generation: self.generation }
    }
}

impl Clone for TargetInstance {
    fn clone(&self) -> (result: TargetInstance)
        ensures
            result == *self,
    {
        TargetInstance { id: self.id.clone(), generation: self.generation }
    }
}

/// Endpoint and optional authentication override for one managed target.
#[derive(Debug, PartialEq, Eq)]
pub struct ManagedTargetConfig {
    pub id: TargetId,
    pub server_addr: String,
    pub auth: Option<ClientAuthConfig>,
}

pub ghost struct TargetConfigView {
    pub id: Seq<char>,
    pub server_addr: Seq<char>,
    pub auth: Option<Option<Seq<u8>>>,
}

impl View for ManagedTargetConfig {
    type V = TargetConfigView;

    open spec fn view(&self) -> TargetConfigView {
        TargetConfigView {
            id: self.id@,
            server_addr: self.server_addr@,
            auth: match self.auth {
                Some(auth) => Some(auth@),
                None => None,
            },
        }
    }
}

impl ManagedTargetConfig {
    pub fn new(id: TargetId, server_addr: String) -> (result: ManagedTargetConfig)
        ensures
            result@ == (TargetConfigView { id: id@, server_addr: server_addr@, auth: None }),
    {
        ManagedTargetConfig { id, server_addr, auth: None }
    }

    /// Whether both configure the same target in the same way.
    pub fn same(&self, other: &ManagedTargetConfig) -> (result: bool)
        ensures
            result == (self@ == other@),
    {
        self.id.same(&other.id) && self.server_addr == other.server_addr && match (
            &self.auth,
            &other.auth,
        ) {
            (Some(first), Some(second)) => first.same(second),
            (None, None) => true,
            _ => false,
        }
    }

    pub fn copy(&self) -> (result: ManagedTargetConfig)
        ensures
            result@ == self@,
    {
        ManagedTargetConfig {
            id: self.id.clone(),
            server_addr: self.server_addr.clone(),
            auth: match &self.auth {
                Some(auth) => Some(auth.copy()),
                None => None,
            },
        }
    }
}

/// Coordination of sends across active targets.
#[derive(Debug, Clone, Copy, PartialEq, Eq, Structural)]
pub enum ManagedPacing {
    Staggered,
    Burst,
}

impl Default for ManagedPacing {
    fn default() -> (result: ManagedPacing)
        ensures
            result == ManagedPacing::Staggered,
    {
        ManagedPacing::Staggered
    }
}

/// When a task completes on its own.
#[derive(Debug, Clone, Copy, PartialEq, Eq, Structural)]
pub enum ManagedCompletionPolicy {
    FinishWhenQuiescent,
    ExplicitStop,
}

impl Default for ManagedCompletionPolicy {
    fn default() -> (result: ManagedCompletionPolicy)
        ensures
            result == ManagedCompletionPolicy::FinishWhenQuiescent,
    {
        ManagedCompletionPolicy::FinishWhenQuiescent
    }
}

/// Shared configuration of one managed task.
#[derive(Debug, PartialEq, Eq)]
pub struct ManagedClientConfig {
    pub client: ClientConfig,
    pub pacing: ManagedPacing,
    pub completion: ManagedCompletionPolicy,
    pub event_capacity: usize,
    pub command_capacity: usize,
    pub outcome_history_limit: usize,
    pub max_live_target_generations: usize,
    pub final_drain: Duration,
}

pub ghost struct ManagedClientConfigView {
    pub client: ClientConfigView,
    pub pacing: ManagedPacing,
    pub completion: ManagedCompletionPolicy,
    pub event_capacity: usize,
    pub command_capacity: usize,
    pub outcome_history_limit: usize,
    pub max_live_target_generations: usize,
    pub final_drain: Duration,
}

impl View for ManagedClientConfig {
    type V = ManagedClientConfigView;

    open spec fn view(&self) -> ManagedClientConfigView {
        ManagedClientConfigView {
            client: self.client@,
            pacing: self.pacing,
            completion: self.completion,
            event_capacity: self.event_capacity,
            command_capacity: self.command_capacity,
            outcome_history_limit: self.outcome_history_limit,
            max_live_target_generations: self.max_live_target_generations,
            final_drain: self.final_drain,
        }
    }
}

impl ManagedClientConfig {
    /// The default task configuration around the session configuration `client`.
    pub fn new(client: ClientConfig) -> (result: ManagedClientConfig)
        ensures
            result.client == client,
            result.pacing == ManagedPacing::Staggered,
            result.completion == ManagedCompletionPolicy::FinishWhenQuiescent,
            result.event_capacity == DEFAULT_MANAGED_EVENT_CAPACITY,
            result.command_capacity == DEFAULT_MANAGED_COMMAND_CAPACITY,
            result.outcome_history_limit == DEFAULT_MANAGED_OUTCOME_HISTORY_LIMIT,
            result.max_live_target_generations == DEFAULT_MANAGED_MAX_LIVE_TARGET_GENERATIONS,
            result.final_drain.nanos == DEFAULT_MANAGED_FINAL_DRAIN,
    {
        ManagedClientConfig {
            client,
            pacing: ManagedPacing::default(),
            completion: ManagedCompletionPolicy::default(),
            event_capacity: DEFAULT_MANAGED_EVENT_CAPACITY,
            command_capacity: DEFAULT_MANAGED_COMMAND_CAPACITY,
            outcome_history_limit: DEFAULT_MANAGED_OUTCOME_HISTORY_LIMIT,
            max_live_target_generations: DEFAULT_MANAGED_MAX_LIVE_TARGET_GENERATIONS,
            final_drain: Duration { nanos: DEFAULT_MANAGED_FINAL_DRAIN },
        }
    }
}

/// Lifecycle of the whole task.
#[derive(Debug, Clone, Copy, PartialEq, Eq, Structural)]
pub enum ManagedLifecycle {
    NotStarted,
    Running,
    Stopping,
    Completed,
    Failed,
    Abandoned,
}

/// Lifecycle of one target generation.
#[derive(Debug, Clone, Copy, PartialEq, Eq, Structural)]
pub enum ManagedTargetLifecycle {
    Pending,
    Connecting,
    Opening,
    Active,
    Draining,
    Closing,
    Terminal,
}

/// Phase in which a target-local failure occurred.
#[derive(Debug, Clone, Copy, PartialEq, Eq, Structural)]
pub enum ManagedTargetFailurePhase {
    Connecting,
    Opening,
    Sending,
    Receiving,
    Timing,
    Closing,
}

impl ManagedTargetFailurePhase {
    pub open spec fn text(self) -> Seq<char> {
        match self {
            ManagedTargetFailurePhase::Connecting => "connecting"@,
            ManagedTargetFailurePhase::Opening => "opening"@,
            ManagedTargetFailurePhase::Sending => "sending"@,
            ManagedTargetFailurePhase::Receiving => "receiving"@,
            ManagedTargetFailurePhase::Timing => "timing"@,
            ManagedTargetFailurePhase::Closing => "closing"@,
        }
    }

    pub fn to_text(&self) -> (result: String)
        ensures
            result@ == self.text(),
    {
        String::from_str(
            match self {
                ManagedTargetFailurePhase::Connecting => "connecting",
                ManagedTargetFailurePhase::Opening => "opening",
                ManagedTargetFailurePhase::Sending => "sending",
                ManagedTargetFailurePhase::Receiving => "receiving",
                ManagedTargetFailurePhase::Timing => "timing",
                ManagedTargetFailurePhase::Closing => "closing",
            },
        )
    }
}

/// Stable category of a target-local failure.
#[derive(Debug, Clone, Copy, PartialEq, Eq, Structural)]
pub enum ManagedTargetFailureKind {
    Resolve,
    Socket,
    SocketOption,
    Protocol,
    Timeout,
    Configuration,
    ResourceExhausted,
    InvalidState,
    /// A failure that deliberately has no more specific category. Nothing
    /// reaches it by default: every client error is classified explicitly.
    Other,
}

impl ManagedTargetFailureKind {
    pub open spec fn text(self) -> Seq<char> {
        match self {
            ManagedTargetFailureKind::Resolve => "resolve"@,
            ManagedTargetFailureKind::Socket => "socket"@,
            ManagedTargetFailureKind::SocketOption => "socket option"@,
            ManagedTargetFailureKind::Protocol => "protocol"@,
            ManagedTargetFailureKind::Timeout => "timeout"@,
            ManagedTargetFailureKind::Configuration => "configuration"@,
            ManagedTargetFailureKind::ResourceExhausted => "resource exhausted"@,
            ManagedTargetFailureKind::InvalidState => "invalid state"@,
            ManagedTargetFailureKind::Other => "other"@,
        }
    }

    pub fn to_text(&self) -> (result: String)
        ensures
            result@ == self.text(),
    {
        String::from_str(
            match self {
                ManagedTargetFailureKind::Resolve => "resolve",
                ManagedTargetFailureKind::Socket => "socket",
                ManagedTargetFailureKind::SocketOption => "socket option",
                ManagedTargetFailureKind::Protocol => "protocol",
                ManagedTargetFailureKind::Timeout => "timeout",
                ManagedTargetFailureKind::Configuration => "configuration",
                ManagedTargetFailureKind::ResourceExhausted => "resource exhausted",
                ManagedTargetFailureKind::InvalidState => "invalid state",
                ManagedTargetFailureKind::Other => "other",
            },
        )
    }
}

/// Durable details of a target-local failure.
#[derive(Debug, PartialEq, Eq)]
pub struct ManagedTargetFailure {
    pub phase: ManagedTargetFailurePhase,
    pub kind: ManagedTargetFailureKind,
    pub message: String,
}

pub ghost struct FailureView {
    pub phase: ManagedTargetFailurePhase,
    pub kind: ManagedTargetFailureKind,
    pub message: Seq<char>,
}

impl View for ManagedTargetFailure {
    type V = FailureView;

    open spec fn view(&self) -> FailureView {
        FailureView { phase: self.phase, kind: self.kind, message: self.message@ }
    }
}

impl Clone for ManagedTargetFailure {
    fn clone(&self) -> (result: ManagedTargetFailure)
        ensures
            result == *self,
    {
        ManagedTargetFailure { phase: self.phase, kind: self.kind, message: self.message.clone() }
    }
}

/// The view of an optional failure.
pub open spec fn failure_view(failure: Option<ManagedTargetFailure>) -> Option<FailureView> {
    match failure {
        Some(failure) => Some(failure@),
        None => None,
    }
}

/// Why one target generation ended.
#[derive(Debug, PartialEq, Eq)]
pub enum ManagedTargetEndReason {
    TestComplete,
    NoTestComplete,
    PeerClosed,
    Removed,
    Replaced,
    Stopped,
    Failed(ManagedTargetFailure),
}

pub ghost enum EndReasonView {
    TestComplete,
    NoTestComplete,
    PeerClosed,
    Removed,
    Replaced,
    Stopped,
    Failed(FailureView),
}

impl View for ManagedTargetEndReason {
    type V = EndReasonView;

    open spec fn view(&self) -> EndReasonView {
        match self {
            ManagedTargetEndReason::TestComplete => EndReasonView::TestComplete,
            ManagedTargetEndReason::NoTestComplete => EndReasonView::NoTestComplete,
            ManagedTargetEndReason::PeerClosed => EndReasonView::PeerClosed,
            ManagedTargetEndReason::Removed => EndReasonView::Removed,
            ManagedTargetEndReason::Replaced => EndReasonView::Replaced,
            ManagedTargetEndReason::Stopped => EndReasonView::Stopped,
            ManagedTargetEndReason::Failed(failure) => EndReasonView::Failed(failure@),
        }
    }
}

impl Clone for ManagedTargetEndReason {
    fn clone(&self) -> (result: ManagedTargetEndReason)
        ensures
            result == *self,
    {
        match self {
            ManagedTargetEndReason::TestComplete => ManagedTargetEndReason::TestComplete,
            ManagedTargetEndReason::NoTestComplete => ManagedTargetEndReason::NoTestComplete,
            ManagedTargetEndReason::PeerClosed => ManagedTargetEndReason::PeerClosed,
            ManagedTargetEndReason::Removed => ManagedTargetEndReason::Removed,
            ManagedTargetEndReason::Replaced => ManagedTargetEndReason::Replaced,
            ManagedTargetEndReason::Stopped => ManagedTargetEndReason::Stopped,
            ManagedTargetEndReason::Failed(failure) => ManagedTargetEndReason::Failed(
                failure.clone(),
            ),
        }
    }
}

/// Status of one target generation.
#[derive(Debug, PartialEq, Eq)]
pub struct ManagedTargetStatus {
    pub target: TargetInstance,
    pub desired: bool,
    pub lifecycle: ManagedTargetLifecycle,
    pub server_addr: String,
    pub remote: Option<SocketAddr>,
}

pub ghost struct TargetStatusView {
    pub target: InstanceView,
    pub desired: bool,
    pub lifecycle: ManagedTargetLifecycle,
    pub server_addr: Seq<char>,
    pub remote: Option<SocketAddr>,
}

impl View for ManagedTargetStatus {
    type V = TargetStatusView;

    open spec fn view(&self) -> TargetStatusView {
        TargetStatusView {
            target: self.target@,
            desired: self.desired,
            lifecycle: self.lifecycle,
            server_addr: self.server_addr@,
            remote: self.remote,
        }
    }
}

/// Durable outcome of one target generation.
#[derive(Debug, PartialEq, Eq)]
pub struct ManagedTargetOutcome {
    pub target: TargetInstance,
    pub server_addr: String,
    pub remote: Option<SocketAddr>,
    pub end_reason: ManagedTargetEndReason,
    pub packets_sent: u64,
    pub replies_received: u64,
    pub duplicates: u64,
    pub late: u64,
    pub warning_events: u64,
    pub cleanup_failure: Option<ManagedTargetFailure>,
}

pub ghost struct OutcomeView {
    pub target: InstanceView,
    pub server_addr: Seq<char>,
    pub remote: Option<SocketAddr>,
    pub end_reason: EndReasonView,
    pub packets_sent: u64,
    pub replies_received: u64,
    pub duplicates: u64,
    pub late: u64,
    pub warning_events: u64,
    pub cleanup_failure: Option<FailureView>,
}

impl View for ManagedTargetOutcome {
    type V = OutcomeView;

    open spec fn view(&self) -> OutcomeView {
        OutcomeView {
            target: self.target@,
            server_addr: self.server_addr@,
            remote: self.remote,
            end_reason: self.end_reason@,
            packets_sent: self.packets_sent,
            replies_received: self.replies_received,
            duplicates: self.duplicates,
            late: self.late,
            warning_events: self.warning_events,
            cleanup_failure: failure_view(self.cleanup_failure),
        }
    }
}

impl Clone for ManagedTargetOutcome {
    fn clone(&self) -> (result: ManagedTargetOutcome)
        ensures
            result == *self,
    {
        ManagedTargetOutcome {
            target: self.target.clone(),
            server_addr: self.server_addr.clone(),
            remote: self.remote,
            end_reason: self.end_reason.clone(),
            packets_sent: self.packets_sent,
            replies_received: self.replies_received,
            duplicates: self.duplicates,
            late: self.late,
            warning_events: self.warning_events,
            cleanup_failure: match &self.cleanup_failure {
                Some(failure) => Some(failure.clone()),
                None => None,
            },
        }
    }
}

/// The views of a list of outcomes.
pub open spec fn outcome_views(outcomes: Seq<ManagedTargetOutcome>) -> Seq<OutcomeView> {
    outcomes.map_values(|outcome: ManagedTargetOutcome| outcome@)
}

/// Failure of the whole driver.
#[derive(Debug, PartialEq, Eq)]
pub enum ManagedDriverFailure {
    NoTokioRuntime,
    ResourceExhausted { operation: &'static str },
    Internal { message: String },
}

impl Clone for ManagedDriverFailure {
    fn clone(&self) -> (result: ManagedDriverFailure)
        ensures
            result == *self,
    {
        match self {
            ManagedDriverFailure::NoTokioRuntime => ManagedDriverFailure::NoTokioRuntime,
            ManagedDriverFailure::ResourceExhausted { operation } =>
                ManagedDriverFailure::ResourceExhausted { operation: *operation },
            ManagedDriverFailure::Internal { message } => ManagedDriverFailure::Internal {
                message: message.clone(),
            },
        }
    }
}

/// Why the managed task ended.
#[derive(Debug, PartialEq, Eq)]
pub enum ManagedEndReason {
    TargetsComplete,
    StopRequested,
    DriverFailed(ManagedDriverFailure),
}

impl Clone for ManagedEndReason {
    fn clone(&self) -> (result: ManagedEndReason)
        ensures
            result == *self,
    {
        match self {
            ManagedEndReason::TargetsComplete => ManagedEndReason::TargetsComplete,
            ManagedEndReason::StopRequested => ManagedEndReason::StopRequested,
            ManagedEndReason::DriverFailed(failure) => ManagedEndReason::DriverFailed(
                failure.clone(),
            ),
        }
    }
}

/// Final authoritative outcome of the task.
#[derive(Debug, PartialEq, Eq)]
pub struct ManagedOutcome {
    pub end_reason: ManagedEndReason,
    pub applied_command_sequence: u64,
    pub total_target_outcomes: u64,
    pub successful_target_outcomes: u64,
    pub failed_target_outcomes: u64,
    pub peer_closed_target_outcomes: u64,
    pub discarded_target_outcomes: u64,
    pub recent_target_outcomes: Vec<ManagedTargetOutcome>,
}

pub ghost struct ManagedOutcomeView {
    pub end_reason: ManagedEndReason,
    pub applied_command_sequence: u64,
    pub total_target_outcomes: u64,
    pub successful_target_outcomes: u64,
    pub failed_target_outcomes: u64,
    pub peer_closed_target_outcomes: u64,
    pub discarded_target_outcomes: u64,
    pub recent_target_outcomes: Seq<OutcomeView>,
}

impl View for ManagedOutcome {
    type V = ManagedOutcomeView;

    open spec fn view(&self) -> ManagedOutcomeView {
        ManagedOutcomeView {
            end_reason: self.end_reason,
            applied_command_sequence: self.applied_command_sequence,
            total_target_outcomes: self.total_target_outcomes,
            successful_target_outcomes: self.successful_target_outcomes,
            failed_target_outcomes: self.failed_target_outcomes,
            peer_closed_target_outcomes: self.peer_closed_target_outcomes,
            discarded_target_outcomes: self.discarded_target_outcomes,
            recent_target_outcomes: outcome_views(self.recent_target_outcomes@),
        }
    }
}

pub fn copy_outcomes(outcomes: &Vec<ManagedTargetOutcome>) -> (result: Vec<ManagedTargetOutcome>)
    ensures
        result@ == outcomes@,
{
    let mut result: Vec<ManagedTargetOutcome> = Vec::new();
    let mut i: usize = 0;
    while i < outcomes.len()
        invariant
            i <= outcomes@.len(),
            result@ == outcomes@.take(i as int),
        decreases outcomes@.len() - i,
    {
        result.push(outcomes[i].clone());
        assert(outcomes@.take(i as int).push(outcomes@[i as int]) =~= outcomes@.take(i as int + 1));
        i += 1;
    }
    assert(outcomes@.take(i as int) =~= outcomes@);
    result
}

impl ManagedOutcome {
    pub fn copy(&self) -> (result: ManagedOutcome)
        ensures
            result@ == self@,
    {
        ManagedOutcome {
            end_reason: self.end_reason.clone(),
            applied_command_sequence: self.applied_command_sequence,
            total_target_outcomes: self.total_target_outcomes,
            successful_target_outcomes: self.successful_target_outcomes,
            failed_target_outcomes: self.failed_target_outcomes,
            peer_closed_target_outcomes: self.peer_closed_target_outcomes,
            discarded_target_outcomes: self.discarded_target_outcomes,
            recent_target_outcomes: copy_outcomes(&self.recent_target_outcomes),
        }
    }
}

/// The view of an optional task outcome.
pub open spec fn managed_outcome_view(outcome: Option<ManagedOutcome>) -> Option<
    ManagedOutcomeView,
> {
    match outcome {
        Some(outcome) => Some(outcome@),
        None => None,
    }
}

/// Authoritative immutable snapshot of a managed task.
#[derive(Debug, PartialEq, Eq)]
pub struct ManagedStatus {
    pub lifecycle: ManagedLifecycle,
    pub stop_requested: bool,
    pub applied_command_sequence: u64,
    pub desired_target_count: usize,
    pub connecting_target_count: usize,
    pub opening_target_count: usize,
    pub active_target_count: usize,
    pub draining_target_count: usize,
    pub closing_target_count: usize,
    pub terminal_target_count: usize,
    pub total_target_outcomes: u64,
    pub successful_target_outcomes: u64,
    pub failed_target_outcomes: u64,
    pub peer_closed_target_outcomes: u64,
    pub discarded_target_outcomes: u64,
    pub targets: Vec<ManagedTargetStatus>,
    pub recent_target_outcomes: Vec<ManagedTargetOutcome>,
    pub final_outcome: Option<ManagedOutcome>,
}

pub ghost struct StatusView {
    pub lifecycle: ManagedLifecycle,
    pub stop_requested: bool,
    pub applied_command_sequence: u64,
    pub desired_target_count: nat,
    pub connecting_target_count: nat,
    pub opening_target_count: nat,
    pub active_target_count: nat,
    pub draining_target_count: nat,
    pub closing_target_count: nat,
    pub terminal_target_count: nat,
    pub total_target_outcomes: u64,
    pub successful_target_outcomes: u64,
    pub failed_target_outcomes: u64,
    pub peer_closed_target_outcomes: u64,
    pub discarded_target_outcomes: u64,
    pub targets: Seq<TargetStatusView>,
    pub recent_target_outcomes: Seq<OutcomeView>,
    pub final_outcome: Option<ManagedOutcomeView>,
}

impl View for ManagedStatus {
    type V = StatusView;

    open spec fn view(&self) -> StatusView {
        StatusView {
            lifecycle: self.lifecycle,
            stop_requested: self.stop_requested,
            applied_command_sequence: self.applied_command_sequence,
            desired_target_count: self.desired_target_count as nat,
            connecting_target_count: self.connecting_target_count as nat,
            opening_target_count: self.opening_target_count as nat,
            active_target_count: self.active_target_count as nat,
            draining_target_count: self.draining_target_count as nat,
            closing_target_count: self.closing_target_count as nat,
            terminal_target_count: self.terminal_target_count as nat,
            total_target_outcomes: self.total_target_outcomes,
            successful_target_outcomes: self.successful_target_outcomes,
            failed_target_outcomes: self.failed_target_outcomes,
            peer_closed_target_outcomes: self.peer_closed_target_outcomes,
            discarded_target_outcomes: self.discarded_target_outcomes,
            targets: self.targets@.map_values(|status: ManagedTargetStatus| status@),
            recent_target_outcomes: outcome_views(self.recent_target_outcomes@),
            final_outcome: managed_outcome_view(self.final_outcome),
        }
    }
}

/// Lossy presentation event of the managed task.
#[derive(Debug, PartialEq, Eq)]
#[allow(inconsistent_fields)]
pub enum ManagedEvent {
    Started,
    TargetStateChanged { target: TargetInstance, lifecycle: ManagedTargetLifecycle },
    Client { target: TargetInstance, event: ClientEvent },
    TargetFinished { outcome: ManagedTargetOutcome },
    Stopping,
    Completed { outcome: ManagedOutcome },
    Failed { outcome: ManagedOutcome },
    Abandoned,
}

#[allow(inconsistent_fields)]
pub ghost enum EventView {
    Started,
    TargetStateChanged { target: InstanceView, lifecycle: ManagedTargetLifecycle },
    Client { target: InstanceView, event: ClientEvent },
    TargetFinished { outcome: OutcomeView },
    Stopping,
    Completed { outcome: ManagedOutcomeView },
    Failed { outcome: ManagedOutcomeView },
    Abandoned,
}

impl View for ManagedEvent {
    type V = EventView;

    open spec fn view(&self) -> EventView {
        match self {
            ManagedEvent::Started => EventView::Started,
            ManagedEvent::TargetStateChanged { target, lifecycle } =>
                EventView::TargetStateChanged { target: target@, lifecycle: *lifecycle },
            ManagedEvent::Client { target, event } => EventView::Client {
                target: target@,
                event: *event,
            },
            ManagedEvent::TargetFinished { outcome } => EventView::TargetFinished {
                outcome: outcome@,
            },
            ManagedEvent::Stopping => EventView::Stopping,
            ManagedEvent::Completed { outcome } => EventView::Completed { outcome: outcome@ },
            ManagedEvent::Failed { outcome } => EventView::Failed { outcome: outcome@ },
            ManagedEvent::Abandoned => EventView::Abandoned,
        }
    }
}

/// Configuration failure found before any work begins.
#[derive(Debug)]
#[allow(inconsistent_fields)]
pub enum ManagedConfigError {
    EmptyInitialTargets,
    DuplicateTargetId { id: TargetId },
    TooManyTargets { configured: usize, limit: usize },
    ZeroEventCapacity,
    EventCapacityTooLarge { configured: usize, maximum: usize },
    ZeroCommandCapacity,
    CommandCapacityTooLarge { configured: usize, maximum: usize },
    ZeroLiveGenerationLimit,
    UnschedulableFinalDrain { duration: Duration },
    InvalidTarget { id: TargetId, source: ClientError },
    GenerationExhausted,
}

/// Immediate failure to submit a managed target update.
#[derive(Debug, Clone, Copy, PartialEq, Eq, Structural)]
pub enum ManagedCommandError {
    Stopping,
    TooManyTargets { configured: usize, limit: usize },
    QueueFull,
    DriverClosed,
}

/// Failure while applying an accepted managed target update.
#[derive(Debug)]
pub enum ManagedCommandApplyError {
    Stopping,
    DuplicateTargetId { id: TargetId },
    InvalidTarget { id: TargetId, source: ClientError },
    LiveGenerationLimitExceeded { required: usize, limit: usize },
    GenerationExhausted,
    CommandSequenceExhausted,
    AcknowledgementDisconnected,
    DriverFailed(ManagedDriverFailure),
}

/// Proof that an update was applied, with the status right after it.
#[derive(Debug, PartialEq, Eq)]
pub struct ManagedCommandAcknowledgement {
    pub sequence: u64,
    pub status: ManagedStatus,
}

/// Failure to create a new event subscription.
#[derive(Debug, Clone, Copy, PartialEq, Eq, Structural)]
pub enum ManagedSubscribeError {
    Closed,
}

/// The category of each client error.
pub open spec fn failure_kind(error: ClientError) -> ManagedTargetFailureKind {
    match error {
        ClientError::Resolve { .. } => ManagedTargetFailureKind::Resolve,
        ClientError::Socket(_) => ManagedTargetFailureKind::Socket,
        ClientError::DatagramLengthMismatch { .. } => ManagedTargetFailureKind::Socket,
        ClientError::SocketOption { .. } => ManagedTargetFailureKind::SocketOption,
        ClientError::ReadTimeoutRestore { .. } => ManagedTargetFailureKind::SocketOption,
        ClientError::Protocol(_) => ManagedTargetFailureKind::Protocol,
        ClientError::ProtocolVersionMismatch { .. } => ManagedTargetFailureKind::Protocol,
        ClientError::ZeroToken => ManagedTargetFailureKind::Protocol,
        ClientError::UnexpectedNoTestReply => ManagedTargetFailureKind::Protocol,
        ClientError::NonZeroNoTestToken { .. } => ManagedTargetFailureKind::Protocol,
        ClientError::ServerRejected => ManagedTargetFailureKind::Protocol,
        ClientError::NegotiationRejected { .. } => ManagedTargetFailureKind::Protocol,
        ClientError::OpenTimeout => ManagedTargetFailureKind::Timeout,
        ClientError::InvalidConfig { .. } => ManagedTargetFailureKind::Configuration,
        ClientError::OpenTimeoutTooSmall { .. } => ManagedTargetFailureKind::Configuration,
        ClientError::NoOpenTimeouts => ManagedTargetFailureKind::Configuration,
        ClientError::AllocationFailed { .. } => ManagedTargetFailureKind::ResourceExhausted,
        ClientError::CounterOverflow { .. } => ManagedTargetFailureKind::ResourceExhausted,
        ClientError::DurationOverflow => ManagedTargetFailureKind::ResourceExhausted,
        ClientError::PendingLimitExceeded { .. } => ManagedTargetFailureKind::ResourceExhausted,
        ClientError::NoTokioRuntime => ManagedTargetFailureKind::InvalidState,
        ClientError::NotOpen => ManagedTargetFailureKind::InvalidState,
        ClientError::AlreadyOpen => ManagedTargetFailureKind::InvalidState,
        ClientError::AlreadyCompleted => ManagedTargetFailureKind::InvalidState,
        ClientError::AlreadyClosed => ManagedTargetFailureKind::InvalidState,
        ClientError::StalePreparedProbe { .. } => ManagedTargetFailureKind::InvalidState,
        ClientError::PendingSequenceCollision { .. } => ManagedTargetFailureKind::InvalidState,
        ClientError::WorkerPanicked => ManagedTargetFailureKind::InvalidState,
    }
}

/// The failure that `error` stands for when it occurs in `phase`.
pub open spec fn classified(phase: ManagedTargetFailurePhase, error: ClientError) -> FailureView {
    FailureView { phase, kind: failure_kind(error), message: error.text() }
}

/// Maps a client error onto its durable failure. The match names every
/// variant, so that a new one cannot degrade to
/// [`ManagedTargetFailureKind::Other`] unnoticed.
pub fn classify_client_error(phase: ManagedTargetFailurePhase, error: &ClientError) -> (result:
    ManagedTargetFailure)
    ensures
        result@ == classified(phase, *error),
{
    let kind = match error {
        ClientError::Resolve { .. } => ManagedTargetFailureKind::Resolve,
        ClientError::Socket(_) => ManagedTargetFailureKind::Socket,
        ClientError::SocketOption { .. } | ClientError::ReadTimeoutRestore { .. } =>
            ManagedTargetFailureKind::SocketOption,
        ClientError::Protocol(_)
        | ClientError::ProtocolVersionMismatch { .. }
        | ClientError::ZeroToken
        | ClientError::UnexpectedNoTestReply
        | ClientError::NonZeroNoTestToken { .. }
        | ClientError::ServerRejected
        | ClientError::NegotiationRejected { .. } => ManagedTargetFailureKind::Protocol,
        ClientError::OpenTimeout => ManagedTargetFailureKind::Timeout,
        ClientError::InvalidConfig { .. }
        | ClientError::OpenTimeoutTooSmall { .. }
        | ClientError::NoOpenTimeouts => ManagedTargetFailureKind::Configuration,
        ClientError::AllocationFailed { .. }
        | ClientError::CounterOverflow { .. }
        | ClientError::DurationOverflow
        | ClientError::PendingLimitExceeded { .. } => ManagedTargetFailureKind::ResourceExhausted,
        ClientError::DatagramLengthMismatch { .. } => ManagedTargetFailureKind::Socket,
        ClientError::NoTokioRuntime => ManagedTargetFailureKind::InvalidState,
        ClientError::NotOpen
        | ClientError::AlreadyOpen
        | ClientError::AlreadyCompleted
        | ClientError::AlreadyClosed
        | ClientError::StalePreparedProbe { .. }
        | ClientError::PendingSequenceCollision { .. }
        | ClientError::WorkerPanicked => ManagedTargetFailureKind::InvalidState,
    };
    ManagedTargetFailure { phase, kind, message: error.to_text() }
}

/// Classification keeps the reported phase and the error's text, and never
/// falls back to [`ManagedTargetFailureKind::Other`].
pub proof fn law_classification_is_explicit(phase: ManagedTargetFailurePhase, error: ClientError)
    ensures
        classified(phase, error).phase == phase,
        classified(phase, error).message == error.text(),
        classified(phase, error).kind != ManagedTargetFailureKind::Other,
{
}

/// A failure falls under a category for what went wrong: looking the server up,
/// the socket, one of its options, what the peer said, the time that opening
/// took, the configuration, what ran out, or the state of the session.
pub proof fn law_failures_fall_under_their_cause(error: ClientError)
    ensures
        failure_kind(error) is Resolve <==> error is Resolve,
        failure_kind(error) is Socket <==> error is Socket || error is DatagramLengthMismatch,
        failure_kind(error) is SocketOption <==> error is SocketOption
            || error is ReadTimeoutRestore,
        failure_kind(error) is Protocol <==> error is Protocol || error is ProtocolVersionMismatch
            || error is ZeroToken || error is UnexpectedNoTestReply || error is NonZeroNoTestToken
            || error is ServerRejected || error is NegotiationRejected,
        failure_kind(error) is Timeout <==> error is OpenTimeout,
        failure_kind(error) is Configuration <==> error is InvalidConfig
            || error is OpenTimeoutTooSmall || error is NoOpenTimeouts,
        failure_kind(error) is ResourceExhausted <==> error is AllocationFailed
            || error is CounterOverflow || error is DurationOverflow
            || error is PendingLimitExceeded,
        failure_kind(error) is InvalidState <==> error is NoTokioRuntime || error is NotOpen
            || error is AlreadyOpen || error is AlreadyCompleted || error is AlreadyClosed
            || error is StalePreparedProbe || error is PendingSequenceCollision
            || error is WorkerPanicked,
{
}

/// No two phases are written alike, and no two categories.
pub proof fn law_failures_are_told_apart(
    first: ManagedTargetFailurePhase,
    second: ManagedTargetFailurePhase,
    one: ManagedTargetFailureKind,
    other: ManagedTargetFailureKind,
)
    ensures
        first.text() == second.text() ==> first == second,
        one.text() == other.text() ==> one == other,
{
    reveal_strlit("connecting");
    reveal_strlit("opening");
    reveal_strlit("sending");
    reveal_strlit("receiving");
    reveal_strlit("timing");
    reveal_strlit("closing");
    reveal_strlit("resolve");
    reveal_strlit("socket");
    reveal_strlit("socket option");
    reveal_strlit("protocol");
    reveal_strlit("timeout");
    reveal_strlit("configuration");
    reveal_strlit("resource exhausted");
    reveal_strlit("invalid state");
    reveal_strlit("other");
    if first.text() == second.text() {
        assert(first.text()[0] == second.text()[0]);
        assert(first.text().len() == second.text().len());
        assert(first.text()[1] == second.text()[1]);
        assert(first.text()[2] == second.text()[2]);
    }
    if one.text() == other.text() {
        assert(one.text()[0] == other.text()[0]);
        assert(one.text().len() == other.text().len());
        assert(one.text()[2] == other.text()[2]);
    }
}

/// What is said of a target's configuration, state and end is what the fields
/// say, each of its own.
pub proof fn law_targets_are_seen_as_they_are(
    instance: TargetInstance,
    config: ManagedTargetConfig,
    status: ManagedTargetStatus,
    failure: ManagedTargetFailure,
    outcome: ManagedTargetOutcome,
)
    ensures
        instance@.id == instance.id@ && instance@.generation == instance.generation,
        config@.id == config.id@ && config@.server_addr == config.server_addr@,
        config.auth is None <==> config@.auth is None,
        config.auth matches Some(auth) ==> config@.auth == Some(auth@),
        status@.target == status.target@ && status@.desired == status.desired,
        status@.lifecycle == status.lifecycle && status@.server_addr == status.server_addr@,
        status@.remote == status.remote,
        failure@.phase == failure.phase && failure@.kind == failure.kind,
        failure@.message == failure.message@,
        outcome@.target == outcome.target@ && outcome@.server_addr == outcome.server_addr@,
        outcome@.remote == outcome.remote && outcome@.end_reason == outcome.end_reason@,
        outcome@.packets_sent == outcome.packets_sent,
        outcome@.replies_received == outcome.replies_received,
        outcome@.duplicates == outcome.duplicates && outcome@.late == outcome.late,
        outcome@.warning_events == outcome.warning_events,
        outcome.cleanup_failure is None <==> outcome@.cleanup_failure is None,
        outcome.cleanup_failure matches Some(failure) ==> outcome@.cleanup_failure == Some(failure@),
{
}

/// Different reasons to end are seen as different reasons.
pub proof fn law_end_reasons_are_told_apart(
    first: ManagedTargetEndReason,
    second: ManagedTargetEndReason,
)
    ensures
        first@ == second@ ==> {
            &&& first is TestComplete <==> second is TestComplete
            &&& first is NoTestComplete <==> second is NoTestComplete
            &&& first is PeerClosed <==> second is PeerClosed
            &&& first is Removed <==> second is Removed
            &&& first is Replaced <==> second is Replaced
            &&& first is Stopped <==> second is Stopped
            &&& first is Failed <==> second is Failed
            &&& first is Failed ==> first->0@ == second->0@
        },
        first is TestComplete <==> first@ is TestComplete,
        first is NoTestComplete <==> first@ is NoTestComplete,
        first is PeerClosed <==> first@ is PeerClosed,
        first is Removed <==> first@ is Removed,
        first is Replaced <==> first@ is Replaced,
        first is Stopped <==> first@ is Stopped,
        first matches ManagedTargetEndReason::Failed(failure) ==> first@ == EndReasonView::Failed(
            failure@,
        ),
{
}

/// What is said of a task's configuration, status and end is what the fields
/// say, each of its own.
pub proof fn law_tasks_are_seen_as_they_are(
    config: ManagedClientConfig,
    outcome: ManagedOutcome,
    status: ManagedStatus,
)
    ensures
        config@.client == config.client@ && config@.pacing == config.pacing,
        config@.completion == config.completion,
        config@.event_capacity == config.event_capacity,
        config@.command_capacity == config.command_capacity,
        config@.outcome_history_limit == config.outcome_history_limit,
        config@.max_live_target_generations == config.max_live_target_generations,
        config@.final_drain == config.final_drain,
        outcome@.end_reason == outcome.end_reason,
        outcome@.applied_command_sequence == outcome.applied_command_sequence,
        outcome@.total_target_outcomes == outcome.total_target_outcomes,
        outcome@.successful_target_outcomes == outcome.successful_target_outcomes,
        outcome@.failed_target_outcomes == outcome.failed_target_outcomes,
        outcome@.peer_closed_target_outcomes == outcome.peer_closed_target_outcomes,
        outcome@.discarded_target_outcomes == outcome.discarded_target_outcomes,
        outcome@.recent_target_outcomes.len() == outcome.recent_target_outcomes@.len(),
        forall|i: int|
            0 <= i < outcome.recent_target_outcomes@.len() ==> (
            #[trigger] outcome@.recent_target_outcomes[i]) == outcome.recent_target_outcomes@[i]@,
        status@.lifecycle == status.lifecycle && status@.stop_requested == status.stop_requested,
        status@.applied_command_sequence == status.applied_command_sequence,
        status@.desired_target_count == status.desired_target_count,
        status@.connecting_target_count == status.connecting_target_count,
        status@.opening_target_count == status.opening_target_count,
        status@.active_target_count == status.active_target_count,
        status@.draining_target_count == status.draining_target_count,
        status@.closing_target_count == status.closing_target_count,
        status@.terminal_target_count == status.terminal_target_count,
        status@.total_target_outcomes == status.total_target_outcomes,
        status@.successful_target_outcomes == status.successful_target_outcomes,
        status@.failed_target_outcomes == status.failed_target_outcomes,
        status@.peer_closed_target_outcomes == status.peer_closed_target_outcomes,
        status@.discarded_target_outcomes == status.discarded_target_outcomes,
        status@.targets.len() == status.targets@.len(),
        forall|i: int|
            0 <= i < status.targets@.len() ==> (#[trigger] status@.targets[i])
                == status.targets@[i]@,
        status@.recent_target_outcomes.len() == status.recent_target_outcomes@.len(),
        forall|i: int|
            0 <= i < status.recent_target_outcomes@.len() ==> (
            #[trigger] status@.recent_target_outcomes[i]) == status.recent_target_outcomes@[i]@,
        status.final_outcome is None <==> status@.final_outcome is None,
        status.final_outcome matches Some(outcome) ==> status@.final_outcome == Some(outcome@),
{
}

/// What is said of an event is what it reports.
pub proof fn law_events_are_seen_as_they_are(event: ManagedEvent)
    ensures
        event is Started <==> event@ is Started,
        event is Stopping <==> event@ is Stopping,
        event is Abandoned <==> event@ is Abandoned,
        event matches ManagedEvent::TargetStateChanged { target, lifecycle } ==> event@ == (
        EventView::TargetStateChanged { target: target@, lifecycle }),
        event matches ManagedEvent::Client { target, event: inner } ==> event@ == (
        EventView::Client { target: target@, event: inner }),
        event matches ManagedEvent::TargetFinished { outcome } ==> event@ == (
        EventView::TargetFinished { outcome: outcome@ }),
        event matches ManagedEvent::Completed { outcome } ==> event@ == (EventView::Completed {
            outcome: outcome@,
        }),
        event matches ManagedEvent::Failed { outcome } ==> event@ == (EventView::Failed {
            outcome: outcome@,
        }),
{
}

} // verus!
