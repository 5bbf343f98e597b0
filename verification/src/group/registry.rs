//! The state of a group and the decisions about its targets.
use vstd::prelude::*;
use vstd::string::*;

use crate::config::{ClientConfig, ClientConfigView};
use crate::counting::bumped;
use crate::error::{ClientError, IoError, IoErrorKind};
use crate::event::ClientEvent;
use crate::group::drain::ReceiverDrainState;
use crate::group::laws::{
    law_start_is_well_formed, law_update_keeps_group_well_formed, lemma_order_fits,
};
use crate::group::model::{
    config_views, runtime_failure, ConfigView, EndReasonView, FailureView, GroupEventView,
    GroupHistoryView, ManagedClientGroupConfig, ManagedGroupCompletionPolicy, ManagedGroupEndReason,
    ManagedGroupEvent, ManagedGroupOutcome, ManagedGroupPacing, ManagedTargetConfig,
    ManagedTargetEndReason, ManagedTargetFailure, ManagedTargetFailureKind, ManagedTargetOutcome,
    OutcomeView, TargetId, TargetOutcomeHistory,
};
use crate::group::pacing::{earliest, earliest_deadline, id_views, PacingRuntime, PacingView};
use crate::group::target::{
    client_events, event_views, CloseAttempt, FinishStep, OpenInspection, OpenStep, ProbeAttempt,
    SessionFacts, TargetState, TargetStatus, TargetView,
};
use crate::group::validate::{
    family_flags_text, refusal_text, targets_acceptable, targets_refused,
    validate_group_family_flags, validate_target_configs, GroupParams, TargetsRefusal,
};
use crate::net::SocketAddr;
use crate::timing::{earlier, earlier_instant, Duration, Instant, MAX_INSTANT_NANOS};

verus! {

/// Longest wait, in nanoseconds, of one receive on the shared socket.
pub const GROUP_RECV_TIMEOUT: u128 = 20_000_000;

/// Time, in nanoseconds, for which a completed target drains late replies.
pub const GROUP_FINAL_DRAIN: u128 = 100_000_000;

/// Longest sleep, in nanoseconds, of the scheduler while a deadline is set.
pub const MAX_SLEEP: u128 = 20_000_000;

/// A group of targets on one shared socket.
#[derive(Debug)]
pub struct ManagedClientGroup {
    config: ManagedClientGroupConfig,
    targets: Vec<TargetState>,
    desired: Vec<TargetId>,
    drain: ReceiverDrainState,
    records: TargetOutcomeHistory,
    peer_closed_target_count: u64,
    next_order: u64,
    requested: GroupParams,
    family_remote: SocketAddr,
    outbox: Vec<ManagedGroupEvent>,
}

pub ghost struct GroupView {
    pub client: ClientConfigView,
    pub pacing: ManagedGroupPacing,
    pub completion: ManagedGroupCompletionPolicy,
    /// The targets that have not ended, in the order in which they joined.
    pub targets: Seq<TargetView>,
    pub desired: Seq<Seq<char>>,
    pub drain: ReceiverDrainState,
    pub records: GroupHistoryView,
    pub peer_closed_target_count: u64,
    pub next_order: u64,
    pub requested: GroupParams,
    pub family_remote: SocketAddr,
    /// Events to be published, oldest first.
    pub outbox: Seq<GroupEventView>,
}

pub open spec fn target_views(targets: Seq<TargetState>) -> Seq<TargetView> {
    targets.map_values(|target: TargetState| target@)
}

impl View for ManagedClientGroup {
    type V = GroupView;

    closed spec fn view(&self) -> GroupView {
        GroupView {
            client: self.config.client@,
            pacing: self.config.pacing,
            completion: self.config.completion,
            targets: target_views(self.targets@),
            desired: id_views(self.desired@),
            drain: self.drain,
            records: self.records@,
            peer_closed_target_count: self.peer_closed_target_count,
            next_order: self.next_order,
            requested: self.requested,
            family_remote: self.family_remote,
            outbox: event_views(self.outbox@),
        }
    }
}

/// The receive timeout of a group: the configured one, but no longer than
/// [`GROUP_RECV_TIMEOUT`].
pub open spec fn clamped_timeout(configured: Option<Duration>) -> Duration {
    match configured {
        Some(configured) if configured.nanos <= GROUP_RECV_TIMEOUT => configured,
        _ => Duration { nanos: GROUP_RECV_TIMEOUT },
    }
}

pub open spec fn clamped_config(client: ClientConfigView) -> ClientConfigView {
    ClientConfigView {
        socket_config: crate::config::SocketConfig {
            recv_timeout: Some(clamped_timeout(client.socket_config.recv_timeout)),
            ..client.socket_config
        },
        ..client
    }
}

/// The targets of a group that starts, in the order in which they are given.
pub open spec fn starting_targets(
    configs: Seq<ConfigView>,
    sessions: Seq<Result<SessionFacts, ClientError>>,
    now: Instant,
) -> Seq<TargetView> {
    Seq::new(
        configs.len(),
        |i: int| TargetView::fresh(configs[i], sessions[i]->Ok_0, i as u64, now),
    )
}

pub open spec fn config_ids(configs: Seq<ConfigView>) -> Seq<Seq<char>> {
    configs.map_values(|config: ConfigView| config.id)
}

/// Entry `i` is the first whose session cannot be set up.
pub open spec fn first_failed_session(
    sessions: Seq<Result<SessionFacts, ClientError>>,
    i: int,
) -> bool {
    &&& 0 <= i < sessions.len()
    &&& sessions[i] is Err
    &&& forall|j: int| 0 <= j < i ==> (#[trigger] sessions[j]) is Ok
}

/// How a datagram that was received is to be treated.
#[derive(Debug, Clone, Copy, PartialEq, Eq, Structural)]
pub enum DatagramStep {
    /// It is of no target, or of one that expects nothing.
    Ignore,
    /// It may be the open reply of the target at `index`.
    Inspect { index: usize },
    /// It belongs to the open session of the target at `index`.
    Process { index: usize },
}

/// What a failed receive means.
#[derive(Debug, Clone, Copy, PartialEq, Eq, Structural)]
pub enum ReceiveFailure {
    /// The queue was empty. `advanced` tells that a drain was completed.
    Empty { advanced: bool },
    /// The socket failed and with it all targets.
    Fatal,
}

pub open spec fn known(targets: Seq<TargetView>, id: Seq<char>) -> bool {
    exists|k: int| 0 <= k < targets.len() && (#[trigger] targets[k]).id == id
}

/// A target with this identifier is there under another configuration.
pub open spec fn changed(targets: Seq<TargetView>, config: ConfigView) -> bool {
    exists|k: int|
        0 <= k < targets.len() && (#[trigger] targets[k]).id == config.id
            && !targets[k].same_config(config)
}

/// The targets that an update adds, in the order in which it lists them.
pub open spec fn group_additions(
    targets: Seq<TargetView>,
    wanted: Seq<ConfigView>,
    sessions: Seq<Result<SessionFacts, ClientError>>,
    next_order: u64,
    now: Instant,
) -> Seq<TargetView>
    decreases wanted.len(),
{
    if wanted.len() == 0 {
        Seq::empty()
    } else {
        let rest = group_additions(
            targets,
            wanted.drop_last(),
            sessions.drop_last(),
            next_order,
            now,
        );
        if known(targets, wanted.last().id) {
            rest
        } else {
            rest.push(
                TargetView::fresh(
                    wanted.last(),
                    sessions.last()->Ok_0,
                    (next_order + rest.len()) as u64,
                    now,
                ),
            )
        }
    }
}

/// How many of the first `upto` entries of an update are new.
pub open spec fn addition_count(
    targets: Seq<TargetView>,
    wanted: Seq<ConfigView>,
    upto: int,
) -> nat
    decreases upto,
{
    if upto <= 0 {
        0
    } else {
        addition_count(targets, wanted, upto - 1) + if known(targets, wanted[upto - 1].id) {
            0nat
        } else {
            1
        }
    }
}

pub open spec fn wanted_id(wanted: Seq<ConfigView>, id: Seq<char>) -> bool {
    exists|k: int| 0 <= k < wanted.len() && (#[trigger] wanted[k]).id == id
}

pub open spec fn staying(targets: Seq<TargetView>, wanted: Seq<ConfigView>) -> Seq<TargetView>
    decreases targets.len(),
{
    if targets.len() == 0 {
        Seq::empty()
    } else {
        let rest = staying(targets.drop_last(), wanted);
        if wanted_id(wanted, targets.last().id) {
            rest.push(targets.last())
        } else {
            rest
        }
    }
}

pub open spec fn leaving(targets: Seq<TargetView>, wanted: Seq<ConfigView>) -> Seq<TargetView>
    decreases targets.len(),
{
    if targets.len() == 0 {
        Seq::empty()
    } else {
        let rest = leaving(targets.drop_last(), wanted);
        if wanted_id(wanted, targets.last().id) {
            rest
        } else {
            rest.push(targets.last())
        }
    }
}

/// The end of a target whose status says that it has ended.
pub open spec fn end_of(target: TargetView) -> EndReasonView {
    match target.final_reason {
        Some(reason) => reason,
        None => EndReasonView::Failed(
            FailureView {
                kind: ManagedTargetFailureKind::InternalWorker,
                message: "target finished without a reason"@,
            },
        ),
    }
}

pub open spec fn unfinished(targets: Seq<TargetView>) -> Seq<TargetView>
    decreases targets.len(),
{
    if targets.len() == 0 {
        Seq::empty()
    } else {
        let rest = unfinished(targets.drop_last());
        if targets.last().status is Finished {
            rest
        } else {
            rest.push(targets.last())
        }
    }
}

pub open spec fn finished_outcomes(targets: Seq<TargetView>) -> Seq<OutcomeView>
    decreases targets.len(),
{
    if targets.len() == 0 {
        Seq::empty()
    } else {
        let rest = finished_outcomes(targets.drop_last());
        if targets.last().status is Finished {
            rest.push(targets.last().outcome(end_of(targets.last())))
        } else {
            rest
        }
    }
}

pub open spec fn active_positions(targets: Seq<TargetView>) -> Seq<usize>
    decreases targets.len(),
{
    if targets.len() == 0 {
        Seq::empty()
    } else {
        let rest = active_positions(targets.drop_last());
        if targets.last().status is Active {
            rest.push((targets.len() - 1) as usize)
        } else {
            rest
        }
    }
}

/// When an open attempt that nothing holds up is to be made.
pub open spec fn open_deadline(target: TargetView) -> Option<Instant> {
    match target.status {
        TargetStatus::Opening { next_send_at, awaiting_receiver_generation: None, .. } => Some(
            next_send_at,
        ),
        _ => None,
    }
}

pub open spec fn drain_deadline(target: TargetView) -> Option<Instant> {
    match target.status {
        TargetStatus::Draining { deadline } => Some(deadline),
        _ => None,
    }
}

/// The drains registered for the first targets, one generation for all of them.
pub open spec fn drains_registered(
    targets: Seq<TargetView>,
    drain: ReceiverDrainState,
    now: Instant,
) -> (Seq<TargetView>, ReceiverDrainState)
    decreases targets.len(),
{
    if targets.len() == 0 {
        (Seq::empty(), drain)
    } else {
        let (rest, drain) = drains_registered(targets.drop_last(), drain, now);
        let last = targets.last();
        if !last.awaits_drain(now) {
            (rest.push(last), drain)
        } else {
            match drain.joined() {
                Some(joined) => (
                    rest.push(
                        TargetView {
                            status: TargetStatus::Opening {
                                attempt: last.status->attempt,
                                next_send_at: last.status->next_send_at,
                                awaiting_receiver_generation: Some(joined.requested),
                            },
                            ..last
                        },
                    ),
                    joined,
                ),
                None => (
                    rest.push(
                        last.marked(
                            EndReasonView::OpenFailed(
                                crate::group::model::opening_failure(
                                    ClientError::CounterOverflow {
                                        counter: "receiver_drain_generation",
                                    },
                                ),
                            ),
                        ),
                    ),
                    drain,
                ),
            }
        }
    }
}

impl GroupView {
    pub open spec fn with_target(self, index: int, target: TargetView) -> GroupView {
        GroupView { targets: self.targets.update(index, target), ..self }
    }

    pub open spec fn reporting(self, events: Seq<GroupEventView>) -> GroupView {
        GroupView { outbox: self.outbox + events, ..self }
    }

    /// The group with one more outcome: counted, published and recorded.
    pub open spec fn recorded(self, outcome: OutcomeView) -> GroupView {
        GroupView {
            peer_closed_target_count: if outcome.end_reason is PeerClosed {
                bumped(self.peer_closed_target_count)
            } else {
                self.peer_closed_target_count
            },
            outbox: self.outbox.push(GroupEventView::TargetFinished { outcome }),
            records: self.records.recorded(outcome),
            ..self
        }
    }

    pub open spec fn recorded_all(self, outcomes: Seq<OutcomeView>) -> GroupView
        decreases outcomes.len(),
    {
        if outcomes.len() == 0 {
            self
        } else {
            self.recorded_all(outcomes.drop_last()).recorded(outcomes.last())
        }
    }

    pub open spec fn should_complete(self) -> bool {
        self.completion == ManagedGroupCompletionPolicy::AllTargetsComplete && self.desired.len()
            > 0 && self.targets.len() == 0
    }

    /// Identifiers and addresses of the targets are distinct, and targets are
    /// listed by their order of joining.
    pub open spec fn wf(self) -> bool {
        &&& forall|i: int, j: int|
            0 <= i < j < self.targets.len() ==> (#[trigger] self.targets[i]).id != (
            #[trigger] self.targets[j]).id && self.targets[i].remote != self.targets[j].remote
                && self.targets[i].order < self.targets[j].order
        &&& forall|i: int|
            0 <= i < self.targets.len() ==> (#[trigger] self.targets[i]).order < self.next_order
                && self.desired.contains(self.targets[i].id)
                && (self.targets[i].remote is V4) == (self.family_remote is V4)
    }
}

fn ids_of(targets: &Vec<ManagedTargetConfig>) -> (result: Vec<TargetId>)
    ensures
        id_views(result@) == config_ids(config_views(targets@)),
{
    let mut result: Vec<TargetId> = Vec::new();
    let mut i: usize = 0;
    while i < targets.len()
        invariant
            i <= targets@.len(),
            result@.len() == i,
            forall|j: int| 0 <= j < i ==> (#[trigger] result@[j])@ == targets@[j]@.id,
        decreases targets@.len() - i,
    {
        result.push(targets[i].id.clone());
        i += 1;
    }
    assert(id_views(result@) =~= config_ids(config_views(targets@)));
    result
}

fn lists_id(targets: &Vec<ManagedTargetConfig>, id: &TargetId) -> (result: bool)
    ensures
        result == wanted_id(config_views(targets@), id@),
{
    let ghost views = config_views(targets@);
    let mut i: usize = 0;
    while i < targets.len()
        invariant
            i <= targets@.len(),
            views == config_views(targets@),
            forall|j: int| 0 <= j < i ==> (#[trigger] views[j]).id != id@,
        decreases targets@.len() - i,
    {
        if targets[i].id.same(id) {
            assert(views[i as int].id == id@);
            return true;
        }
        i += 1;
    }
    false
}

/// Why a group cannot start.
pub ghost enum StartRefusal {
    Empty,
    OpenTimeouts { error: ClientError },
    Params { error: ClientError },
    Targets { refusal: TargetsRefusal },
    FamilyFlags,
    Session { index: int },
}

/// `refusal` is what keeps a group from starting, checked in this order.
pub open spec fn start_refused(
    client: ClientConfigView,
    configs: Seq<ConfigView>,
    open_timeouts: Result<(), ClientError>,
    requested: Result<GroupParams, ClientError>,
    sessions: Seq<Result<SessionFacts, ClientError>>,
    refusal: StartRefusal,
) -> bool {
    match refusal {
        StartRefusal::Empty => configs.len() == 0,
        StartRefusal::OpenTimeouts { error } => configs.len() > 0 && open_timeouts == Err::<(), _>(
            error,
        ),
        StartRefusal::Params { error } => configs.len() > 0 && open_timeouts is Ok && requested
            == Err::<GroupParams, _>(error),
        StartRefusal::Targets { refusal } => configs.len() > 0 && open_timeouts is Ok && requested
            is Ok && targets_refused(configs, None, refusal),
        StartRefusal::FamilyFlags => configs.len() > 0 && open_timeouts is Ok && requested is Ok
            && targets_acceptable(configs, None) && family_flags_text(
            client.socket_config,
            configs[0].remote,
        ) is Some,
        StartRefusal::Session { index } => configs.len() > 0 && open_timeouts is Ok && requested
            is Ok && targets_acceptable(configs, None) && family_flags_text(
            client.socket_config,
            configs[0].remote,
        ) is None && first_failed_session(sessions, index),
    }
}

/// `error` reports `refusal`.
pub open spec fn start_error(
    client: ClientConfigView,
    configs: Seq<ConfigView>,
    sessions: Seq<Result<SessionFacts, ClientError>>,
    refusal: StartRefusal,
    error: ClientError,
) -> bool {
    match refusal {
        StartRefusal::Empty => error matches ClientError::InvalidConfig { reason } && reason@
            == "managed client group requires at least one target"@,
        StartRefusal::OpenTimeouts { error: given } => error == given,
        StartRefusal::Params { error: given } => error == given,
        StartRefusal::Targets { refusal } => error matches ClientError::InvalidConfig { reason }
            && reason@ == refusal_text(configs, refusal),
        StartRefusal::FamilyFlags => error matches ClientError::InvalidConfig { reason } && Some(
            reason@,
        ) == family_flags_text(client.socket_config, configs[0].remote),
        StartRefusal::Session { index } => sessions[index] == Err::<SessionFacts, _>(error),
    }
}

impl ManagedClientGroup {
    /// Starts a group with at least one target. `open_timeouts`, `requested`
    /// and `sessions` are what the configuration and the session of each target
    /// came to.
    pub fn start(
        config: ManagedClientGroupConfig,
        targets: Vec<ManagedTargetConfig>,
        open_timeouts: Result<(), ClientError>,
        requested: Result<GroupParams, ClientError>,
        sessions: Vec<Result<SessionFacts, ClientError>>,
        now: Instant,
    ) -> (result: Result<ManagedClientGroup, ClientError>)
        requires
            sessions@.len() == targets@.len(),
        ensures
            ({
                let configs = config_views(targets@);
                match result {
                    Ok(group) => {
                        &&& open_timeouts is Ok
                        &&& requested is Ok
                        &&& targets_acceptable(configs, None)
                        &&& family_flags_text(
                            config.client.socket_config,
                            configs[0].remote,
                        ) is None
                        &&& forall|i: int|
                            0 <= i < sessions@.len() ==> (#[trigger] sessions@[i]) is Ok
                        &&& group@ == (GroupView {
                            client: clamped_config(config.client@),
                            pacing: config.pacing,
                            completion: config.completion,
                            targets: starting_targets(configs, sessions@, now),
                            desired: config_ids(configs),
                            drain: ReceiverDrainState { requested: 0, completed: 0 },
                            records: GroupHistoryView::empty(),
                            peer_closed_target_count: 0,
                            next_order: configs.len() as u64,
                            requested: requested->Ok_0,
                            family_remote: configs[0].remote,
                            outbox: Seq::empty(),
                        })
                    },
                    Err(error) => exists|refusal: StartRefusal|
                        {
                            &&& #[trigger] start_refused(
                                config.client@,
                                configs,
                                open_timeouts,
                                requested,
                                sessions@,
                                refusal,
                            )
                            &&& start_error(
                                config.client@,
                                configs,
                                sessions@,
                                refusal,
                                error,
                            )
                        },
                }
            }),
            result matches Ok(group) ==> group@.wf(),
    {
        let ghost configs = config_views(targets@);
        let ghost client = config.client@;
        let ghost verdicts = sessions@;
        if targets.len() == 0 {
            proof {
                assert(start_refused(
                    client,
                    configs,
                    open_timeouts,
                    requested,
                    sessions@,
                    StartRefusal::Empty,
                ));
            }
            return Err(
                ClientError::InvalidConfig {
                    reason: String::from_str("managed client group requires at least one target"),
                },
            );
        }
        let mut adjusted = config;
        let clamped: Duration = match adjusted.client.socket_config.recv_timeout {
            Some(timeout) if timeout.nanos <= GROUP_RECV_TIMEOUT => timeout,
            _ => Duration { nanos: GROUP_RECV_TIMEOUT },
        };
        adjusted.client.socket_config.recv_timeout = Some(clamped);
        if let Err(error) = open_timeouts {
            proof {
                assert(start_refused(
                    client,
                    configs,
                    open_timeouts,
                    requested,
                    sessions@,
                    StartRefusal::OpenTimeouts { error },
                ));
            }
            return Err(error);
        }
        let requested_params = match requested {
            Ok(requested) => requested,
            Err(error) => {
                proof {
                    assert(start_refused(
                        client,
                        configs,
                        open_timeouts,
                        requested,
                        sessions@,
                        StartRefusal::Params { error },
                    ));
                }
                return Err(error);
            },
        };
        let family_remote = match validate_target_configs(&targets, None) {
            Ok(family_remote) => family_remote,
            Err(error) => {
                proof {
                    let refusal = choose|refusal: TargetsRefusal|
                        {
                            &&& #[trigger] targets_refused(configs, None, refusal)
                            &&& error matches ClientError::InvalidConfig { reason } && reason@
                                == refusal_text(configs, refusal)
                        };
                    assert(start_refused(
                        client,
                        configs,
                        open_timeouts,
                        requested,
                        sessions@,
                        StartRefusal::Targets { refusal },
                    ));
                }
                return Err(error);
            },
        };
        if let Err(error) = validate_group_family_flags(&adjusted.client, family_remote) {
            proof {
                assert(start_refused(
                    client,
                    configs,
                    open_timeouts,
                    requested,
                    sessions@,
                    StartRefusal::FamilyFlags,
                ));
            }
            return Err(error);
        }
        let desired = ids_of(&targets);
        let ghost listed = targets@;
        let count: usize = targets.len();
        let mut left = sessions;
        let mut states: Vec<TargetState> = Vec::new();
        let mut next_order: u64 = 0;
        assert(target_views(states@) =~= starting_targets(configs, verdicts, now).take(0));
        for target in iter: targets
            invariant
                iter.seq() == listed,
                listed.len() == count,
                configs == config_views(listed),
                verdicts.len() == listed.len(),
                configs.len() > 0,
                client == config.client@,
                open_timeouts is Ok,
                requested is Ok,
                targets_acceptable(configs, None),
                family_flags_text(client.socket_config, configs[0].remote) is None,
                verdicts == sessions@,
                listed == targets@,
                left@ == verdicts.skip(iter.index() as int),
                next_order == iter.index(),
                target_views(states@) == starting_targets(configs, verdicts, now).take(
                    iter.index() as int,
                ),
                forall|j: int| 0 <= j < iter.index() ==> (#[trigger] verdicts[j]) is Ok,
        {
            let ghost i = iter.index() as int;
            let ghost before = states@;
            proof {
                assert(target == listed[i]);
                assert(verdicts.skip(i)[0] == verdicts[i]);
                assert(verdicts.skip(i).remove(0) =~= verdicts.skip(i + 1));
            }
            let session = left.remove(0);
            let order: u64 = next_order;
            match TargetState::new(target, session, order, now) {
                Ok(state) => {
                    states.push(state);
                },
                Err(error) => {
                    proof {
                        assert(start_refused(
                            client,
                            configs,
                            open_timeouts,
                            requested,
                            verdicts,
                            StartRefusal::Session { index: i },
                        ));
                    }
                    return Err(error);
                },
            }
            next_order = next_order + 1;
            proof {
                assert(states@.last()@ == starting_targets(configs, verdicts, now)[i]);
                assert(target_views(states@) =~= target_views(before).push(states@.last()@));
                assert(target_views(states@) =~= starting_targets(configs, verdicts, now).take(
                    i + 1,
                ));
            }
        }
        let result = ManagedClientGroup {
            config: adjusted,
            targets: states,
            desired,
            drain: ReceiverDrainState::new(),
            records: TargetOutcomeHistory::new(),
            peer_closed_target_count: 0,
            next_order,
            requested: requested_params,
            family_remote,
            outbox: Vec::new(),
        };
        proof {
            assert(starting_targets(configs, verdicts, now).take(configs.len() as int)
                =~= starting_targets(configs, verdicts, now));
            assert(result@.outbox =~= Seq::<GroupEventView>::empty());
            law_start_is_well_formed(result@, configs, verdicts, now);
        }
        Ok(result)
    }
}

/// Why an update of a group is refused.
pub ghost enum UpdateRefusal {
    OpenTimeouts { error: ClientError },
    Targets { refusal: TargetsRefusal },
    Changed { index: int },
    OrderExhausted { index: int },
    Session { index: int },
}

/// Entry `i` is new and its session cannot be set up.
pub open spec fn addition_fails(
    targets: Seq<TargetView>,
    wanted: Seq<ConfigView>,
    sessions: Seq<Result<SessionFacts, ClientError>>,
    next_order: u64,
    i: int,
) -> bool {
    !known(targets, wanted[i].id) && (next_order + addition_count(targets, wanted, i) >= u64::MAX
        || sessions[i] is Err)
}

pub open spec fn first_failed_addition(
    targets: Seq<TargetView>,
    wanted: Seq<ConfigView>,
    sessions: Seq<Result<SessionFacts, ClientError>>,
    next_order: u64,
    i: int,
) -> bool {
    &&& 0 <= i < wanted.len()
    &&& addition_fails(targets, wanted, sessions, next_order, i)
    &&& forall|j: int|
        0 <= j < i ==> !#[trigger] addition_fails(targets, wanted, sessions, next_order, j)
}

/// The checks on an update that come before any target is set up succeed.
pub open spec fn update_listed(
    group: GroupView,
    wanted: Seq<ConfigView>,
    open_timeouts: Result<(), ClientError>,
) -> bool {
    &&& open_timeouts is Ok
    &&& wanted.len() > 0 ==> targets_acceptable(wanted, Some(group.family_remote))
    &&& forall|i: int| 0 <= i < wanted.len() ==> !changed(group.targets, #[trigger] wanted[i])
}

/// `refusal` is what an update fails with first.
pub open spec fn update_refused(
    group: GroupView,
    wanted: Seq<ConfigView>,
    open_timeouts: Result<(), ClientError>,
    sessions: Seq<Result<SessionFacts, ClientError>>,
    refusal: UpdateRefusal,
) -> bool {
    match refusal {
        UpdateRefusal::OpenTimeouts { error } => open_timeouts == Err::<(), _>(error),
        UpdateRefusal::Targets { refusal } => open_timeouts is Ok && wanted.len() > 0
            && targets_refused(wanted, Some(group.family_remote), refusal),
        UpdateRefusal::Changed { index } => {
            &&& open_timeouts is Ok
            &&& targets_acceptable(wanted, Some(group.family_remote))
            &&& 0 <= index < wanted.len()
            &&& changed(group.targets, wanted[index])
            &&& forall|j: int| 0 <= j < index ==> !changed(group.targets, #[trigger] wanted[j])
        },
        UpdateRefusal::OrderExhausted { index } => {
            &&& update_listed(group, wanted, open_timeouts)
            &&& first_failed_addition(group.targets, wanted, sessions, group.next_order, index)
            &&& group.next_order + addition_count(group.targets, wanted, index) >= u64::MAX
        },
        UpdateRefusal::Session { index } => {
            &&& update_listed(group, wanted, open_timeouts)
            &&& first_failed_addition(group.targets, wanted, sessions, group.next_order, index)
            &&& group.next_order + addition_count(group.targets, wanted, index) < u64::MAX
        },
    }
}

/// `error` reports `refusal`.
pub open spec fn update_error(
    wanted: Seq<ConfigView>,
    sessions: Seq<Result<SessionFacts, ClientError>>,
    refusal: UpdateRefusal,
    error: ClientError,
) -> bool {
    match refusal {
        UpdateRefusal::OpenTimeouts { error: given } => error == given,
        UpdateRefusal::Targets { refusal } => error matches ClientError::InvalidConfig { reason }
            && reason@ == refusal_text(wanted, refusal),
        UpdateRefusal::Changed { index } => error matches ClientError::InvalidConfig { reason }
            && reason@ == "managed group v1 rejects changed remote/auth for existing target "@
            + wanted[index].id,
        UpdateRefusal::OrderExhausted { .. } => error == (ClientError::CounterOverflow {
            counter: "target_order",
        }),
        UpdateRefusal::Session { index } => sessions[index] == Err::<SessionFacts, _>(error),
    }
}

/// The next order number after a refused update: numbers given out on the way
/// are not given out again.
pub open spec fn order_after_refusal(
    group: GroupView,
    wanted: Seq<ConfigView>,
    refusal: UpdateRefusal,
) -> u64 {
    match refusal {
        UpdateRefusal::OrderExhausted { index } => (group.next_order + addition_count(
            group.targets,
            wanted,
            index,
        )) as u64,
        UpdateRefusal::Session { index } => (group.next_order + addition_count(
            group.targets,
            wanted,
            index,
        ) + 1) as u64,
        _ => group.next_order,
    }
}

/// The group after an update that is accepted.
pub open spec fn group_updated(
    group: GroupView,
    wanted: Seq<ConfigView>,
    sessions: Seq<Result<SessionFacts, ClientError>>,
    now: Instant,
) -> GroupView {
    GroupView {
        targets: staying(group.targets, wanted) + group_additions(
            group.targets,
            wanted,
            sessions,
            group.next_order,
            now,
        ),
        desired: config_ids(wanted),
        next_order: (group.next_order + addition_count(
            group.targets,
            wanted,
            wanted.len() as int,
        )) as u64,
        ..group
    }
}

pub proof fn lemma_additions_len(
    targets: Seq<TargetView>,
    wanted: Seq<ConfigView>,
    sessions: Seq<Result<SessionFacts, ClientError>>,
    next_order: u64,
    now: Instant,
)
    requires
        sessions.len() == wanted.len(),
    ensures
        group_additions(targets, wanted, sessions, next_order, now).len() == addition_count(
            targets,
            wanted,
            wanted.len() as int,
        ),
    decreases wanted.len(),
{
    if wanted.len() > 0 {
        lemma_additions_len(targets, wanted.drop_last(), sessions.drop_last(), next_order, now);
        lemma_count_prefix(targets, wanted, wanted.len() - 1);
    }
}

proof fn lemma_count_prefix(targets: Seq<TargetView>, wanted: Seq<ConfigView>, upto: int)
    requires
        0 <= upto <= wanted.len(),
        wanted.len() > 0,
        upto < wanted.len(),
    ensures
        addition_count(targets, wanted.drop_last(), upto) == addition_count(targets, wanted, upto),
    decreases upto,
{
    if upto > 0 {
        lemma_count_prefix(targets, wanted, upto - 1);
    }
}

impl ManagedClientGroup {
    pub fn target_count(&self) -> (result: usize)
        ensures
            result == self@.targets.len(),
    {
        self.targets.len()
    }

    pub fn target(&self, index: usize) -> (result: &TargetState)
        requires
            index < self@.targets.len(),
        ensures
            result@ == self@.targets[index as int],
    {
        &self.targets[index]
    }

    pub fn drain(&self) -> (result: ReceiverDrainState)
        ensures
            result == self@.drain,
    {
        self.drain
    }

    /// How many targets were closed by their peer. The count includes those
    /// whose outcomes are no longer retained.
    pub fn peer_closed_target_count(&self) -> (result: u64)
        ensures
            result == self@.peer_closed_target_count,
    {
        self.peer_closed_target_count
    }

    pub fn requested(&self) -> (result: GroupParams)
        ensures
            result == self@.requested,
    {
        self.requested
    }

    /// The cadence of the group before any target is active.
    pub fn pacing(&self) -> (result: PacingRuntime)
        ensures
            result@ == PacingView::idle(self@.pacing),
    {
        PacingRuntime::new(self.config.pacing)
    }

    pub fn client_config(&self) -> (result: &ClientConfig)
        ensures
            result@ == self@.client,
    {
        &self.config.client
    }

    /// Takes the events to be published, oldest first.
    pub fn take_outbox(&mut self) -> (result: Vec<ManagedGroupEvent>)
        ensures
            event_views(result@) == old(self)@.outbox,
            final(self)@ == (GroupView { outbox: Seq::empty(), ..old(self)@ }),
    {
        let mut outbox: Vec<ManagedGroupEvent> = Vec::new();
        std::mem::swap(&mut outbox, &mut self.outbox);
        assert(self@.outbox =~= Seq::<GroupEventView>::empty());
        outbox
    }

    fn find_id(&self, id: &TargetId) -> (result: Option<usize>)
        ensures
            match result {
                Some(k) => k < self@.targets.len() && self@.targets[k as int].id == id@
                    && forall|j: int| 0 <= j < k ==> (#[trigger] self@.targets[j]).id != id@,
                None => !known(self@.targets, id@),
            },
    {
        let mut k: usize = 0;
        while k < self.targets.len()
            invariant
                k <= self.targets@.len(),
                forall|j: int| 0 <= j < k ==> (#[trigger] self@.targets[j]).id != id@,
            decreases self.targets@.len() - k,
        {
            if self.targets[k].id.same(id) {
                return Some(k);
            }
            k += 1;
        }
        None
    }

    /// Whether a target of this identifier is there under another configuration.
    fn is_changed(&self, config: &ManagedTargetConfig) -> (result: bool)
        ensures
            result == changed(self@.targets, config@),
    {
        let mut k: usize = 0;
        while k < self.targets.len()
            invariant
                k <= self.targets@.len(),
                forall|j: int|
                    0 <= j < k ==> !((#[trigger] self@.targets[j]).id == config@.id
                        && !self@.targets[j].same_config(config@)),
            decreases self.targets@.len() - k,
        {
            if self.targets[k].id.same(&config.id) && !self.targets[k].same_config(config) {
                assert(self@.targets[k as int].id == config@.id);
                return true;
            }
            k += 1;
        }
        false
    }

    /// Sets up the targets that an update adds. Order numbers are taken as
    /// targets are set up.
    fn prepare_additions(
        &mut self,
        targets: Vec<ManagedTargetConfig>,
        sessions: Vec<Result<SessionFacts, ClientError>>,
        now: Instant,
    ) -> (result: Result<Vec<TargetState>, ClientError>)
        requires
            sessions@.len() == targets@.len(),
        ensures
            ({
                let wanted = config_views(targets@);
                let group = old(self)@;
                match result {
                    Ok(prepared) => {
                        &&& forall|j: int|
                            0 <= j < wanted.len() ==> !#[trigger] addition_fails(
                                group.targets,
                                wanted,
                                sessions@,
                                group.next_order,
                                j,
                            )
                        &&& target_views(prepared@) == group_additions(
                            group.targets,
                            wanted,
                            sessions@,
                            group.next_order,
                            now,
                        )
                        &&& final(self)@ == (GroupView {
                            next_order: (group.next_order + addition_count(
                                group.targets,
                                wanted,
                                wanted.len() as int,
                            )) as u64,
                            ..group
                        })
                    },
                    Err(error) => exists|i: int|
                        {
                            &&& #[trigger] first_failed_addition(
                                group.targets,
                                wanted,
                                sessions@,
                                group.next_order,
                                i,
                            )
                            &&& if group.next_order + addition_count(group.targets, wanted, i)
                                >= u64::MAX {
                                &&& error == (ClientError::CounterOverflow {
                                    counter: "target_order",
                                })
                                &&& final(self)@ == (GroupView {
                                    next_order: (group.next_order + addition_count(
                                        group.targets,
                                        wanted,
                                        i,
                                    )) as u64,
                                    ..group
                                })
                            } else {
                                &&& sessions@[i] == Err::<SessionFacts, _>(error)
                                &&& final(self)@ == (GroupView {
                                    next_order: (group.next_order + addition_count(
                                        group.targets,
                                        wanted,
                                        i,
                                    ) + 1) as u64,
                                    ..group
                                })
                            }
                        },
                }
            }),
    {
        let ghost wanted = config_views(targets@);
        let ghost listed = targets@;
        let ghost verdicts = sessions@;
        let ghost group = self@;
        let mut left = sessions;
        let mut prepared: Vec<TargetState> = Vec::new();
        proof {
            assert(target_views(prepared@) =~= group_additions(
                group.targets,
                wanted.take(0),
                verdicts.take(0),
                group.next_order,
                now,
            ));
        }
        for target in iter: targets
            invariant
                iter.seq() == listed,
                listed == targets@,
                verdicts == sessions@,
                verdicts.len() == listed.len(),
                wanted == config_views(listed),
                group == old(self)@,
                left@ == verdicts.skip(iter.index() as int),
                prepared@.len() == addition_count(group.targets, wanted, iter.index() as int),
                group.next_order + prepared@.len() <= u64::MAX,
                self@ == (GroupView {
                    next_order: (group.next_order + prepared@.len()) as u64,
                    ..group
                }),
                target_views(prepared@) == group_additions(
                    group.targets,
                    wanted.take(iter.index() as int),
                    verdicts.take(iter.index() as int),
                    group.next_order,
                    now,
                ),
                forall|j: int|
                    0 <= j < iter.index() ==> !#[trigger] addition_fails(
                        group.targets,
                        wanted,
                        verdicts,
                        group.next_order,
                        j,
                    ),
        {
            let ghost i = iter.index() as int;
            let ghost before = prepared@;
            proof {
                assert(target == listed[i]);
                assert(wanted[i] == target@);
                assert(verdicts.skip(i)[0] == verdicts[i]);
                assert(verdicts.skip(i).remove(0) =~= verdicts.skip(i + 1));
                assert(wanted.take(i + 1).drop_last() =~= wanted.take(i));
                assert(verdicts.take(i + 1).drop_last() =~= verdicts.take(i));
            }
            let session = left.remove(0);
            if self.find_id(&target.id).is_none() {
                let order: u64 = self.next_order;
                match order.checked_add(1) {
                    Some(next) => {
                        self.next_order = next;
                    },
                    None => {
                        assert(first_failed_addition(
                            group.targets,
                            wanted,
                            verdicts,
                            group.next_order,
                            i,
                        ));
                        return Err(ClientError::CounterOverflow { counter: "target_order" });
                    },
                }
                match TargetState::new(target, session, order, now) {
                    Ok(state) => {
                        prepared.push(state);
                        assert(target_views(prepared@) =~= target_views(before).push(
                            prepared@.last()@,
                        ));
                    },
                    Err(error) => {
                        assert(first_failed_addition(
                            group.targets,
                            wanted,
                            verdicts,
                            group.next_order,
                            i,
                        ));
                        return Err(error);
                    },
                }
            } else {
                assert(known(group.targets, wanted[i].id));
            }
        }
        proof {
            assert(wanted.take(wanted.len() as int) =~= wanted);
            assert(verdicts.take(verdicts.len() as int) =~= verdicts);
        }
        Ok(prepared)
    }

    /// Replaces the desired target set. Targets with the same identifier,
    /// address and authentication go on as they are. A changed address or
    /// authentication is refused. Gives the targets that were removed; each is
    /// to be closed and then handed to [`ManagedClientGroup::finish_removed`].
    ///
    /// A refused update changes no target.
    pub fn apply_target_update(
        &mut self,
        targets: Vec<ManagedTargetConfig>,
        open_timeouts: Result<(), ClientError>,
        sessions: Vec<Result<SessionFacts, ClientError>>,
        now: Instant,
    ) -> (result: Result<Vec<TargetState>, ClientError>)
        requires
            sessions@.len() == targets@.len(),
        ensures
            ({
                let wanted = config_views(targets@);
                match result {
                    Ok(removed) => {
                        &&& update_listed(old(self)@, wanted, open_timeouts)
                        &&& forall|j: int|
                            0 <= j < wanted.len() ==> !#[trigger] addition_fails(
                                old(self)@.targets,
                                wanted,
                                sessions@,
                                old(self)@.next_order,
                                j,
                            )
                        &&& target_views(removed@) == leaving(old(self)@.targets, wanted)
                        &&& final(self)@ == group_updated(old(self)@, wanted, sessions@, now)
                    },
                    Err(error) => exists|refusal: UpdateRefusal|
                        {
                            &&& #[trigger] update_refused(
                                old(self)@,
                                wanted,
                                open_timeouts,
                                sessions@,
                                refusal,
                            )
                            &&& update_error(wanted, sessions@, refusal, error)
                            &&& final(self)@ == (GroupView {
                                next_order: order_after_refusal(old(self)@, wanted, refusal),
                                ..old(self)@
                            })
                        },
                }
            }),
            old(self)@.wf() ==> final(self)@.wf(),
    {
        let ghost wanted = config_views(targets@);
        let ghost group = self@;
        if let Err(error) = open_timeouts {
            assert(update_refused(
                group,
                wanted,
                open_timeouts,
                sessions@,
                UpdateRefusal::OpenTimeouts { error },
            ));
            return Err(error);
        }
        if targets.len() > 0 {
            if let Err(error) = validate_target_configs(&targets, Some(self.family_remote)) {
                proof {
                    let refusal = choose|refusal: TargetsRefusal|
                        {
                            &&& #[trigger] targets_refused(
                                wanted,
                                Some(group.family_remote),
                                refusal,
                            )
                            &&& error matches ClientError::InvalidConfig { reason } && reason@
                                == refusal_text(wanted, refusal)
                        };
                    assert(update_refused(
                        group,
                        wanted,
                        open_timeouts,
                        sessions@,
                        UpdateRefusal::Targets { refusal },
                    ));
                }
                return Err(error);
            }
        }
        let mut i: usize = 0;
        while i < targets.len()
            invariant
                i <= targets@.len(),
                wanted == config_views(targets@),
                group == self@,
                group == old(self)@,
                open_timeouts is Ok,
                wanted.len() > 0 ==> targets_acceptable(wanted, Some(group.family_remote)),
                forall|j: int| 0 <= j < i ==> !changed(group.targets, #[trigger] wanted[j]),
            decreases targets@.len() - i,
        {
            if self.is_changed(&targets[i]) {
                let mut reason = String::from_str(
                    "managed group v1 rejects changed remote/auth for existing target ",
                );
                reason.append(targets[i].id.as_str());
                assert(update_refused(
                    group,
                    wanted,
                    open_timeouts,
                    sessions@,
                    UpdateRefusal::Changed { index: i as int },
                ));
                return Err(ClientError::InvalidConfig { reason });
            }
            assert(wanted[i as int] == targets@[i as int]@);
            i += 1;
        }
        assert(update_listed(group, wanted, open_timeouts));
        let desired = ids_of(&targets);
        let copies = copy_configs(&targets);
        let prepared = match self.prepare_additions(targets, sessions, now) {
            Ok(prepared) => prepared,
            Err(error) => {
                proof {
                    let i = choose|i: int|
                        {
                            &&& #[trigger] first_failed_addition(
                                group.targets,
                                wanted,
                                sessions@,
                                group.next_order,
                                i,
                            )
                            &&& if group.next_order + addition_count(group.targets, wanted, i)
                                >= u64::MAX {
                                &&& error == (ClientError::CounterOverflow {
                                    counter: "target_order",
                                })
                                &&& self@ == (GroupView {
                                    next_order: (group.next_order + addition_count(
                                        group.targets,
                                        wanted,
                                        i,
                                    )) as u64,
                                    ..group
                                })
                            } else {
                                &&& sessions@[i] == Err::<SessionFacts, _>(error)
                                &&& self@ == (GroupView {
                                    next_order: (group.next_order + addition_count(
                                        group.targets,
                                        wanted,
                                        i,
                                    ) + 1) as u64,
                                    ..group
                                })
                            }
                        };
                    let refusal = if group.next_order + addition_count(group.targets, wanted, i)
                        >= u64::MAX {
                        UpdateRefusal::OrderExhausted { index: i }
                    } else {
                        UpdateRefusal::Session { index: i }
                    };
                    assert(update_refused(group, wanted, open_timeouts, sessions@, refusal));
                    lemma_order_fits(group.targets, wanted, sessions@, group.next_order, i);
                    assert(self@.next_order >= group.next_order);
                }
                return Err(error);
            },
        };
        let mut listed: Vec<TargetState> = Vec::new();
        std::mem::swap(&mut listed, &mut self.targets);
        let (mut kept, removed) = split_targets(listed, &copies);
        let ghost kept_views = target_views(kept@);
        let mut prepared = prepared;
        let ghost added = prepared@;
        let ghost kept_states = kept@;
        kept.append(&mut prepared);
        self.targets = kept;
        self.desired = desired;
        proof {
            assert(target_views(self.targets@) =~= kept_views + target_views(added));
            assert(self@ == group_updated(group, wanted, sessions@, now));
            if group.wf() {
                law_update_keeps_group_well_formed(group, wanted, open_timeouts, sessions@, now);
            }
        }
        Ok(removed)
    }

    /// Counts, publishes and records the outcome of a target.
    pub fn record_target_outcome(&mut self, outcome: ManagedTargetOutcome)
        ensures
            final(self)@ == old(self)@.recorded(outcome@),
    {
        if let ManagedTargetEndReason::PeerClosed = &outcome.end_reason {
            self.peer_closed_target_count = self.peer_closed_target_count.saturating_add(1);
        }
        self.outbox.push(ManagedGroupEvent::TargetFinished(outcome.clone()));
        assert(self@.outbox =~= old(self)@.outbox.push(
            GroupEventView::TargetFinished { outcome: outcome@ },
        ));
        self.records.record(outcome);
    }

    /// Closes a target that left the group and records its outcome. `attempt`
    /// is there exactly where its session had to be closed.
    pub fn finish_removed(
        &mut self,
        target: TargetState,
        reason: ManagedTargetEndReason,
        attempt: Option<CloseAttempt>,
    )
        requires
            attempt is Some <==> target@.needs_close(),
        ensures
            ({
                let (closed, events) = target@.closed(reason@, attempt);
                final(self)@ == old(self)@.reporting(client_events(target@.id, events)).recorded(
                    closed.outcome(closed.final_reason->0),
                )
            }),
    {
        let mut target = target;
        target.close_locked_target(reason, attempt, &mut self.outbox);
        let reason = match &target.final_reason {
            Some(reason) => reason.clone(),
            None => ManagedTargetEndReason::Cancelled,
        };
        let outcome = target.outcome(reason);
        self.record_target_outcome(outcome);
    }

    /// Takes all targets out, to be closed and recorded as cancelled.
    pub fn drain_registry(&mut self) -> (result: Vec<TargetState>)
        ensures
            target_views(result@) == old(self)@.targets,
            final(self)@ == (GroupView { targets: Seq::empty(), ..old(self)@ }),
    {
        let mut targets: Vec<TargetState> = Vec::new();
        std::mem::swap(&mut targets, &mut self.targets);
        assert(self@.targets =~= Seq::<TargetView>::empty());
        targets
    }

    /// Removes the targets that have ended and records their outcomes.
    pub fn collect_finished_targets(&mut self)
        ensures
            final(self)@ == (GroupView {
                targets: unfinished(old(self)@.targets),
                ..old(self)@.recorded_all(finished_outcomes(old(self)@.targets))
            }),
    {
        let ghost group = self@;
        let targets = self.drain_registry();
        let ghost listed = targets@;
        let mut kept: Vec<TargetState> = Vec::new();
        assert(group.targets.take(0) =~= Seq::<TargetView>::empty());
        assert(target_views(kept@) =~= unfinished(group.targets.take(0)));
        for target in iter: targets
            invariant
                iter.seq() == listed,
                group.targets == target_views(listed),
                target_views(kept@) == unfinished(group.targets.take(iter.index() as int)),
                self@ == (GroupView {
                    targets: Seq::empty(),
                    ..group.recorded_all(
                        finished_outcomes(group.targets.take(iter.index() as int)),
                    )
                }),
        {
            let ghost i = iter.index() as int;
            let ghost before = kept@;
            let ghost view = target@;
            proof {
                assert(group.targets[i] == view);
                assert(group.targets.take(i + 1).drop_last() =~= group.targets.take(i));
                assert(group.targets.take(i + 1).last() == view);
                let done = finished_outcomes(group.targets.take(i));
                assert(done.push(view.outcome(end_of(view))).drop_last() =~= done);
            }
            let finished: bool = match target.status {
                TargetStatus::Finished => true,
                _ => false,
            };
            if finished {
                let reason = match &target.final_reason {
                    Some(reason) => reason.clone(),
                    None => ManagedTargetEndReason::Failed(
                        ManagedTargetFailure {
                            kind: ManagedTargetFailureKind::InternalWorker,
                            message: String::from_str("target finished without a reason"),
                        },
                    ),
                };
                let outcome = target.outcome(reason);
                self.record_target_outcome(outcome);
            } else {
                kept.push(target);
                assert(target_views(kept@) =~= target_views(before).push(view));
            }
        }
        assert(group.targets.take(group.targets.len() as int) =~= group.targets);
        self.targets = kept;
    }

    /// Decides that every target ends with `failure`.
    pub fn fail_all_targets(&mut self, failure: ManagedTargetFailure)
        ensures
            final(self)@ == (GroupView {
                targets: old(self)@.targets.map_values(
                    |target: TargetView| target.marked(EndReasonView::Failed(failure@)),
                ),
                ..old(self)@
            }),
    {
        let ghost group = self@;
        let mut i: usize = 0;
        while i < self.targets.len()
            invariant
                i <= self.targets@.len(),
                self@ == (GroupView { targets: self@.targets, ..group }),
                self@.targets.len() == group.targets.len(),
                forall|j: int|
                    0 <= j < group.targets.len() ==> (#[trigger] self@.targets[j]) == (if j < i {
                        group.targets[j].marked(EndReasonView::Failed(failure@))
                    } else {
                        group.targets[j]
                    }),
            decreases self.targets@.len() - i,
        {
            let ghost before = self.targets@;
            self.targets[i].mark_finished(ManagedTargetEndReason::Failed(failure.clone()));
            proof {
                assert forall|j: int| 0 <= j < group.targets.len() implies (
                #[trigger] self@.targets[j]) == (if j < i + 1 {
                    group.targets[j].marked(EndReasonView::Failed(failure@))
                } else {
                    group.targets[j]
                }) by {
                    if j != i {
                        assert(self.targets@[j] == before[j]);
                        assert(target_views(before)[j] == before[j]@);
                    } else {
                        assert(target_views(before)[j] == before[j]@);
                    }
                }
            }
            i += 1;
        }
        assert(self@.targets =~= group.targets.map_values(
            |target: TargetView| target.marked(EndReasonView::Failed(failure@)),
        ));
    }

    /// Whether the group has completed on its own.
    pub fn group_should_complete(&self) -> (result: bool)
        ensures
            result == self@.should_complete(),
    {
        match self.config.completion {
            ManagedGroupCompletionPolicy::ExplicitCancellation => false,
            ManagedGroupCompletionPolicy::AllTargetsComplete => self.desired.len() > 0
                && self.targets.len() == 0,
        }
    }

    /// Hands out the outcome of the group, which stops for `end_reason`.
    pub fn take_outcome(&mut self, end_reason: ManagedGroupEndReason) -> (result:
        ManagedGroupOutcome)
        ensures
            result.end_reason == end_reason,
            crate::group::model::outcome_views(result.targets@) == old(self)@.records.recent,
            result.total_target_outcomes == old(self)@.records.total,
            result.successful_target_outcomes == old(self)@.records.successful,
            result.peer_closed_target_outcomes == old(self)@.records.peer_closed,
            result.failed_target_outcomes == old(self)@.records.failed,
            result.discarded_target_outcomes == old(self)@.records.discarded,
            final(self)@ == (GroupView { records: GroupHistoryView::empty(), ..old(self)@ }),
    {
        let mut records = TargetOutcomeHistory::new();
        std::mem::swap(&mut records, &mut self.records);
        records.into_group_outcome(end_reason)
    }
}

fn copy_configs(targets: &Vec<ManagedTargetConfig>) -> (result: Vec<ManagedTargetConfig>)
    ensures
        config_views(result@) == config_views(targets@),
{
    let mut result: Vec<ManagedTargetConfig> = Vec::new();
    let mut i: usize = 0;
    while i < targets.len()
        invariant
            i <= targets@.len(),
            result@.len() == i,
            forall|j: int| 0 <= j < i ==> (#[trigger] result@[j])@ == targets@[j]@,
        decreases targets@.len() - i,
    {
        result.push(targets[i].copy());
        i += 1;
    }
    assert(config_views(result@) =~= config_views(targets@));
    result
}

/// The targets that a desired set keeps, and those that it removes.
fn split_targets(targets: Vec<TargetState>, wanted: &Vec<ManagedTargetConfig>) -> (result: (
    Vec<TargetState>,
    Vec<TargetState>,
))
    ensures
        target_views(result.0@) == staying(target_views(targets@), config_views(wanted@)),
        target_views(result.1@) == leaving(target_views(targets@), config_views(wanted@)),
{
    let ghost listed = targets@;
    let ghost views = target_views(targets@);
    let ghost configs = config_views(wanted@);
    let mut kept: Vec<TargetState> = Vec::new();
    let mut removed: Vec<TargetState> = Vec::new();
    proof {
        assert(target_views(kept@) =~= staying(views.take(0), configs));
        assert(target_views(removed@) =~= leaving(views.take(0), configs));
    }
    for target in iter: targets
        invariant
            iter.seq() == listed,
            views == target_views(listed),
            configs == config_views(wanted@),
            target_views(kept@) == staying(views.take(iter.index() as int), configs),
            target_views(removed@) == leaving(views.take(iter.index() as int), configs),
    {
        let ghost i = iter.index() as int;
        let ghost view = target@;
        let ghost kept_before = kept@;
        let ghost removed_before = removed@;
        proof {
            assert(views[i] == view);
            assert(views.take(i + 1).drop_last() =~= views.take(i));
            assert(views.take(i + 1).last() == view);
        }
        if lists_id(wanted, &target.id) {
            kept.push(target);
            assert(target_views(kept@) =~= target_views(kept_before).push(view));
        } else {
            removed.push(target);
            assert(target_views(removed@) =~= target_views(removed_before).push(view));
        }
    }
    assert(views.take(views.len() as int) =~= views);
    (kept, removed)
}

impl GroupView {
    /// The target with this address.
    pub open spec fn at_remote(self, source: SocketAddr, index: int) -> bool {
        0 <= index < self.targets.len() && self.targets[index].remote == source
    }

    /// How a datagram from `source` is to be treated.
    pub open spec fn datagram_step(self, source: SocketAddr, step: DatagramStep) -> bool {
        match step {
            DatagramStep::Ignore => forall|i: int|
                0 <= i < self.targets.len() && (#[trigger] self.targets[i]).remote == source
                    && (forall|j: int|
                    0 <= j < i ==> (#[trigger] self.targets[j]).remote != source) ==> {
                    &&& !self.targets[i].in_session()
                    &&& !self.targets[i].expects_open_reply(self.drain.completed)
                },
            DatagramStep::Inspect { index } => {
                &&& self.at_remote(source, index as int)
                &&& self.targets[index as int].expects_open_reply(self.drain.completed)
            },
            DatagramStep::Process { index } => {
                &&& self.at_remote(source, index as int)
                &&& self.targets[index as int].in_session()
            },
        }
    }
}

impl ManagedClientGroup {
    /// Finds out whom a datagram concerns. A reply to an open attempt that was
    /// given up, or to one that was never made, is ignored.
    pub fn datagram_step(&self, source: SocketAddr) -> (result: DatagramStep)
        ensures
            self@.datagram_step(source, result),
    {
        let mut k: usize = 0;
        while k < self.targets.len()
            invariant
                k <= self.targets@.len(),
                forall|j: int| 0 <= j < k ==> (#[trigger] self@.targets[j]).remote != source,
            decreases self.targets@.len() - k,
        {
            let target = &self.targets[k];
            if target.remote == source {
                assert(self@.targets[k as int] == target@);
                return match target.status {
                    TargetStatus::Opening { attempt, awaiting_receiver_generation, .. } => {
                        let given_up: bool = match awaiting_receiver_generation {
                            Some(generation) => self.drain.completed >= generation,
                            None => false,
                        };
                        if attempt == 0 || given_up {
                            DatagramStep::Ignore
                        } else {
                            DatagramStep::Inspect { index: k }
                        }
                    },
                    TargetStatus::Active => DatagramStep::Process { index: k },
                    TargetStatus::Draining { .. } => DatagramStep::Process { index: k },
                    TargetStatus::Finished => DatagramStep::Ignore,
                };
            }
            k += 1;
        }
        DatagramStep::Ignore
    }

    /// Takes in how a datagram was inspected for the open reply of a target.
    pub fn conclude_inspection(&mut self, index: usize, inspection: OpenInspection) -> (result: (
        Option<Vec<u8>>,
        bool,
    ))
        requires
            index < old(self)@.targets.len(),
        ensures
            ({
                let target = old(self)@.targets[index as int];
                final(self)@ == old(self)@.with_target(
                    index as int,
                    target.inspected(inspection),
                ).reporting(
                    match inspection {
                        OpenInspection::Opened { outcome, .. } => seq![
                            GroupEventView::Client { target: target.id, event: outcome.event() },
                        ],
                        _ => Seq::empty(),
                    },
                )
            }),
            result.0 == (match inspection {
                OpenInspection::Rejected { cleanup_close, .. } => cleanup_close,
                _ => None,
            }),
            result.1 == !(inspection is Ignored),
    {
        let ghost given = inspection;
        let result = self.targets[index].conclude_inspection(inspection, &mut self.outbox);
        proof {
            let target = old(self)@.targets[index as int];
            assert(self@.targets =~= old(self)@.targets.update(
                index as int,
                target.inspected(given),
            ));
            let events = match given {
                OpenInspection::Opened { outcome, .. } => seq![
                    GroupEventView::Client { target: target.id, event: outcome.event() },
                ],
                _ => Seq::empty(),
            };
            assert(self@.outbox =~= old(self)@.outbox + events);
        }
        result
    }

    /// Takes in what a packet of a target's open session came to.
    pub fn conclude_packet(
        &mut self,
        index: usize,
        result: Result<Vec<ClientEvent>, ClientError>,
        session: SessionFacts,
    ) -> (wake: bool)
        requires
            index < old(self)@.targets.len(),
        ensures
            ({
                let target = old(self)@.targets[index as int];
                &&& final(self)@ == old(self)@.with_target(
                    index as int,
                    target.processed(result, session),
                ).reporting(
                    client_events(
                        target.id,
                        match result {
                            Ok(events) => events@,
                            Err(_) => Seq::empty(),
                        },
                    ),
                )
                &&& wake == (match result {
                    Ok(_) => session.peer_closed || (target.status is Draining
                        && !session.has_timed_out),
                    Err(_) => true,
                })
            }),
    {
        let wake: bool = self.targets[index].process_active_target_packet(
            result,
            session,
            &mut self.outbox,
        );
        proof {
            let target = old(self)@.targets[index as int];
            assert(self@.targets =~= old(self)@.targets.update(
                index as int,
                target.processed(result, session),
            ));
        }
        wake
    }

    /// Takes in that a receive failed. `observed_generation` is the drain that
    /// was requested when the receive began: an empty queue completes it. Any
    /// other failure ends all targets.
    pub fn receive_failed(&mut self, observed_generation: u64, error: &IoError) -> (result:
        ReceiveFailure)
        ensures
            match error.kind {
                IoErrorKind::WouldBlock | IoErrorKind::TimedOut => {
                    let observed = if observed_generation <= old(self)@.drain.requested {
                        observed_generation
                    } else {
                        old(self)@.drain.requested
                    };
                    let advanced = observed > old(self)@.drain.completed;
                    &&& result == (ReceiveFailure::Empty { advanced })
                    &&& final(self)@ == (GroupView {
                        drain: ReceiverDrainState {
                            requested: old(self)@.drain.requested,
                            completed: if advanced {
                                observed
                            } else {
                                old(self)@.drain.completed
                            },
                        },
                        ..old(self)@
                    })
                },
                _ => {
                    &&& result == ReceiveFailure::Fatal
                    &&& final(self)@ == (GroupView {
                        targets: old(self)@.targets.map_values(
                            |target: TargetView|
                                target.marked(
                                    EndReasonView::Failed(
                                        runtime_failure(ClientError::Socket(*error)),
                                    ),
                                ),
                        ),
                        ..old(self)@
                    })
                },
            },
    {
        match error.kind {
            IoErrorKind::WouldBlock | IoErrorKind::TimedOut => {
                let advanced: bool = self.drain.complete_observed(observed_generation);
                ReceiveFailure::Empty { advanced }
            },
            _ => {
                let source = IoError { kind: error.kind, message: error.message.clone() };
                let failure = ManagedTargetFailure::runtime(&ClientError::Socket(source));
                self.fail_all_targets(failure);
                assert(self@.targets =~= old(self)@.targets.map_values(
                    |target: TargetView|
                        target.marked(
                            EndReasonView::Failed(runtime_failure(ClientError::Socket(*error))),
                        ),
                ));
                ReceiveFailure::Fatal
            },
        }
    }

    /// Registers a receiver drain for every open attempt that has expired. One
    /// empty receive then releases all of them.
    pub fn register_due_open_drains(&mut self, now: Instant)
        ensures
            ({
                let (targets, drain) = drains_registered(
                    old(self)@.targets,
                    old(self)@.drain,
                    now,
                );
                final(self)@ == (GroupView { targets, drain, ..old(self)@ })
            }),
    {
        let ghost group = self@;
        let mut i: usize = 0;
        assert(group.targets.take(0) =~= Seq::<TargetView>::empty());
        while i < self.targets.len()
            invariant
                i <= self.targets@.len(),
                self@.targets.len() == group.targets.len(),
                self@ == (GroupView { targets: self@.targets, drain: self.drain, ..group }),
                ({
                    let (targets, drain) = drains_registered(
                        group.targets.take(i as int),
                        group.drain,
                        now,
                    );
                    &&& targets.len() == i
                    &&& drain == self.drain
                    &&& forall|j: int|
                        0 <= j < i ==> (#[trigger] self@.targets[j]) == targets[j]
                }),
                forall|j: int|
                    i <= j < group.targets.len() ==> (#[trigger] self@.targets[j])
                        == group.targets[j],
            decreases self.targets@.len() - i,
        {
            let ghost before = self.targets@;
            proof {
                assert(group.targets.take(i as int + 1).drop_last() =~= group.targets.take(
                    i as int,
                ));
                assert(self@.targets[i as int] == group.targets[i as int]);
            }
            self.targets[i].register_drain(&mut self.drain, now);
            proof {
                assert forall|j: int| 0 <= j < group.targets.len() && j != i implies (
                #[trigger] self@.targets[j]) == target_views(before)[j] by {
                    assert(self.targets@[j] == before[j]);
                }
            }
            i += 1;
        }
        proof {
            assert(group.targets.take(i as int) =~= group.targets);
            let (targets, drain) = drains_registered(group.targets, group.drain, now);
            assert(self@.targets =~= targets);
        }
    }

    /// Decides about the next open attempt of a target.
    pub fn step_open(&mut self, index: usize, now: Instant, sent_at: Instant) -> (result: OpenStep)
        requires
            index < old(self)@.targets.len(),
        ensures
            ({
                let (target, step) = old(self)@.targets[index as int].open_stepped(
                    old(self)@.drain.completed,
                    now,
                    sent_at,
                    old(self)@.client.open_timeouts,
                );
                &&& result == step
                &&& final(self)@ == old(self)@.with_target(index as int, target)
            }),
            result is Send ==> old(self)@.targets[index as int].status is Opening && old(
                self,
            )@.targets[index as int].status->attempt < usize::MAX,
    {
        let completed: u64 = self.drain.completed;
        let result = self.targets[index].step_open(
            completed,
            now,
            sent_at,
            &self.config.client.open_timeouts,
        );
        proof {
            let target = old(self)@.targets[index as int].open_stepped(
                old(self)@.drain.completed,
                now,
                sent_at,
                old(self)@.client.open_timeouts,
            ).0;
            assert(self@.targets =~= old(self)@.targets.update(index as int, target));
        }
        result
    }

    /// Takes in that an open request of a target was sent, or failed to be.
    pub fn conclude_open_send(
        &mut self,
        index: usize,
        deadline: Instant,
        result: Result<(), IoError>,
    )
        requires
            index < old(self)@.targets.len(),
            old(self)@.targets[index as int].status is Opening,
            old(self)@.targets[index as int].status->attempt < usize::MAX,
        ensures
            final(self)@ == old(self)@.with_target(
                index as int,
                old(self)@.targets[index as int].open_sent(deadline, result),
            ),
    {
        self.targets[index].conclude_open_send(deadline, result);
        assert(self@.targets =~= old(self)@.targets.update(
            index as int,
            old(self)@.targets[index as int].open_sent(deadline, result),
        ));
    }

    /// Whether the due probes of a target are to be expired. One whose peer
    /// closed the session ends instead.
    pub fn step_timeouts(&mut self, index: usize) -> (result: bool)
        requires
            index < old(self)@.targets.len(),
        ensures
            ({
                let target = old(self)@.targets[index as int];
                &&& result == (target.in_session() && !target.session.peer_closed)
                &&& final(self)@ == (if target.in_session() && target.session.peer_closed {
                    old(self)@.with_target(index as int, target.marked(EndReasonView::PeerClosed))
                } else {
                    old(self)@
                })
            }),
    {
        let in_session: bool = match self.targets[index].status {
            TargetStatus::Active => true,
            TargetStatus::Draining { .. } => true,
            _ => false,
        };
        if !in_session {
            return false;
        }
        if self.targets[index].session.peer_closed {
            self.targets[index].mark_finished(ManagedTargetEndReason::PeerClosed);
            assert(self@.targets =~= old(self)@.targets.update(
                index as int,
                old(self)@.targets[index as int].marked(EndReasonView::PeerClosed),
            ));
            return false;
        }
        true
    }

    /// Takes in that the due probes of a target were expired.
    pub fn conclude_timeouts(
        &mut self,
        index: usize,
        result: Result<Vec<ClientEvent>, ClientError>,
        session: SessionFacts,
    )
        requires
            index < old(self)@.targets.len(),
        ensures
            ({
                let target = old(self)@.targets[index as int];
                final(self)@ == old(self)@.with_target(
                    index as int,
                    target.expired(result, session),
                ).reporting(
                    client_events(
                        target.id,
                        match result {
                            Ok(events) => events@,
                            Err(_) => Seq::empty(),
                        },
                    ),
                )
            }),
    {
        self.targets[index].conclude_timeouts(result, session, &mut self.outbox);
        assert(self@.targets =~= old(self)@.targets.update(
            index as int,
            old(self)@.targets[index as int].expired(result, session),
        ));
    }

    /// Decides whether a target has completed.
    pub fn step_completion(&mut self, index: usize, now: Instant) -> (result: FinishStep)
        requires
            index < old(self)@.targets.len(),
            old(self)@.targets[index as int].begins_drain() ==> now.nanos + GROUP_FINAL_DRAIN
                <= MAX_INSTANT_NANOS,
        ensures
            ({
                let (target, step) = old(self)@.targets[index as int].completion(
                    now,
                    GROUP_FINAL_DRAIN,
                );
                &&& result == step
                &&& final(self)@ == old(self)@.with_target(index as int, target)
            }),
    {
        let result = self.targets[index].step_completion(now, GROUP_FINAL_DRAIN);
        assert(self@.targets =~= old(self)@.targets.update(
            index as int,
            old(self)@.targets[index as int].completion(now, GROUP_FINAL_DRAIN).0,
        ));
        result
    }

    /// Closes a target that has completed its test. `attempt` is there exactly
    /// where its session had to be closed.
    pub fn close_completed(&mut self, index: usize, attempt: Option<CloseAttempt>)
        requires
            index < old(self)@.targets.len(),
            attempt is Some <==> old(self)@.targets[index as int].needs_close(),
        ensures
            ({
                let target = old(self)@.targets[index as int];
                let (closed, events) = target.closed(EndReasonView::TestComplete, attempt);
                final(self)@ == old(self)@.with_target(index as int, closed).reporting(
                    client_events(target.id, events),
                )
            }),
    {
        self.close_target(index, ManagedTargetEndReason::TestComplete, attempt);
    }

    /// Closes a target that stays listed until it is collected. `attempt` is
    /// there exactly where its session had to be closed.
    pub fn close_target(
        &mut self,
        index: usize,
        reason: ManagedTargetEndReason,
        attempt: Option<CloseAttempt>,
    )
        requires
            index < old(self)@.targets.len(),
            attempt is Some <==> old(self)@.targets[index as int].needs_close(),
        ensures
            ({
                let target = old(self)@.targets[index as int];
                let (closed, events) = target.closed(reason@, attempt);
                final(self)@ == old(self)@.with_target(index as int, closed).reporting(
                    client_events(target.id, events),
                )
            }),
    {
        self.targets[index].close_locked_target(reason, attempt, &mut self.outbox);
        assert(self@.targets =~= old(self)@.targets.update(
            index as int,
            old(self)@.targets[index as int].closed(reason@, attempt).0,
        ));
    }

    /// Takes in an attempt to send a probe of a target.
    pub fn conclude_probe(&mut self, index: usize, attempt: ProbeAttempt)
        requires
            index < old(self)@.targets.len(),
        ensures
            ({
                let target = old(self)@.targets[index as int];
                let (probed, events) = target.probed(attempt);
                final(self)@ == old(self)@.with_target(index as int, probed).reporting(
                    client_events(target.id, events),
                )
            }),
    {
        self.targets[index].conclude_probe(attempt, &mut self.outbox);
        assert(self@.targets =~= old(self)@.targets.update(
            index as int,
            old(self)@.targets[index as int].probed(attempt).0,
        ));
    }

    /// The positions of the active targets, in the order in which they joined.
    pub fn active_targets(&self) -> (result: Vec<usize>)
        ensures
            result@ == active_positions(self@.targets),
            forall|k: int|
                0 <= k < result@.len() ==> (#[trigger] result@[k]) < self@.targets.len()
                    && self@.targets[result@[k] as int].status is Active,
    {
        let mut result: Vec<usize> = Vec::new();
        let mut i: usize = 0;
        assert(result@ =~= active_positions(self@.targets.take(0)));
        while i < self.targets.len()
            invariant
                i <= self.targets@.len(),
                result@ == active_positions(self@.targets.take(i as int)),
                forall|k: int|
                    0 <= k < result@.len() ==> (#[trigger] result@[k]) < i
                        && self@.targets[result@[k] as int].status is Active,
            decreases self.targets@.len() - i,
        {
            proof {
                assert(self@.targets.take(i as int + 1).drop_last() =~= self@.targets.take(
                    i as int,
                ));
                assert(self@.targets[i as int] == self.targets@[i as int]@);
            }
            match self.targets[i].status {
                TargetStatus::Active => {
                    result.push(i);
                },
                _ => {},
            }
            i += 1;
        }
        assert(self@.targets.take(i as int) =~= self@.targets);
        result
    }

    /// When the scheduler has to look at opening or draining targets again, or
    /// at `pacing`, whichever comes first.
    pub fn scheduler_deadline(&self, pacing: Option<Instant>) -> (result: Option<Instant>)
        ensures
            result == earlier(
                earlier(
                    earliest(
                        self@.targets.map_values(|target: TargetView| open_deadline(target)),
                    ),
                    pacing,
                ),
                earliest(self@.targets.map_values(|target: TargetView| drain_deadline(target))),
            ),
    {
        let mut opens: Vec<Option<Instant>> = Vec::new();
        let mut drains: Vec<Option<Instant>> = Vec::new();
        let mut i: usize = 0;
        while i < self.targets.len()
            invariant
                i <= self.targets@.len(),
                opens@.len() == i,
                drains@.len() == i,
                forall|j: int| 0 <= j < i ==> (#[trigger] opens@[j]) == open_deadline(
                    self@.targets[j],
                ),
                forall|j: int| 0 <= j < i ==> (#[trigger] drains@[j]) == drain_deadline(
                    self@.targets[j],
                ),
            decreases self.targets@.len() - i,
        {
            assert(self@.targets[i as int] == self.targets@[i as int]@);
            let (open, drain): (Option<Instant>, Option<Instant>) = match self.targets[i].status {
                TargetStatus::Opening { next_send_at, awaiting_receiver_generation, .. } => {
                    if awaiting_receiver_generation.is_none() {
                        (Some(next_send_at), None)
                    } else {
                        (None, None)
                    }
                },
                TargetStatus::Draining { deadline } => (None, Some(deadline)),
                _ => (None, None),
            };
            opens.push(open);
            drains.push(drain);
            i += 1;
        }
        proof {
            assert(opens@ =~= self@.targets.map_values(|target: TargetView| open_deadline(target)));
            assert(drains@ =~= self@.targets.map_values(
                |target: TargetView| drain_deadline(target),
            ));
        }
        let open = earliest_deadline(&opens);
        let drain = earliest_deadline(&drains);
        earlier_instant(earlier_instant(open, pacing), drain)
    }
}

/// How long the scheduler sleeps for a deadline: until then, but no longer
/// than [`MAX_SLEEP`] and not at all once it has passed.
pub fn scheduler_sleep(deadline: Instant, now: Instant) -> (result: Duration)
    ensures
        result.nanos == (if deadline.nanos <= now.nanos {
            0
        } else if deadline.nanos - now.nanos <= MAX_SLEEP {
            (deadline.nanos - now.nanos) as u128
        } else {
            MAX_SLEEP
        }),
{
    let left = deadline.saturating_duration_since(now);
    if left.nanos <= MAX_SLEEP {
        left
    } else {
        Duration { nanos: MAX_SLEEP }
    }
}

} // verus!
