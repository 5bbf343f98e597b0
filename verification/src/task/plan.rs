//! Planning and applying updates of the desired target set.
use vstd::prelude::*;
use vstd::string::*;

use crate::config::{key_copy, ClientConfig, ClientConfigView};
use crate::error::ClientError;
use crate::model::{
    ManagedCommandApplyError, ManagedTargetConfig, ManagedTargetEndReason, TargetConfigView,
};
use crate::task::plan_view::{
    acceptable, additions, check_error, effective_config, failed_check, first_refused, names,
    refused, remaining, repeated, retirements, running, RetirementView, TargetChecks,
};
use crate::task::state::ManagedClientTask;
use crate::task::target::{synchronously_retireable, TargetView};
use crate::target_id::TargetId;
use crate::task::view::TaskView;

verus! {

/// One entry of a desired target set.
#[derive(Debug)]
pub struct RequestedTarget {
    pub target: ManagedTargetConfig,
    pub checks: TargetChecks,
}

pub open spec fn wanted_configs(incoming: Seq<RequestedTarget>) -> Seq<TargetConfigView> {
    incoming.map_values(|request: RequestedTarget| request.target@)
}

pub open spec fn wanted_checks(incoming: Seq<RequestedTarget>) -> Seq<TargetChecks> {
    incoming.map_values(|request: RequestedTarget| request.checks)
}

/// A target that an update adds.
#[derive(Debug)]
pub struct PlannedTarget {
    pub target: ManagedTargetConfig,
    pub client_config: ClientConfig,
    pub generation: u64,
}

impl View for PlannedTarget {
    type V = TargetView;

    open spec fn view(&self) -> TargetView {
        TargetView::fresh(self.target@, self.generation, self.client_config@)
    }
}

/// A target that an update ends.
#[derive(Debug)]
pub struct PlannedRetirement {
    pub index: usize,
    pub reason: ManagedTargetEndReason,
    pub synchronous: bool,
}

impl View for PlannedRetirement {
    type V = RetirementView;

    open spec fn view(&self) -> RetirementView {
        RetirementView {
            index: self.index as int,
            reason: self.reason@,
            synchronous: self.synchronous,
        }
    }
}

/// Everything an update changes, worked out before anything is changed.
#[derive(Debug)]
pub struct UpdatePlan {
    pub retirements: Vec<PlannedRetirement>,
    pub created: Vec<PlannedTarget>,
    pub next_generation: u64,
    pub next_command_sequence: u64,
    pub prospective_live_count: usize,
}

pub open spec fn retirement_views(retirements: Seq<PlannedRetirement>) -> Seq<RetirementView> {
    retirements.map_values(|retirement: PlannedRetirement| retirement@)
}

pub open spec fn planned_views(planned: Seq<PlannedTarget>) -> Seq<TargetView> {
    planned.map_values(|planned: PlannedTarget| planned@)
}

/// Holds the verdicts of the other modules against the rules for address
/// families, and reports the first failure.
pub fn validate_target_config(config: &ClientConfig, checks: TargetChecks) -> (result: Result<
    (),
    ClientError,
>)
    ensures
        match failed_check(config@, checks) {
            None => result is Ok,
            Some(failed) => result matches Err(error) && check_error(failed, checks, error),
        },
{
    if let Err(error) = checks.open_timeouts {
        return Err(error);
    }
    if let Err(error) = checks.session {
        return Err(error);
    }
    if config.socket_config.ipv4_only && config.socket_config.ipv6_only {
        return Err(
            ClientError::InvalidConfig {
                reason: String::from_str("ipv4_only and ipv6_only cannot both be true"),
            },
        );
    }
    if config.socket_config.ttl.is_some() {
        if let Err(error) = checks.ttl {
            return Err(error);
        }
    }
    Ok(())
}

/// The session configuration of one target.
pub fn target_client_config(base: &ClientConfig, target: &ManagedTargetConfig) -> (result:
    ClientConfig)
    ensures
        result@ == effective_config(base@, target@),
{
    let mut config = base.copy();
    config.server_addr = target.server_addr.clone();
    if let Some(auth) = &target.auth {
        config.hmac_key = key_copy(&auth.hmac_key);
    }
    config
}

/// Whether `targets` holds this very configuration.
fn lists(targets: &Vec<ManagedTargetConfig>, config: &ManagedTargetConfig) -> (result: bool)
    ensures
        result == target_config_views(targets@).contains(config@),
{
    let mut i: usize = 0;
    while i < targets.len()
        invariant
            i <= targets@.len(),
            forall|j: int| 0 <= j < i ==> (#[trigger] targets@[j])@ != config@,
        decreases targets@.len() - i,
    {
        if targets[i].same(config) {
            assert(target_config_views(targets@)[i as int] == config@);
            return true;
        }
        i += 1;
    }
    false
}

pub open spec fn target_config_views(targets: Seq<ManagedTargetConfig>) -> Seq<TargetConfigView> {
    targets.map_values(|target: ManagedTargetConfig| target@)
}

/// Checks a desired set entry by entry and gives its configurations back.
fn prepare_targets(base: &ClientConfig, incoming: Vec<RequestedTarget>) -> (result: Result<
    Vec<ManagedTargetConfig>,
    ManagedCommandApplyError,
>)
    ensures
        match result {
            Ok(targets) => {
                &&& target_config_views(targets@) == wanted_configs(incoming@)
                &&& acceptable(base@, wanted_configs(incoming@), wanted_checks(incoming@))
            },
            Err(ManagedCommandApplyError::DuplicateTargetId { id }) => exists|i: int|
                {
                    &&& #[trigger] first_refused(
                        base@,
                        wanted_configs(incoming@),
                        wanted_checks(incoming@),
                        i,
                    )
                    &&& repeated(wanted_configs(incoming@), i)
                    &&& id@ == wanted_configs(incoming@)[i].id
                },
            Err(ManagedCommandApplyError::InvalidTarget { id, source }) => exists|i: int|
                {
                    &&& #[trigger] first_refused(
                        base@,
                        wanted_configs(incoming@),
                        wanted_checks(incoming@),
                        i,
                    )
                    &&& !repeated(wanted_configs(incoming@), i)
                    &&& id@ == wanted_configs(incoming@)[i].id
                    &&& check_error(
                        failed_check(
                            effective_config(base@, wanted_configs(incoming@)[i]),
                            wanted_checks(incoming@)[i],
                        )->0,
                        wanted_checks(incoming@)[i],
                        source,
                    )
                },
            Err(_) => false,
        },
{
    let ghost wanted = wanted_configs(incoming@);
    let ghost checks = wanted_checks(incoming@);
    let ghost requests = incoming@;
    let mut prepared: Vec<ManagedTargetConfig> = Vec::new();
    for request in iter: incoming
        invariant
            iter.seq() == requests,
            wanted == wanted_configs(requests),
            checks == wanted_checks(requests),
            prepared@.len() == iter.index(),
            target_config_views(prepared@) == wanted.take(iter.index() as int),
            forall|j: int|
                0 <= j < iter.index() ==> !#[trigger] refused(base@, wanted, checks, j),
    {
        let ghost i = iter.index() as int;
        let target = request.target;
        proof {
            assert(request == requests[i]);
            assert(wanted[i] == target@);
            assert(checks[i] == request.checks);
        }
        if lists_id(&prepared, &target.id) {
            proof {
                let at = choose|j: int|
                    0 <= j < wanted.take(i).len() && (#[trigger] wanted.take(i)[j]).id == target@.id;
                assert(wanted[at].id == wanted[i].id);
                assert(repeated(wanted, i));
                assert(first_refused(base@, wanted, checks, i));
            }
            return Err(ManagedCommandApplyError::DuplicateTargetId { id: target.id });
        }
        proof {
            if repeated(wanted, i) {
                let at = choose|j: int| 0 <= j < i && (#[trigger] wanted[j]).id == wanted[i].id;
                assert(wanted.take(i)[at].id == target@.id);
            }
        }
        let client_config = target_client_config(base, &target);
        if let Err(source) = validate_target_config(&client_config, request.checks) {
            assert(first_refused(base@, wanted, checks, i));
            return Err(ManagedCommandApplyError::InvalidTarget { id: target.id, source });
        }
        prepared.push(target);
        proof {
            assert(target_config_views(prepared@) =~= wanted.take(i + 1));
        }
    }
    assert(wanted.take(wanted.len() as int) =~= wanted);
    Ok(prepared)
}

/// `error` is what refuses an update of `task` to the desired set `wanted`.
pub open spec fn update_error(
    task: TaskView,
    wanted: Seq<TargetConfigView>,
    checks: Seq<TargetChecks>,
    error: ManagedCommandApplyError,
) -> bool {
    let base = task.config.client;
    let valid = acceptable(base, wanted, checks);
    match error {
        ManagedCommandApplyError::DuplicateTargetId { id } => exists|i: int|
            {
                &&& #[trigger] first_refused(base, wanted, checks, i)
                &&& repeated(wanted, i)
                &&& id@ == wanted[i].id
            },
        ManagedCommandApplyError::InvalidTarget { id, source } => exists|i: int|
            {
                &&& #[trigger] first_refused(base, wanted, checks, i)
                &&& !repeated(wanted, i)
                &&& id@ == wanted[i].id
                &&& check_error(
                    failed_check(effective_config(base, wanted[i]), checks[i])->0,
                    checks[i],
                    source,
                )
            },
        ManagedCommandApplyError::GenerationExhausted => valid && task.generations_exhausted(
            wanted,
        ),
        ManagedCommandApplyError::CommandSequenceExhausted => valid && !task.generations_exhausted(
            wanted,
        ) && task.applied_command_sequence == u64::MAX,
        ManagedCommandApplyError::LiveGenerationLimitExceeded { required, limit } => {
            &&& valid
            &&& !task.generations_exhausted(wanted)
            &&& task.applied_command_sequence < u64::MAX
            &&& task.live_after(wanted) > limit
            &&& limit == task.config.max_live_target_generations
            &&& required == (if task.live_after(wanted) <= usize::MAX {
                task.live_after(wanted)
            } else {
                usize::MAX as nat
            })
        },
        _ => false,
    }
}

/// An update of `task` to the desired set `wanted` is accepted.
pub open spec fn update_accepted(
    task: TaskView,
    wanted: Seq<TargetConfigView>,
    checks: Seq<TargetChecks>,
) -> bool {
    &&& acceptable(task.config.client, wanted, checks)
    &&& !task.generations_exhausted(wanted)
    &&& task.applied_command_sequence < u64::MAX
    &&& task.live_after(wanted) <= task.config.max_live_target_generations
}

/// An accepted update is not refused by any error.
pub proof fn law_update_is_accepted_or_refused(
    task: TaskView,
    wanted: Seq<TargetConfigView>,
    checks: Seq<TargetChecks>,
    error: ManagedCommandApplyError,
)
    requires
        update_accepted(task, wanted, checks),
    ensures
        !update_error(task, wanted, checks, error),
{
}

impl ManagedClientTask {
    /// Whether a desired target with this very configuration exists.
    fn is_running(&self, config: &ManagedTargetConfig) -> (result: bool)
        ensures
            result == running(self@.targets, config@),
    {
        let mut i: usize = 0;
        while i < self.target_count()
            invariant
                i <= self@.targets.len(),
                forall|j: int|
                    0 <= j < i ==> !((#[trigger] self@.targets[j]).desired
                        && self@.targets[j].config == config@),
            decreases self@.targets.len() - i,
        {
            let target = self.target(i);
            if target.desired && target.config.same(config) {
                assert(self@.targets[i as int].desired);
                return true;
            }
            i += 1;
        }
        false
    }

    /// The targets that end when the desired set becomes `prepared`, and how
    /// many stay in the list.
    fn plan_retirements(&self, prepared: &Vec<ManagedTargetConfig>) -> (result: (
        Vec<PlannedRetirement>,
        usize,
    ))
        ensures
            retirement_views(result.0@) == retirements(
                self@.targets,
                target_config_views(prepared@),
            ),
            result.1 == remaining(self@.targets, target_config_views(prepared@)).len(),
    {
        let ghost wanted = target_config_views(prepared@);
        let mut planned: Vec<PlannedRetirement> = Vec::new();
        let mut staying: usize = 0;
        let mut i: usize = 0;
        assert(retirement_views(planned@) =~= retirements(self@.targets.take(0), wanted));
        while i < self.target_count()
            invariant
                wanted == target_config_views(prepared@),
                i <= self@.targets.len(),
                staying <= i,
                retirement_views(planned@) == retirements(self@.targets.take(i as int), wanted),
                staying == remaining(self@.targets.take(i as int), wanted).len(),
            decreases self@.targets.len() - i,
        {
            let target = self.target(i);
            proof {
                assert(self@.targets.take(i as int + 1).drop_last() =~= self@.targets.take(
                    i as int,
                ));
            }
            if target.desired && !lists(prepared, &target.config) {
                let reason = if lists_id(prepared, &target.instance.id) {
                    ManagedTargetEndReason::Replaced
                } else {
                    ManagedTargetEndReason::Removed
                };
                let synchronous: bool = synchronously_retireable(&target.state);
                let ghost before = planned@;
                planned.push(PlannedRetirement { index: i, reason, synchronous });
                proof {
                    assert(retirement_views(planned@) =~= retirement_views(before).push(
                        planned@.last()@,
                    ));
                }
                if !synchronous {
                    staying += 1;
                }
            } else {
                staying += 1;
            }
            i += 1;
        }
        assert(self@.targets.take(i as int) =~= self@.targets);
        (planned, staying)
    }

    /// The targets that are new in the desired set `prepared`, or nothing where
    /// the generations do not suffice for them.
    fn plan_additions(&self, prepared: Vec<ManagedTargetConfig>) -> (result: Option<
        Vec<PlannedTarget>,
    >)
        ensures
            match result {
                Some(created) => {
                    &&& planned_views(created@) == self@.added(target_config_views(prepared@))
                    &&& !self@.generations_exhausted(target_config_views(prepared@))
                },
                None => self@.generations_exhausted(target_config_views(prepared@)),
            },
    {
        let ghost wanted = target_config_views(prepared@);
        let ghost configs = prepared@;
        let mut created: Vec<PlannedTarget> = Vec::new();
        let mut next_generation: u64 = self.next_generation();
        assert(planned_views(created@) =~= self@.added(wanted.take(0)));
        for target in iter: prepared
            invariant
                iter.seq() == configs,
                wanted == target_config_views(configs),
                planned_views(created@) == self@.added(wanted.take(iter.index() as int)),
                next_generation == self@.next_generation + created@.len(),
        {
            let ghost i = iter.index() as int;
            proof {
                assert(wanted.take(i + 1).drop_last() =~= wanted.take(i));
                assert(wanted.take(i + 1).last() == target@);
            }
            if !self.is_running(&target) {
                let generation: u64 = next_generation;
                let ghost before = created@;
                match next_generation.checked_add(1) {
                    Some(next) => {
                        next_generation = next;
                    },
                    None => {
                        proof {
                            lemma_additions_grow(
                                self@.targets,
                                wanted,
                                self@.config.client,
                                self@.next_generation,
                                i + 1,
                            );
                        }
                        return None;
                    },
                }
                let client_config = target_client_config(&self.config().client, &target);
                created.push(PlannedTarget { target, client_config, generation });
                proof {
                    assert(planned_views(created@) =~= planned_views(before).push(
                        created@.last()@,
                    ));
                }
            }
        }
        assert(wanted.take(wanted.len() as int) =~= wanted);
        Some(created)
    }

    /// Works out what an update to the desired set `incoming` changes, or why
    /// it is refused.
    pub fn plan_targets(&self, incoming: Vec<RequestedTarget>) -> (result: Result<
        UpdatePlan,
        ManagedCommandApplyError,
    >)
        ensures
            match result {
                Ok(plan) => {
                    let wanted = wanted_configs(incoming@);
                    &&& update_accepted(self@, wanted, wanted_checks(incoming@))
                    &&& retirement_views(plan.retirements@) == retirements(self@.targets, wanted)
                    &&& planned_views(plan.created@) == self@.added(wanted)
                    &&& plan.next_generation == self@.next_generation + plan.created@.len()
                    &&& plan.next_command_sequence == self@.applied_command_sequence + 1
                    &&& plan.prospective_live_count == self@.live_after(wanted)
                },
                Err(error) => update_error(
                    self@,
                    wanted_configs(incoming@),
                    wanted_checks(incoming@),
                    error,
                ),
            },
    {
        let prepared = match prepare_targets(&self.config().client, incoming) {
            Ok(prepared) => prepared,
            Err(error) => {
                return Err(error);
            },
        };
        let (retirements, staying) = self.plan_retirements(&prepared);
        let created = match self.plan_additions(prepared) {
            Some(created) => created,
            None => {
                return Err(ManagedCommandApplyError::GenerationExhausted);
            },
        };
        let next_generation: u64 = self.next_generation() + created.len() as u64;
        let next_command_sequence: u64 = match self.applied_command_sequence().checked_add(1) {
            Some(next) => next,
            None => {
                return Err(ManagedCommandApplyError::CommandSequenceExhausted);
            },
        };
        let limit: usize = self.config().max_live_target_generations;
        let prospective_live_count: usize = match staying.checked_add(created.len()) {
            Some(required) if required <= limit => required,
            Some(required) => {
                return Err(
                    ManagedCommandApplyError::LiveGenerationLimitExceeded { required, limit },
                );
            },
            None => {
                return Err(
                    ManagedCommandApplyError::LiveGenerationLimitExceeded {
                        required: usize::MAX,
                        limit,
                    },
                );
            },
        };
        Ok(
            UpdatePlan {
                retirements,
                created,
                next_generation,
                next_command_sequence,
                prospective_live_count,
            },
        )
    }
}

/// Whether `targets` holds a configuration of the target `id`.
pub(crate) fn lists_id(targets: &Vec<ManagedTargetConfig>, id: &TargetId) -> (result: bool)
    ensures
        result == names(target_config_views(targets@), id@),
{
    let mut i: usize = 0;
    while i < targets.len()
        invariant
            i <= targets@.len(),
            forall|j: int| 0 <= j < i ==> (#[trigger] targets@[j])@.id != id@,
        decreases targets@.len() - i,
    {
        if targets[i].id.same(id) {
            assert(target_config_views(targets@)[i as int].id == id@);
            return true;
        }
        i += 1;
    }
    assert forall|j: int| 0 <= j < targets@.len() implies (#[trigger] target_config_views(
        targets@,
    )[j]).id != id@ by {
        assert(targets@[j]@.id != id@);
    }
    false
}

proof fn lemma_additions_grow(
    targets: Seq<TargetView>,
    wanted: Seq<TargetConfigView>,
    base: ClientConfigView,
    next_generation: u64,
    upto: int,
)
    requires
        0 <= upto <= wanted.len(),
    ensures
        additions(targets, wanted.take(upto), base, next_generation).len() <= additions(
            targets,
            wanted,
            base,
            next_generation,
        ).len(),
    decreases wanted.len() - upto,
{
    if upto < wanted.len() {
        assert(wanted.take(upto + 1).drop_last() =~= wanted.take(upto));
        lemma_additions_grow(targets, wanted, base, next_generation, upto + 1);
    } else {
        assert(wanted.take(upto) =~= wanted);
    }
}

} // verus!
