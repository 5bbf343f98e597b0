//! Construction of a driver.
use vstd::prelude::*;

use crate::model::{
    ManagedClientConfig, ManagedClientConfigView, ManagedCompletionPolicy, ManagedConfigError,
    ManagedTargetConfig, TargetConfigView, TargetInstance,
};
use crate::config::ClientConfigView;
use crate::task::plan::{
    lists_id, target_client_config, target_config_views, validate_target_config, wanted_checks,
    wanted_configs, RequestedTarget,
};
use crate::task::plan_view::{check_error, effective_config, failed_check, repeated, TargetChecks};
use crate::task::state::{target_views, ManagedClientTask};
use crate::task::target::{TargetCounters, TargetRuntime, TargetState, TargetView};
use crate::task::update_laws::law_construction_is_well_formed;
use crate::task::view::TaskView;
use crate::timing::Instant;

verus! {

/// Largest capacity that a Tokio broadcast channel takes.
pub const MAX_EVENT_CAPACITY: usize = usize::MAX / 2;

/// Entry point for constructing a managed task.
#[derive(Debug)]
pub struct ManagedClient;

/// Entry `i` of an initial target set cannot be accepted.
pub open spec fn initially_refused(
    base: ClientConfigView,
    wanted: Seq<TargetConfigView>,
    checks: Seq<TargetChecks>,
    i: int,
) -> bool {
    repeated(wanted, i) || i + 2 > u64::MAX || failed_check(
        effective_config(base, wanted[i]),
        checks[i],
    ) is Some
}

pub open spec fn first_initially_refused(
    base: ClientConfigView,
    wanted: Seq<TargetConfigView>,
    checks: Seq<TargetChecks>,
    i: int,
) -> bool {
    &&& 0 <= i < wanted.len()
    &&& initially_refused(base, wanted, checks, i)
    &&& forall|j: int| 0 <= j < i ==> !#[trigger] initially_refused(base, wanted, checks, j)
}

/// The targets of an initial set, numbered from one.
pub open spec fn initial_targets(
    base: ClientConfigView,
    wanted: Seq<TargetConfigView>,
) -> Seq<TargetView> {
    Seq::new(
        wanted.len(),
        |i: int| TargetView::fresh(wanted[i], (i + 1) as u64, effective_config(base, wanted[i])),
    )
}

/// `error` is what refuses the limits of a configuration for `count` targets,
/// with `max_commands` as the largest capacity of the command queue.
pub open spec fn limits_error(
    config: ManagedClientConfigView,
    count: nat,
    max_commands: usize,
    now: Instant,
) -> Option<ManagedConfigError> {
    if config.event_capacity == 0 {
        Some(ManagedConfigError::ZeroEventCapacity)
    } else if config.event_capacity > MAX_EVENT_CAPACITY {
        Some(
            ManagedConfigError::EventCapacityTooLarge {
                configured: config.event_capacity,
                maximum: MAX_EVENT_CAPACITY,
            },
        )
    } else if config.command_capacity == 0 {
        Some(ManagedConfigError::ZeroCommandCapacity)
    } else if config.command_capacity > max_commands {
        Some(
            ManagedConfigError::CommandCapacityTooLarge {
                configured: config.command_capacity,
                maximum: max_commands,
            },
        )
    } else if config.max_live_target_generations == 0 {
        Some(ManagedConfigError::ZeroLiveGenerationLimit)
    } else if now.spec_checked_add(config.final_drain) is None {
        Some(ManagedConfigError::UnschedulableFinalDrain { duration: config.final_drain })
    } else if count > config.max_live_target_generations {
        Some(
            ManagedConfigError::TooManyTargets {
                configured: count as usize,
                limit: config.max_live_target_generations,
            },
        )
    } else if count == 0 && config.completion == ManagedCompletionPolicy::FinishWhenQuiescent {
        Some(ManagedConfigError::EmptyInitialTargets)
    } else {
        None
    }
}

/// `error` is what refuses an initial target set.
pub open spec fn targets_error(
    base: ClientConfigView,
    wanted: Seq<TargetConfigView>,
    checks: Seq<TargetChecks>,
    error: ManagedConfigError,
) -> bool {
    match error {
        ManagedConfigError::DuplicateTargetId { id } => exists|i: int|
            {
                &&& #[trigger] first_initially_refused(base, wanted, checks, i)
                &&& repeated(wanted, i)
                &&& id@ == wanted[i].id
            },
        ManagedConfigError::GenerationExhausted => exists|i: int|
            {
                &&& #[trigger] first_initially_refused(base, wanted, checks, i)
                &&& !repeated(wanted, i)
                &&& i + 2 > u64::MAX
            },
        ManagedConfigError::InvalidTarget { id, source } => exists|i: int|
            {
                &&& #[trigger] first_initially_refused(base, wanted, checks, i)
                &&& !repeated(wanted, i)
                &&& i + 2 <= u64::MAX
                &&& id@ == wanted[i].id
                &&& check_error(
                    failed_check(effective_config(base, wanted[i]), checks[i])->0,
                    checks[i],
                    source,
                )
            },
        _ => false,
    }
}

/// The largest number of permits of a Tokio semaphore, which bounds the
/// capacity of a Tokio command queue. It reads
/// `tokio::sync::Semaphore::MAX_PERMITS`, documented as `usize::MAX >> 3`.
#[verifier::external_body]
fn max_command_capacity() -> (result: usize)
    ensures
        result == usize::MAX / 8,
{
    tokio::sync::Semaphore::MAX_PERMITS
}

/// Holds the limits of a configuration against what can be scheduled and queued.
fn check_limits(config: &ManagedClientConfig, count: usize, max_commands: usize, now: Instant) -> (result:
    Result<(), ManagedConfigError>)
    ensures
        match limits_error(config@, count as nat, max_commands, now) {
            Some(error) => result == Err::<(), _>(error),
            None => result is Ok,
        },
{
    if config.event_capacity == 0 {
        return Err(ManagedConfigError::ZeroEventCapacity);
    }
    if config.event_capacity > MAX_EVENT_CAPACITY {
        return Err(
            ManagedConfigError::EventCapacityTooLarge {
                configured: config.event_capacity,
                maximum: MAX_EVENT_CAPACITY,
            },
        );
    }
    if config.command_capacity == 0 {
        return Err(ManagedConfigError::ZeroCommandCapacity);
    }
    if config.command_capacity > max_commands {
        return Err(
            ManagedConfigError::CommandCapacityTooLarge {
                configured: config.command_capacity,
                maximum: max_commands,
            },
        );
    }
    if config.max_live_target_generations == 0 {
        return Err(ManagedConfigError::ZeroLiveGenerationLimit);
    }
    if now.checked_add(config.final_drain).is_none() {
        return Err(ManagedConfigError::UnschedulableFinalDrain { duration: config.final_drain });
    }
    if count > config.max_live_target_generations {
        return Err(
            ManagedConfigError::TooManyTargets {
                configured: count,
                limit: config.max_live_target_generations,
            },
        );
    }
    if count == 0 && config.completion == ManagedCompletionPolicy::FinishWhenQuiescent {
        return Err(ManagedConfigError::EmptyInitialTargets);
    }
    Ok(())
}

impl ManagedClient {
    /// Validates a configuration and constructs the driver for it. Nothing is
    /// resolved, connected or started.
    pub fn task(
        config: ManagedClientConfig,
        targets: Vec<RequestedTarget>,
        now: Instant,
    ) -> (result: Result<ManagedClientTask, ManagedConfigError>)
        ensures
            ({
                let wanted = wanted_configs(targets@);
                let checks = wanted_checks(targets@);
                let base = config@.client;
                match limits_error(config@, wanted.len(), (usize::MAX / 8) as usize, now) {
                    Some(error) => result == Err::<ManagedClientTask, _>(error),
                    None => match result {
                        Ok(task) => {
                            &&& forall|i: int|
                                0 <= i < wanted.len() ==> !#[trigger] initially_refused(
                                    base,
                                    wanted,
                                    checks,
                                    i,
                                )
                            &&& task@ == TaskView::initial(
                                config@,
                                initial_targets(base, wanted),
                                (wanted.len() + 1) as u64,
                            )
                        },
                        Err(error) => targets_error(base, wanted, checks, error),
                    },
                }
            }),
            result matches Ok(task) ==> task@.wf(),
    {
        let ghost view = config@;
        let ghost wanted = wanted_configs(targets@);
        let ghost checks = wanted_checks(targets@);
        let result = build_task(config, targets, now);
        proof {
            if result is Ok {
                law_construction_is_well_formed(view, wanted, checks);
            }
        }
        result
    }
}

fn build_task(config: ManagedClientConfig, targets: Vec<RequestedTarget>, now: Instant) -> (result:
    Result<ManagedClientTask, ManagedConfigError>)
    ensures
        ({
            let wanted = wanted_configs(targets@);
            let checks = wanted_checks(targets@);
            let base = config@.client;
            match limits_error(config@, wanted.len(), (usize::MAX / 8) as usize, now) {
                Some(error) => result == Err::<ManagedClientTask, _>(error),
                None => match result {
                    Ok(task) => {
                        &&& forall|i: int|
                            0 <= i < wanted.len() ==> !#[trigger] initially_refused(
                                base,
                                wanted,
                                checks,
                                i,
                            )
                        &&& task@ == TaskView::initial(
                            config@,
                            initial_targets(base, wanted),
                            (wanted.len() + 1) as u64,
                        )
                    },
                    Err(error) => targets_error(base, wanted, checks, error),
                },
            }
        }),
{
    let max_commands: usize = max_command_capacity();
    if let Err(error) = check_limits(&config, targets.len(), max_commands, now) {
        return Err(error);
    }
    let ghost wanted = wanted_configs(targets@);
    let ghost checks = wanted_checks(targets@);
    let ghost requests = targets@;
    let ghost base = config@.client;
    let mut known: Vec<ManagedTargetConfig> = Vec::new();
    let mut runtimes: Vec<TargetRuntime> = Vec::new();
    let mut next_generation: u64 = 1;
    proof {
        assert(target_views(runtimes@) =~= initial_targets(base, wanted).take(0));
        assert(target_config_views(known@) =~= wanted.take(0));
    }
    for request in iter: targets
        invariant
            iter.seq() == requests,
            wanted == wanted_configs(requests),
            checks == wanted_checks(requests),
            base == config@.client,
            limits_error(config@, wanted.len(), (usize::MAX / 8) as usize, now) is None,
            next_generation == iter.index() + 1,
            target_config_views(known@) == wanted.take(iter.index() as int),
            target_views(runtimes@) == initial_targets(base, wanted).take(iter.index() as int),
            forall|j: int|
                0 <= j < iter.index() ==> !#[trigger] initially_refused(base, wanted, checks, j),
    {
        let ghost i = iter.index() as int;
        let ghost runtimes_before = runtimes@;
        let target = request.target;
        proof {
            assert(request == requests[i]);
            assert(wanted[i] == target@);
            assert(checks[i] == request.checks);
        }
        if lists_id(&known, &target.id) {
            proof {
                let at = choose|j: int|
                    0 <= j < wanted.take(i).len() && (#[trigger] wanted.take(i)[j]).id == target@.id;
                assert(wanted[at].id == wanted[i].id);
                assert(repeated(wanted, i));
                assert(first_initially_refused(base, wanted, checks, i));
            }
            return Err(ManagedConfigError::DuplicateTargetId { id: target.id });
        }
        proof {
            if repeated(wanted, i) {
                let at = choose|j: int| 0 <= j < i && (#[trigger] wanted[j]).id == wanted[i].id;
                assert(wanted.take(i)[at].id == target@.id);
            }
        }
        let generation: u64 = next_generation;
        match next_generation.checked_add(1) {
            Some(next) => {
                next_generation = next;
            },
            None => {
                assert(first_initially_refused(base, wanted, checks, i));
                return Err(ManagedConfigError::GenerationExhausted);
            },
        }
        let client_config = target_client_config(&config.client, &target);
        if let Err(source) = validate_target_config(&client_config, request.checks) {
            assert(first_initially_refused(base, wanted, checks, i));
            return Err(ManagedConfigError::InvalidTarget { id: target.id, source });
        }
        known.push(target.copy());
        let instance = TargetInstance { id: target.id.clone(), generation };
        runtimes.push(
            TargetRuntime {
                instance,
                config: target,
                desired: true,
                retirement: None,
                remote: None,
                counters: TargetCounters::new(),
                send_waiting: false,
                active: false,
                state: TargetState::Pending { client_config },
            },
        );
        proof {
            assert(target_config_views(known@) =~= wanted.take(i + 1));
            assert(runtimes@.last()@ == initial_targets(base, wanted)[i]);
            assert(target_views(runtimes@) =~= target_views(runtimes_before).push(
                runtimes@.last()@,
            ));
            assert(target_views(runtimes@) =~= initial_targets(base, wanted).take(i + 1));
        }
    }
    proof {
        assert(initial_targets(base, wanted).take(wanted.len() as int) =~= initial_targets(
            base,
            wanted,
        ));
    }
    Ok(ManagedClientTask::assembled(config, runtimes, next_generation))
}

} // verus!
