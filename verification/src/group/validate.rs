//! Rules for the targets and the configuration of a group.
use vstd::prelude::*;
use vstd::string::*;

use crate::config::{ClientConfig, SocketConfig};
use crate::error::ClientError;
use crate::group::model::{config_views, ConfigView, ManagedTargetConfig};
use crate::group::target::ScheduleFacts;
use crate::net::SocketAddr;

verus! {

/// Why a list of targets is refused.
pub ghost enum TargetsRefusal {
    DuplicateId { index: int },
    DuplicateRemote { index: int },
    MixedFamilies { index: int },
    Empty,
}

pub open spec fn id_repeated(targets: Seq<ConfigView>, i: int) -> bool {
    exists|j: int| 0 <= j < i && (#[trigger] targets[j]).id == targets[i].id
}

pub open spec fn remote_repeated(targets: Seq<ConfigView>, i: int) -> bool {
    exists|j: int| 0 <= j < i && (#[trigger] targets[j]).remote == targets[i].remote
}

/// The address that fixes the family before target `i` is looked at.
pub open spec fn family_before(
    targets: Seq<ConfigView>,
    expected: Option<SocketAddr>,
    i: int,
) -> Option<SocketAddr> {
    match expected {
        Some(expected) => Some(expected),
        None => if i == 0 {
            None
        } else {
            Some(targets[0].remote)
        },
    }
}

pub open spec fn family_differs(
    targets: Seq<ConfigView>,
    expected: Option<SocketAddr>,
    i: int,
) -> bool {
    family_before(targets, expected, i) matches Some(family) && (family is V4) != (
    targets[i].remote is V4)
}

/// Target `i` cannot stand in the list.
pub open spec fn entry_refused(
    targets: Seq<ConfigView>,
    expected: Option<SocketAddr>,
    i: int,
) -> bool {
    id_repeated(targets, i) || remote_repeated(targets, i) || family_differs(targets, expected, i)
}

/// `refusal` is what the list of targets fails with first.
pub open spec fn targets_refused(
    targets: Seq<ConfigView>,
    expected: Option<SocketAddr>,
    refusal: TargetsRefusal,
) -> bool {
    let first = |i: int|
        0 <= i < targets.len() && entry_refused(targets, expected, i) && forall|j: int|
            0 <= j < i ==> !#[trigger] entry_refused(targets, expected, j);
    match refusal {
        TargetsRefusal::DuplicateId { index } => first(index) && id_repeated(targets, index),
        TargetsRefusal::DuplicateRemote { index } => first(index) && !id_repeated(targets, index)
            && remote_repeated(targets, index),
        TargetsRefusal::MixedFamilies { index } => first(index) && !id_repeated(targets, index)
            && !remote_repeated(targets, index),
        TargetsRefusal::Empty => targets.len() == 0 && expected is None,
    }
}

/// The reason that reports a refusal.
pub open spec fn refusal_text(targets: Seq<ConfigView>, refusal: TargetsRefusal) -> Seq<char> {
    match refusal {
        TargetsRefusal::DuplicateId { index } => "duplicate managed target id "@
            + targets[index].id,
        TargetsRefusal::DuplicateRemote { index } => "duplicate managed target remote "@
            + targets[index].remote.text(),
        TargetsRefusal::MixedFamilies { .. } => "managed client group targets must use one address family"@,
        TargetsRefusal::Empty => "managed client group requires at least one target"@,
    }
}

/// `targets` can stand together: identifiers and addresses are distinct, all
/// addresses are of one family, and there is something to tell the family by.
pub open spec fn targets_acceptable(targets: Seq<ConfigView>, expected: Option<SocketAddr>) -> bool {
    &&& targets.len() > 0 || expected is Some
    &&& forall|i: int| 0 <= i < targets.len() ==> !#[trigger] entry_refused(targets, expected, i)
}

fn holds_id(targets: &Vec<ManagedTargetConfig>, upto: usize) -> (result: bool)
    requires
        upto < targets@.len(),
    ensures
        result == id_repeated(config_views(targets@), upto as int),
{
    let ghost views = config_views(targets@);
    let mut j: usize = 0;
    while j < upto
        invariant
            j <= upto < targets@.len(),
            views == config_views(targets@),
            forall|k: int| 0 <= k < j ==> (#[trigger] views[k]).id != views[upto as int].id,
        decreases upto - j,
    {
        if targets[j].id.same(&targets[upto].id) {
            assert(views[j as int].id == views[upto as int].id);
            return true;
        }
        j += 1;
    }
    false
}

fn holds_remote(targets: &Vec<ManagedTargetConfig>, upto: usize) -> (result: bool)
    requires
        upto < targets@.len(),
    ensures
        result == remote_repeated(config_views(targets@), upto as int),
{
    let ghost views = config_views(targets@);
    let mut j: usize = 0;
    while j < upto
        invariant
            j <= upto < targets@.len(),
            views == config_views(targets@),
            forall|k: int| 0 <= k < j ==> (#[trigger] views[k]).remote != views[upto as int].remote,
        decreases upto - j,
    {
        if targets[j].remote == targets[upto].remote {
            assert(views[j as int].remote == views[upto as int].remote);
            return true;
        }
        j += 1;
    }
    false
}

/// Checks a list of targets, whose family `expected_family` fixes where the
/// group has one already, and gives an address of their family.
pub fn validate_target_configs(
    targets: &Vec<ManagedTargetConfig>,
    expected_family: Option<SocketAddr>,
) -> (result: Result<SocketAddr, ClientError>)
    ensures
        match result {
            Ok(family) => {
                &&& targets_acceptable(config_views(targets@), expected_family)
                &&& family == (match expected_family {
                    Some(family) => family,
                    None => targets@[0].remote,
                })
            },
            Err(error) => exists|refusal: TargetsRefusal|
                {
                    &&& #[trigger] targets_refused(config_views(targets@), expected_family, refusal)
                    &&& error matches ClientError::InvalidConfig { reason } && reason@
                        == refusal_text(config_views(targets@), refusal)
                },
        },
{
    let ghost views = config_views(targets@);
    let mut family: Option<SocketAddr> = expected_family;
    let mut i: usize = 0;
    while i < targets.len()
        invariant
            i <= targets@.len(),
            views == config_views(targets@),
            family == family_before(views, expected_family, i as int),
            forall|j: int| 0 <= j < i ==> !#[trigger] entry_refused(views, expected_family, j),
        decreases targets@.len() - i,
    {
        if holds_id(targets, i) {
            let mut reason = String::from_str("duplicate managed target id ");
            reason.append(targets[i].id.as_str());
            proof {
                assert(targets_refused(
                    views,
                    expected_family,
                    TargetsRefusal::DuplicateId { index: i as int },
                ));
            }
            return Err(ClientError::InvalidConfig { reason });
        }
        if holds_remote(targets, i) {
            let mut reason = String::from_str("duplicate managed target remote ");
            let remote = targets[i].remote.to_text();
            reason.append(remote.as_str());
            proof {
                assert(targets_refused(
                    views,
                    expected_family,
                    TargetsRefusal::DuplicateRemote { index: i as int },
                ));
            }
            return Err(ClientError::InvalidConfig { reason });
        }
        match family {
            Some(known) => {
                if known.is_ipv4() != targets[i].remote.is_ipv4() {
                    proof {
                        assert(targets_refused(
                            views,
                            expected_family,
                            TargetsRefusal::MixedFamilies { index: i as int },
                        ));
                    }
                    return Err(
                        ClientError::InvalidConfig {
                            reason: String::from_str(
                                "managed client group targets must use one address family",
                            ),
                        },
                    );
                }
            },
            None => {
                family = Some(targets[i].remote);
            },
        }
        i += 1;
    }
    match family {
        Some(family) => Ok(family),
        None => {
            proof {
                assert(targets_refused(views, expected_family, TargetsRefusal::Empty));
            }
            Err(
                ClientError::InvalidConfig {
                    reason: String::from_str("managed client group requires at least one target"),
                },
            )
        },
    }
}

/// The reason for which a family restriction refuses the group's family.
pub open spec fn family_flags_text(config: SocketConfig, remote: SocketAddr) -> Option<Seq<char>> {
    if config.ipv4_only && config.ipv6_only {
        Some("ipv4_only and ipv6_only cannot both be true"@)
    } else if config.ipv4_only && remote is V6 {
        Some("ipv4_only cannot be used with IPv6 group targets"@)
    } else if config.ipv6_only && remote is V4 {
        Some("ipv6_only cannot be used with IPv4 group targets"@)
    } else {
        None
    }
}

pub fn validate_group_family_flags(config: &ClientConfig, remote: SocketAddr) -> (result: Result<
    (),
    ClientError,
>)
    ensures
        match family_flags_text(config.socket_config, remote) {
            Some(text) => result matches Err(ClientError::InvalidConfig { reason }) && reason@
                == text,
            None => result is Ok,
        },
{
    if config.socket_config.ipv4_only && config.socket_config.ipv6_only {
        return Err(
            ClientError::InvalidConfig {
                reason: String::from_str("ipv4_only and ipv6_only cannot both be true"),
            },
        );
    }
    if config.socket_config.ipv4_only && !remote.is_ipv4() {
        return Err(
            ClientError::InvalidConfig {
                reason: String::from_str("ipv4_only cannot be used with IPv6 group targets"),
            },
        );
    }
    if config.socket_config.ipv6_only && remote.is_ipv4() {
        return Err(
            ClientError::InvalidConfig {
                reason: String::from_str("ipv6_only cannot be used with IPv4 group targets"),
            },
        );
    }
    Ok(())
}

/// The parameters of a session that a group holds all its targets to.
#[derive(Debug, Clone, Copy, PartialEq, Eq, Structural)]
pub struct GroupParams {
    pub interval_ns: i64,
    pub dscp: i64,
}

/// The reason for which negotiated parameters are refused, the interval first.
pub open spec fn negotiation_text(requested: GroupParams, negotiated: GroupParams) -> Option<
    Seq<char>,
> {
    if negotiated.interval_ns != requested.interval_ns {
        Some(
            "managed group v1 requires the negotiated interval to match the group interval"@,
        )
    } else if negotiated.dscp != requested.dscp {
        Some("managed group v1 requires the negotiated DSCP to match the group DSCP"@)
    } else {
        None
    }
}

/// A server may not change the interval or the traffic class of a group.
pub fn validate_group_negotiation(requested: GroupParams, negotiated: GroupParams) -> (result: Result<
    (),
    ClientError,
>)
    ensures
        match negotiation_text(requested, negotiated) {
            Some(text) => result matches Err(ClientError::NegotiationRejected { reason }) && reason@
                == text,
            None => result is Ok,
        },
{
    if negotiated.interval_ns != requested.interval_ns {
        return Err(
            ClientError::NegotiationRejected {
                reason: String::from_str(
                    "managed group v1 requires the negotiated interval to match the group interval",
                ),
            },
        );
    }
    if negotiated.dscp != requested.dscp {
        return Err(
            ClientError::NegotiationRejected {
                reason: String::from_str(
                    "managed group v1 requires the negotiated DSCP to match the group DSCP",
                ),
            },
        );
    }
    Ok(())
}

/// The schedule with which a target enters the group once its open reply is
/// acceptable, or why it is not. A session without a test, which negotiates
/// nothing here, needs no schedule and is held to no group rule.
pub fn prepare_group_open(
    requested: GroupParams,
    negotiated: Option<GroupParams>,
    schedule: Result<ScheduleFacts, ClientError>,
) -> (result: Result<Option<ScheduleFacts>, ClientError>)
    ensures
        match negotiated {
            None => result == Ok::<_, ClientError>(None::<ScheduleFacts>),
            Some(negotiated) => match negotiation_text(requested, negotiated) {
                Some(text) => result matches Err(ClientError::NegotiationRejected { reason })
                    && reason@ == text,
                None => match schedule {
                    Ok(schedule) => result == Ok::<_, ClientError>(Some(schedule)),
                    Err(error) => result == Err::<Option<ScheduleFacts>, _>(error),
                },
            },
        },
{
    let negotiated = match negotiated {
        Some(negotiated) => negotiated,
        None => {
            return Ok(None);
        },
    };
    if let Err(error) = validate_group_negotiation(requested, negotiated) {
        return Err(error);
    }
    match schedule {
        Ok(schedule) => Ok(Some(schedule)),
        Err(error) => Err(error),
    }
}

} // verus!
