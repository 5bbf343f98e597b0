//! From a datagram to an open session of a group.
//!
//! The session inspects the datagram, prepares to accept the reply and commits
//! to it. In between the group decides whether it goes on.
use vstd::prelude::*;

use crate::error::ClientError;
use crate::group::target::{OpenInspection, ScheduleFacts};
use crate::group::validate::{negotiation_text, prepare_group_open, GroupParams};

verus! {

/// What the session makes of a datagram.
#[derive(Debug)]
pub enum Disposition {
    /// Malformed, unrelated or unauthenticated.
    Ignore,
    /// A reply that can be trusted.
    Trusted,
    Failed { error: ClientError },
}

/// How a trusted reply was taken.
#[derive(Debug)]
#[allow(inconsistent_fields)]
pub enum Acceptance {
    Refused { error: ClientError, cleanup_close: Option<Vec<u8>> },
    /// The session could be opened. `negotiated` is there for a session with a
    /// test, and `schedule` is what its schedule would be.
    Prepared {
        negotiated: Option<GroupParams>,
        schedule: Result<ScheduleFacts, ClientError>,
        cleanup_close: Option<Vec<u8>>,
    },
}

/// Whether the reply goes on to be accepted, or what the datagram comes to.
pub fn judge_disposition(disposition: Disposition) -> (result: Result<(), OpenInspection>)
    ensures
        result == match disposition {
            Disposition::Ignore => Err(OpenInspection::Ignored),
            Disposition::Trusted => Ok(()),
            Disposition::Failed { error } => Err(OpenInspection::Untrusted { error }),
        },
{
    match disposition {
        Disposition::Ignore => Err(OpenInspection::Ignored),
        Disposition::Trusted => Ok(()),
        Disposition::Failed { error } => Err(OpenInspection::Untrusted { error }),
    }
}

/// The schedule with which the session is committed, or why it is not.
pub fn judge_acceptance(requested: GroupParams, acceptance: Acceptance) -> (result: Result<
    Option<ScheduleFacts>,
    OpenInspection,
>)
    ensures
        match acceptance {
            Acceptance::Refused { error, cleanup_close } => result == Err::<
                Option<ScheduleFacts>,
                _,
            >(OpenInspection::Rejected { error, cleanup_close }),
            Acceptance::Prepared { negotiated: None, .. } => result == Ok::<_, OpenInspection>(
                None::<ScheduleFacts>,
            ),
            Acceptance::Prepared { negotiated: Some(negotiated), schedule, cleanup_close } =>
                match negotiation_text(requested, negotiated) {
                    Some(text) => result matches Err(OpenInspection::Rejected {
                        error: ClientError::NegotiationRejected { reason },
                        cleanup_close: cleanup,
                    }) && reason@ == text && cleanup == cleanup_close,
                    None => result == match schedule {
                        Ok(schedule) => Ok(Some(schedule)),
                        Err(error) => Err(OpenInspection::Rejected { error, cleanup_close }),
                    },
                },
        },
{
    match acceptance {
        Acceptance::Refused { error, cleanup_close } => Err(
            OpenInspection::Rejected { error, cleanup_close },
        ),
        Acceptance::Prepared { negotiated, schedule, cleanup_close } => {
            match prepare_group_open(requested, negotiated, schedule) {
                Ok(schedule) => Ok(schedule),
                Err(error) => Err(OpenInspection::Rejected { error, cleanup_close }),
            }
        },
    }
}

} // verus!
