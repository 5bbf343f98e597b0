//! Agreement between scheduler and receiver that the receive queue was empty.
use vstd::prelude::*;

use crate::error::ClientError;

verus! {

/// Generations of receiver drains. The scheduler requests one before it gives
/// up on an open attempt, and the receiver completes it once a receive that
/// began after the request found nothing.
#[derive(Debug, Clone, Copy, PartialEq, Eq, Structural)]
pub struct ReceiverDrainState {
    pub requested: u64,
    pub completed: u64,
}

impl ReceiverDrainState {
    /// No generation is completed before it was requested.
    pub open spec fn wf(self) -> bool {
        self.completed <= self.requested
    }

    pub fn new() -> (result: ReceiverDrainState)
        ensures
            result == (ReceiverDrainState { requested: 0, completed: 0 }),
    {
        ReceiverDrainState { requested: 0, completed: 0 }
    }

    /// The state after a request, unless the generations are exhausted.
    pub open spec fn joined(self) -> Option<ReceiverDrainState> {
        if self.requested != self.completed {
            Some(self)
        } else if self.requested < u64::MAX {
            Some(ReceiverDrainState { requested: (self.requested + 1) as u64, ..self })
        } else {
            None
        }
    }

    /// Requests a drain, or joins one that is requested and not completed.
    pub fn request_or_join(&mut self) -> (result: Result<u64, ClientError>)
        ensures
            match old(self).joined() {
                Some(joined) => {
                    &&& result == Ok::<u64, ClientError>(joined.requested)
                    &&& *final(self) == joined
                },
                None => {
                    &&& result == Err::<u64, _>(
                        ClientError::CounterOverflow { counter: "receiver_drain_generation" },
                    )
                    &&& *final(self) == *old(self)
                },
            },
    {
        if self.requested == self.completed {
            match self.requested.checked_add(1) {
                Some(next) => {
                    self.requested = next;
                },
                None => {
                    return Err(
                        ClientError::CounterOverflow { counter: "receiver_drain_generation" },
                    );
                },
            }
        }
        Ok(self.requested)
    }

    /// Completes the drains up to the generation that was requested when an
    /// empty receive began, and tells whether that is news.
    pub fn complete_observed(&mut self, observed_generation: u64) -> (result: bool)
        ensures
            final(self).requested == old(self).requested,
            ({
                let observed = if observed_generation <= old(self).requested {
                    observed_generation
                } else {
                    old(self).requested
                };
                &&& result == (observed > old(self).completed)
                &&& final(self).completed == (if result {
                    observed
                } else {
                    old(self).completed
                })
            }),
            old(self).wf() ==> final(self).wf(),
            final(self).completed >= old(self).completed,
    {
        let observed: u64 = if observed_generation <= self.requested {
            observed_generation
        } else {
            self.requested
        };
        if observed > self.completed {
            self.completed = observed;
            true
        } else {
            false
        }
    }
}

/// A request made after an empty receive began is not completed by it: only a
/// later one does that. Requests made before a completion share one generation.
pub proof fn law_drain_needs_later_boundary(before: ReceiverDrainState)
    requires
        before.wf(),
        before.joined() is Some,
    ensures
        ({
            let joined = before.joined()->0;
            &&& joined.wf()
            &&& joined.requested > joined.completed
            &&& joined.joined() == Some(joined)
            &&& before.requested == before.completed ==> before.requested < joined.requested
        }),
{
}

} // verus!
