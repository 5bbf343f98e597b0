//! Starting and joining a managed client on a thread of its own.
use vstd::prelude::*;

use crate::error::IoError;
use crate::model::{ManagedConfigError, ManagedOutcome};

verus! {

/// Failure to start the worker of a managed client.
#[derive(Debug)]
pub enum BlockingManagedStartError {
    /// The configuration was refused.
    Config(ManagedConfigError),
    /// The worker's runtime could not be created.
    Runtime { source: IoError },
    /// The worker thread could not be spawned.
    ThreadSpawn { source: IoError },
}

/// Failure to obtain an outcome from the worker.
#[derive(Debug, Clone, Copy, PartialEq, Eq, Structural)]
pub enum BlockingManagedJoinError {
    /// The worker thread panicked.
    WorkerPanicked,
}

/// What joining the worker yields. A worker that panicked hands over nothing.
pub fn join_worker(worker: Option<ManagedOutcome>) -> (result: Result<
    ManagedOutcome,
    BlockingManagedJoinError,
>)
    ensures
        result == match worker {
            Some(outcome) => Ok(outcome),
            None => Err(BlockingManagedJoinError::WorkerPanicked),
        },
{
    match worker {
        Some(outcome) => Ok(outcome),
        None => Err(BlockingManagedJoinError::WorkerPanicked),
    }
}

} // verus!
