//! Cooperative cancellation shared between threads.
use std::sync::atomic::{AtomicBool, Ordering};
use std::sync::Arc;
use vstd::prelude::*;

verus! {

/// Cloneable cancellation flag. All clones share one flag.
///
/// What a clone reads depends on what other threads did to the flag, so the
/// methods state nothing about it.
#[derive(Debug, Clone)]
pub struct CancellationToken {
    cancelled: Arc<AtomicBool>,
}

impl CancellationToken {
    /// A token that is not cancelled.
    pub fn new() -> CancellationToken {
        CancellationToken { cancelled: Arc::new(AtomicBool::new(false)) }
    }

    /// Marks the token as cancelled. Doing so again changes nothing, and all
    /// clones see it.
    pub fn cancel(&self) {
        self.cancelled.store(true, Ordering::SeqCst);
    }

    #[must_use]
    pub fn is_cancelled(&self) -> bool {
        self.cancelled.load(Ordering::SeqCst)
    }
}

} // verus!
