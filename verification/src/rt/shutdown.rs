//! A cooperative graceful-shutdown signal shared with the running server.
use std::sync::atomic::AtomicBool;
use std::sync::atomic::Ordering;
use std::sync::Arc;
use vstd::prelude::*;

verus! {

/// A cloneable handle used to ask a running server to shut down gracefully:
/// stop accepting new connections, let in-flight ones finish (up to a grace
/// period), then return from the `run*` call. Clone it freely — all clones
/// share one flag.
///
/// The flag may change at any time under the hands of other threads, so what a
/// look at it says is not stated.
pub struct Shutdown {
    flag: Arc<AtomicBool>,
}

impl Clone for Shutdown {
    fn clone(&self) -> (r: Shutdown)
        ensures
            r == *self,
    {
        Shutdown { flag: self.flag.clone() }
    }
}

impl Default for Shutdown {
    fn default() -> (r: Shutdown) {
        Shutdown::new()
    }
}

impl Shutdown {
    /// Create a fresh, untriggered handle.
    pub fn new() -> (r: Shutdown) {
        Shutdown { flag: Arc::new(AtomicBool::new(false)) }
    }

    /// Request graceful shutdown. Idempotent.
    pub fn trigger(&self) {
        self.flag.store(true, Ordering::SeqCst);
    }

    /// Whether shutdown has been requested.
    pub fn is_triggered(&self) -> (r: bool) {
        self.flag.load(Ordering::SeqCst)
    }
}

} // verus!
