//! The cancellation signal: a single flag, set once from an interrupt
//! context outside the core, polled by the scanner at its checkpoints.
//! The scanner only ever reads it, and makes no assumption about when it
//! flips: every contract holds whatever a poll returns.

use vstd::prelude::*;

use core::sync::atomic::AtomicBool;
use core::sync::atomic::Ordering;

verus! {

/// A process-wide stop flag, safe to share across threads.  It starts in
/// the running state and transitions to stopped at most once.
pub struct CancelFlag {
    stopped: AtomicBool,
}

impl CancelFlag {
    /// A fresh flag in the running state.
    pub fn new() -> CancelFlag {
        CancelFlag { stopped: AtomicBool::new(false) }
    }

    /// Raise the flag.  Meant to be called from an interrupt handler.
    pub fn stop(&self) {
        self.stopped.store(true, Ordering::SeqCst);
    }

    /// Poll the flag.  The result reflects an asynchronous writer, so no
    /// particular value is promised.
    pub fn is_stopped(&self) -> bool {
        self.stopped.load(Ordering::SeqCst)
    }
}

} // verus!
