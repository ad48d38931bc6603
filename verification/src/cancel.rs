//! The cancellation signal that a running search polls.

use vstd::prelude::*;
use std::sync::atomic::AtomicBool;

verus! {

/// A flag that goes from unset to set once and never back. Any thread may
/// set it; a search polls it.
pub struct CancelToken {
    flag: AtomicBool,
}

impl CancelToken {
    /// A token that is not set.
    pub fn new() -> CancelToken {
        CancelToken { flag: AtomicBool::new(false) }
    }

    /// Sets the token.
    pub fn cancel(&self) {
        self.flag.store(true, std::sync::atomic::Ordering::SeqCst);
    }

    /// Whether the token is set at the time of the call.
    pub fn is_cancelled(&self) -> bool {
        self.flag.load(std::sync::atomic::Ordering::SeqCst)
    }
}

} // verus!
