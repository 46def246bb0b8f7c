//! A flag that an interrupt signal raises and running jobs consult.
use vstd::prelude::*;
use std::sync::Arc;
use std::sync::atomic::AtomicBool;

verus! {

/// A shared interrupt flag; copies made by `shared` see the same flag.
pub struct InterruptFlag {
    interrupted: Arc<AtomicBool>,
}

/// Another handle on the same shared value (`Arc::clone`, which points to
/// the same allocation): the contract claims only that the handle equals
/// the one it was made from. Verus does not see the value inside an atomic.
#[verifier::external_body]
fn share_flag(flag: &Arc<AtomicBool>) -> (r: Arc<AtomicBool>)
    ensures
        r == *flag,
{
    Arc::clone(flag)
}

impl InterruptFlag {
    /// A new flag, not raised.
    pub fn new() -> InterruptFlag {
        InterruptFlag { interrupted: Arc::new(AtomicBool::new(false)) }
    }

    /// A handle on the same flag.
    pub fn shared(&self) -> (r: InterruptFlag)
        ensures
            r == *self,
    {
        InterruptFlag { interrupted: share_flag(&self.interrupted) }
    }

    /// Raises the flag for every handle.
    pub fn interrupt(&self) {
        self.interrupted.store(true, std::sync::atomic::Ordering::SeqCst);
    }

    /// Whether the flag has been raised through any handle.
    pub fn is_interrupted(&self) -> bool {
        self.interrupted.load(std::sync::atomic::Ordering::SeqCst)
    }
}

} // verus!
