//! The one-shot cancellation flag: set once, observed many times, never
//! cleared.

use vstd::prelude::*;

verus! {

/// A cooperative cancellation flag. It starts active and transitions at
/// most once, to cancelled; no operation clears it.
pub struct CancelFlag {
    pub cancelled: bool,
}

/// The one transition a flag has: whatever the state was, it is
/// cancelled afterwards.
pub open spec fn set_spec(f: CancelFlag) -> CancelFlag {
    CancelFlag { cancelled: true }
}

impl CancelFlag {
    /// A fresh, still-active flag.
    pub fn new() -> (f: CancelFlag)
        ensures
            !f.cancelled,
    {
        CancelFlag { cancelled: false }
    }

    /// Cancels. Idempotent: cancelling twice is cancelling once.
    pub fn set(&mut self)
        ensures
            *final(self) == set_spec(*old(self)),
            final(self).cancelled,
    {
        self.cancelled = true;
    }

    /// Observes the flag, reporting exactly its state.
    pub fn is_cancelled(&self) -> (r: bool)
        ensures
            r == self.cancelled,
    {
        self.cancelled
    }
}

/// Cancellation is terminal: `set` is the only transition, it is
/// absorbing, and a check reports exactly the state — so once a flag is
/// cancelled, no later check can report it active again.
pub proof fn lemma_cancel_terminal(f: CancelFlag)
    ensures
        set_spec(f).cancelled,
        set_spec(set_spec(f)) == set_spec(f),
        f.cancelled ==> set_spec(f) == f,
{
}

} // verus!
