//! The refresh trigger, as a capacity-1 signal: any number of
//! notifications between two polls coalesce into one pending wake-up,
//! which preserves "at least one refresh follows any trigger" while
//! bounding the queue. The blocking wait itself belongs to the task
//! runtime around the library; that code arms this signal and polls
//! it when woken.

use vstd::prelude::*;

verus! {

/// A single pending-or-not refresh request.
pub struct RefreshTrigger {
    pending: bool,
}

impl RefreshTrigger {
    /// Is a refresh currently requested?
    pub closed spec fn spec_pending(self) -> bool {
        self.pending
    }

    pub fn new() -> (r: Self)
        ensures
            !r.spec_pending(),
    {
        RefreshTrigger { pending: false }
    }

    /// Request a refresh. Notifying an already-armed trigger leaves
    /// it armed: the final state does not depend on the old one, so
    /// repeated notifications coalesce into a single wake-up.
    pub fn notify(&mut self)
        ensures
            final(self).spec_pending(),
    {
        self.pending = true;
    }

    /// Consume the pending request, if any: returns whether a
    /// refresh was requested and disarms the trigger either way.
    pub fn take(&mut self) -> (r: bool)
        ensures
            r == old(self).spec_pending(),
            !final(self).spec_pending(),
    {
        let r = self.pending;
        self.pending = false;
        r
    }
}

} // verus!
