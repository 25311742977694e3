//! The single-slot run guard: at most one collection run may be active
//! process-wide, and an attempt to start a second one is rejected without
//! touching anything.

use vstd::prelude::*;

verus! {

/// Tracks whether a collection run is active.
pub struct RunGuard {
    active: bool,
}

impl RunGuard {
    /// Whether a run currently holds the guard.
    pub closed spec fn active_spec(&self) -> bool {
        self.active
    }

    /// A fresh guard: no run active.
    pub fn new() -> (g: RunGuard)
        ensures
            !g.active_spec(),
    {
        RunGuard { active: false }
    }

    pub fn is_active(&self) -> (b: bool)
        ensures
            b == self.active_spec(),
    {
        self.active
    }

    /// Claims the guard for a new run. The claim succeeds exactly when no
    /// run is active; a rejected claim leaves the guard — and so the active
    /// run it protects — untouched.
    pub fn try_acquire(&mut self) -> (ok: bool)
        ensures
            ok == !old(self).active_spec(),
            final(self).active_spec(),
            old(self).active_spec() ==> *final(self) == *old(self),
    {
        if self.active {
            false
        } else {
            self.active = true;
            true
        }
    }

    /// Releases the guard when a run ends, however it ended.
    pub fn release(&mut self)
        ensures
            !final(self).active_spec(),
    {
        self.active = false;
    }
}

} // verus!
