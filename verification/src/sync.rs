//! The saved preemption state.

use vstd::prelude::*;

verus! {

/// Saves whether interrupts were enabled when preemption was disabled, so
/// that the state can be restored later.
#[derive(Debug, PartialEq, Eq, Structural)]
pub struct PreemptionState {
    /// Whether interrupts were enabled.
    pub interrupts_enabled: bool,
}

impl PreemptionState {
    /// Saves the given state of the interrupts.
    pub fn new(interrupts_enabled: bool) -> (r: PreemptionState)
        ensures
            r.interrupts_enabled == interrupts_enabled,
    {
        PreemptionState { interrupts_enabled }
    }

    /// The state with interrupts disabled.
    pub fn default() -> (r: PreemptionState)
        ensures
            !r.interrupts_enabled,
    {
        PreemptionState { interrupts_enabled: false }
    }

    /// Returns the state of the interrupts to restore.
    pub fn restore(&self) -> (r: bool)
        ensures
            r == self.interrupts_enabled,
    {
        self.interrupts_enabled
    }

    /// Copies the preemption state.
    pub fn copy(&self) -> (r: PreemptionState)
        ensures
            r == *self,
    {
        PreemptionState { interrupts_enabled: self.interrupts_enabled }
    }
}

} // verus!
