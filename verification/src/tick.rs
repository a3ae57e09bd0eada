use crate::component::{Component, Resource};
use crate::run_state::SystemRunState;
use vstd::prelude::*;

verus! {

/// A system parameter carrying the `App`'s current tick.
#[derive(Debug, Clone, Copy, PartialEq, Eq, Structural)]
pub struct CurrentTick(pub u64);

impl CurrentTick {
    /// Reads the clock out of the run state.
    pub fn lock<C, R>(state: &SystemRunState<C, R>) -> (r: CurrentTick) where
        C: Component,
        R: Resource,

        ensures
            r.0 == state.current_tick,
    {
        CurrentTick(state.current_tick)
    }
}

/// A system parameter carrying the tick at which the requesting system
/// last ran; 0 before its first run.
#[derive(Debug, Clone, Copy, PartialEq, Eq, Structural)]
pub struct LastRunTick(pub u64);

impl LastRunTick {
    /// Wraps the system's own bookkeeping value.
    pub fn lock(last_run_tick: u64) -> (r: LastRunTick)
        ensures
            r.0 == last_run_tick,
    {
        LastRunTick(last_run_tick)
    }
}

} // verus!
