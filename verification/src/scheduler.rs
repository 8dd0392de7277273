//! The scheduler's decisions: what follows an ingestion cycle.

use vstd::prelude::*;

verus! {

/// The seconds between the end of one ingestion cycle and the start of the
/// next: twenty minutes.
pub const REFRESH_INTERVAL_SECS: u64 = 1200;

/// What the scheduler does once a cycle has ended.
#[derive(Debug, Clone, Copy, PartialEq, Eq, Structural)]
pub enum Step {
    /// Wait this many seconds, then run the next cycle.
    Wait(u64),
    /// Stop: the cache could not be filled before the first reader.
    GiveUp,
}

/// The step that follows a cycle. Only the first cycle, run before any
/// reader is served, has to succeed; every later cycle is followed by the
/// same wait whether it failed or not.
pub open spec fn step_after(first: bool, succeeded: bool) -> Step {
    if first && !succeeded {
        Step::GiveUp
    } else {
        Step::Wait(REFRESH_INTERVAL_SECS)
    }
}

/// Decides what follows a cycle that has just ended.
pub fn after_cycle(first: bool, succeeded: bool) -> (r: Step)
    ensures
        r == step_after(first, succeeded),
        !first ==> r == Step::Wait(REFRESH_INTERVAL_SECS),
{
    if first && !succeeded {
        Step::GiveUp
    } else {
        Step::Wait(REFRESH_INTERVAL_SECS)
    }
}

} // verus!
