//! When old history is pruned, and when the space it took is handed back.

use vstd::prelude::*;

verus! {

/// How often the task wakes, in seconds.
pub const MAINTENANCE_INTERVAL: u64 = 21600;

/// Delay before the first prune, in seconds.
pub const STARTUP_DELAY: u64 = 60;

/// What a prune removed.
#[derive(Debug, Clone, Copy, PartialEq, Eq, Structural)]
pub struct MaintenanceOutcome {
    pub decisions_deleted: u64,
    pub searches_deleted: u64,
}

/// Whether `r` says that nothing was deleted.
pub open spec fn is_nothing(r: bool, o: MaintenanceOutcome) -> bool {
    r == (o.decisions_deleted == 0 && o.searches_deleted == 0)
}

impl MaintenanceOutcome {
    /// Whether nothing was removed.
    pub fn is_empty(self) -> (r: bool)
        ensures
            is_nothing(r, self),
    {
        self.decisions_deleted == 0 && self.searches_deleted == 0
    }
}

/// What a cycle does next.
#[derive(Debug, Clone, Copy, PartialEq, Eq, Structural)]
pub enum CycleStep {
    /// Keep everything: retention is off.
    Skip,
    /// Prune what is older than this many days.
    Prune(u32),
    /// Hand the freed space back.
    Reclaim,
    /// The cycle is over.
    Done,
}

/// How a cycle starts.
pub open spec fn is_cycle_start(r: CycleStep, retention_days: u32) -> bool {
    r == if retention_days == 0 {
        CycleStep::Skip
    } else {
        CycleStep::Prune(retention_days)
    }
}

/// Begin a cycle. No retention keeps everything.
pub fn run_one_cycle(retention_days: u32) -> (r: CycleStep)
    ensures
        is_cycle_start(r, retention_days),
{
    if retention_days == 0 {
        CycleStep::Skip
    } else {
        CycleStep::Prune(retention_days)
    }
}

/// How a cycle goes on behind the pruning.
pub open spec fn is_after_prune(r: CycleStep, outcome: Option<MaintenanceOutcome>) -> bool {
    r == match outcome {
        Some(o) => if o.decisions_deleted == 0 && o.searches_deleted == 0 {
            CycleStep::Done
        } else {
            CycleStep::Reclaim
        },
        None => CycleStep::Done,
    }
}

/// Go on after a prune, `None` being one that failed: only a prune that
/// removed something frees space.
pub fn after_prune(outcome: Option<MaintenanceOutcome>) -> (r: CycleStep)
    ensures
        is_after_prune(r, outcome),
{
    match outcome {
        Some(o) => if o.is_empty() {
            CycleStep::Done
        } else {
            CycleStep::Reclaim
        },
        None => CycleStep::Done,
    }
}

} // verus!
