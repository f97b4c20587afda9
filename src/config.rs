//! Configuration values that the core reads: inclusive ranges of counts and the
//! database settings.
use vstd::prelude::*;

verus! {

/// An inclusive range of counts, with `min <= max`.
#[derive(Copy, Clone, Debug, PartialEq, Eq, Structural)]
pub struct Range {
    pub min: usize,
    pub max: usize,
}

impl Range {
    /// The value nearest to `val` within the range.
    pub open spec fn clamp_spec(&self, val: usize) -> usize {
        if val < self.min {
            self.min
        } else if val > self.max {
            self.max
        } else {
            val
        }
    }

    /// Builds a range from two bounds given in either order.
    pub fn reordered(a: usize, b: usize) -> (r: Range)
        ensures
            r.min <= r.max,
            r.min == if a <= b { a } else { b },
            r.max == if a <= b { b } else { a },
    {
        if a <= b {
            Range { min: a, max: b }
        } else {
            Range { min: b, max: a }
        }
    }

    /// The value nearest to `val` within the range.
    pub fn clamp_inclusive(&self, val: usize) -> (r: usize)
        requires
            self.min <= self.max,
        ensures
            r == self.clamp_spec(val),
            self.min <= r <= self.max,
    {
        if val < self.min {
            self.min
        } else if val > self.max {
            self.max
        } else {
            val
        }
    }
}

/// Default cap on the number of stored scenarios.
pub const DEFAULT_MAX_SCENARIOS_TO_KEEP: u64 = 1000000;

/// Default interval between two prunes, in seconds.
pub const DEFAULT_PRUNE_INTERVAL_SECONDS: u64 = 1200;

/// Settings of the scenario database.
#[derive(Clone, Debug)]
pub struct DatabaseConfig {
    /// Path of the database file; `None` keeps the database in memory.
    pub database_path: Option<String>,
    /// Cap on the number of stored scenarios; `None` for no cap.
    pub max_scenarios_to_keep: Option<u64>,
    /// Seconds between two prunes while running.
    pub prune_interval_seconds: u64,
}

impl Default for DatabaseConfig {
    fn default() -> (r: DatabaseConfig)
        ensures
            r.database_path is None,
            r.max_scenarios_to_keep == Some(DEFAULT_MAX_SCENARIOS_TO_KEEP),
            r.prune_interval_seconds == DEFAULT_PRUNE_INTERVAL_SECONDS,
    {
        DatabaseConfig {
            database_path: None,
            max_scenarios_to_keep: Some(DEFAULT_MAX_SCENARIOS_TO_KEEP),
            prune_interval_seconds: DEFAULT_PRUNE_INTERVAL_SECONDS,
        }
    }
}

} // verus!
