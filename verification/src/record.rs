//! The two kinds of record that flow through the engine.

use vstd::prelude::*;

verus! {

/// One batter's season line as ingested: identity and five raw metrics.
///
/// The four counting metrics are integers. The batting average is a ratio
/// in `[0, 1]`, held as its binary64 bit pattern. The `id` is the stable key
/// of the batter and is expected to be unique within a population.
#[derive(Clone, Debug, PartialEq, Eq)]
pub struct RawRecord {
    pub name: String,
    pub id: String,
    pub hr: u64,
    pub r: u64,
    pub rbi: u64,
    pub sb: u64,
    pub avg: u64,
}

/// A batter with the composite score: the sum of the five per-metric
/// z-scores, held as its binary64 bit pattern.
#[derive(Clone, Debug, PartialEq, Eq)]
pub struct ScoredRecord {
    pub name: String,
    pub id: String,
    pub score: u64,
}

/// The four counting metrics of a [`RawRecord`].
#[derive(Clone, Copy, Debug, PartialEq, Eq)]
pub enum Counter {
    HomeRuns,
    Runs,
    RunsBattedIn,
    StolenBases,
}

impl RawRecord {
    /// The value of a counting metric in this record.
    pub open spec fn count(self, counter: Counter) -> u64 {
        match counter {
            Counter::HomeRuns => self.hr,
            Counter::Runs => self.r,
            Counter::RunsBattedIn => self.rbi,
            Counter::StolenBases => self.sb,
        }
    }

    /// Reads a counting metric.
    pub fn counter(&self, counter: Counter) -> (value: u64)
        ensures
            value == self.count(counter),
    {
        match counter {
            Counter::HomeRuns => self.hr,
            Counter::Runs => self.r,
            Counter::RunsBattedIn => self.rbi,
            Counter::StolenBases => self.sb,
        }
    }
}

} // verus!
