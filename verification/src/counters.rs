//! Operational counters of the indexing stage.

use vstd::prelude::*;

verus! {

/// The value of the stage's counters.
pub struct CountersModel {
    pub parse_error: nat,
    pub docs: nat,
}

/// How many documents the stage has indexed and how many it had to skip
/// because they could not be parsed. Both counts only ever grow.
#[derive(Clone, Copy, Debug, PartialEq, Eq, Structural)]
pub struct IndexerCounters {
    pub parse_error: u64,
    pub docs: u64,
}

impl View for IndexerCounters {
    type V = CountersModel;

    open spec fn view(&self) -> CountersModel {
        CountersModel { parse_error: self.parse_error as nat, docs: self.docs as nat }
    }
}

impl Default for IndexerCounters {
    fn default() -> (counters: IndexerCounters)
        ensures
            counters.parse_error == 0,
            counters.docs == 0,
    {
        IndexerCounters { parse_error: 0, docs: 0 }
    }
}

} // verus!
