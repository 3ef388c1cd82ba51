//! The statistics of one trace analysis, as far as the stitching reads them.
pub mod call_chain;

use vstd::prelude::*;

verus! {

/// The statistics of one service (process): its call counts and the names of the
/// operations that it served.
#[derive(Clone, Debug)]
pub struct Stats {
    pub num_received_calls: usize,
    pub num_unknown_calls: usize,
    pub operation: Vec<String>,
}

/// The result of one trace analysis: the statistics per service, keyed by the service name.
#[derive(Debug)]
pub struct StatsRec {
    pub stats: Vec<(String, Stats)>,
}

} // verus!
