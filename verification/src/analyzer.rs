//! The collector of results: they are added one by one and analyzed as a
//! whole.

use crate::engine_result::{EngineResult, EngineResultView};
use crate::stats::{compute_stats, has_values, is_mate_histogram, summarizes, StatsSummary};
use std::collections::BTreeMap;
use vstd::prelude::*;

verus! {

/// The results of one session, in the order in which they were added.
pub struct Analyzer {
    results: Vec<EngineResult>,
}

impl View for Analyzer {
    type V = Seq<EngineResultView>;

    closed spec fn view(&self) -> Seq<EngineResultView> {
        self.results.deep_view()
    }
}

impl Analyzer {
    pub fn new() -> (a: Self)
        ensures
            a@ == Seq::<EngineResultView>::empty(),
    {
        Analyzer { results: Vec::new() }
    }

    /// Adds `result` behind the results that are there; none of them is
    /// moved or dropped.
    pub fn add_result(&mut self, result: EngineResult)
        ensures
            final(self)@ == old(self)@.push(result@),
    {
        self.results.push(result);
    }

    /// The results that were added, first to last.
    pub fn results(&self) -> (results: &Vec<EngineResult>)
        ensures
            results.deep_view() == self@,
    {
        &self.results
    }

    /// Analyze the collected results: their summary and their count by mate
    /// distance, computed afresh, and nothing where there are no results.
    pub fn analyze(&self) -> (out: Option<(StatsSummary, BTreeMap<u32, u64>)>)
        ensures
            out is None <==> self@.len() == 0,
            out matches Some(o) ==> summarizes(o.0, self@) && has_values(o.0) && is_mate_histogram(
                o.1@,
                self@,
            ),
    {
        if self.results.len() == 0 {
            None
        } else {
            Some(compute_stats(&self.results))
        }
    }
}

} // verus!
