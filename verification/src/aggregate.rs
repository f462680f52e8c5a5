//! The results aggregator: the append-only store of [`TestResult`]s.
//!
//! Runners only ever append; nothing mutates an entry once it is in. The
//! aggregator produces the two read views the run needs: the cross-group
//! totals and the full report snapshot. Exclusive access during an append
//! is the caller's concern (the store is held behind one lock, taken only
//! for the append); the operations themselves are verified here.

use vstd::prelude::*;

use crate::clock::utc_timestamp_string;
use crate::outcome::TestResult;
use crate::rank::{sort_ranked, top_ranked, views_of};
use crate::report::{
    lemma_report_totals_round_trip, lemma_totals_of_vec_bounded, parse_totals, render_report,
    report_text, total_failures, total_successes, totals_of,
};

verus! {

/// The growing collection of per-configuration outcomes.
pub struct Aggregator {
    /// Every result appended so far, in arrival order.
    pub results: Vec<TestResult>,
}

impl Aggregator {
    /// An empty aggregator.
    pub fn new() -> (r: Aggregator)
        ensures
            r.results@.len() == 0,
    {
        Aggregator { results: Vec::new() }
    }

    /// Appends one result; everything already stored stays as it is.
    pub fn append(&mut self, result: TestResult)
        ensures
            final(self).results@ == old(self).results@.push(result),
    {
        self.results.push(result);
    }

    /// How many results have been aggregated.
    pub fn len(&self) -> (r: usize)
        ensures
            r == self.results@.len(),
    {
        self.results.len()
    }

    /// The cross-group totals: probes that succeeded and probes that
    /// failed, summed over every aggregated result.
    pub fn totals(&self) -> (r: (u128, u128))
        ensures
            r.0 == total_successes(views_of(self.results@)),
            r.1 == total_failures(views_of(self.results@)),
    {
        totals_of(&self.results)
    }

    /// The aggregated results in ranked order.
    pub fn top_ranked(&self) -> (r: Vec<TestResult>)
        ensures
            views_of(r@) == sort_ranked(views_of(self.results@)),
    {
        top_ranked(&self.results)
    }

    /// The full report snapshot for the given generation-time text. Safe to
    /// call repeatedly: the text is a function of the results and that text
    /// alone.
    pub fn snapshot(&self, generated: &str) -> (r: String)
        ensures
            r@ == report_text(views_of(self.results@), generated@),
    {
        render_report(&self.results, generated)
    }

    /// The full report snapshot, stamped with the UTC time of the call.
    pub fn snapshot_now(&self) -> (r: String)
        ensures
            exists|ts: Seq<char>|
                r@ == report_text(views_of(self.results@), ts),
    {
        let generated = utc_timestamp_string();
        let r = render_report(&self.results, generated.as_str());
        proof {
            assert(r@ == report_text(views_of(self.results@), generated@));
        }
        r
    }
}

/// Round trip at the store: reading the totals back from any snapshot of an
/// aggregator yields exactly the totals held in memory when it was written.
pub proof fn lemma_snapshot_totals_round_trip(agg: Aggregator, ts: Seq<char>)
    ensures
        parse_totals(report_text(views_of(agg.results@), ts)) == Some(
            (total_successes(views_of(agg.results@)), total_failures(views_of(agg.results@))),
        ),
{
    vstd::std_specs::vec::axiom_spec_len(&agg.results);
    lemma_totals_of_vec_bounded(agg.results@);
    lemma_report_totals_round_trip(views_of(agg.results@), ts);
}

} // verus!
