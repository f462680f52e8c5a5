//! Per-configuration outcomes.
//!
//! A [`TestResult`] is the durable record for one configuration: the
//! configuration string, the port its proxy was bound to, and the partition of
//! the probed domains into successful and failed ones. It is created once,
//! appended to the aggregator, and never mutated afterward. [`GroupStats`]
//! counts successes over one group of runners and combines across groups.

use vstd::prelude::*;

use crate::stats::{rate_permille_u128, spec_rate_permille};

verus! {

/// The outcome record for one configuration across all probed domains.
pub struct TestResult {
    /// The launch-argument string of the configuration.
    pub config: String,
    /// The local port the proxy process was bound to.
    pub socks5_port: u16,
    /// Domains that answered through the proxy.
    pub successful_domains: Vec<String>,
    /// Domains that did not.
    pub failed_domains: Vec<String>,
}

/// The mathematical model of a [`TestResult`]: the same four fields, as
/// sequences of characters.
pub struct ResultView {
    pub config: Seq<char>,
    pub socks5_port: u16,
    pub successful_domains: Seq<Seq<char>>,
    pub failed_domains: Seq<Seq<char>>,
}

impl ResultView {
    /// Number of successfully probed domains.
    pub open spec fn successes(self) -> nat {
        self.successful_domains.len()
    }

    /// Number of domains probed in all.
    pub open spec fn total(self) -> nat {
        self.successful_domains.len() + self.failed_domains.len()
    }

    /// Success rate in permille (zero when no domain was probed).
    pub open spec fn rate(self) -> nat {
        spec_rate_permille(self.successes(), self.total())
    }
}

impl View for TestResult {
    type V = ResultView;

    open spec fn view(&self) -> ResultView {
        ResultView {
            config: self.config@,
            socks5_port: self.socks5_port,
            successful_domains: self.successful_domains.deep_view(),
            failed_domains: self.failed_domains.deep_view(),
        }
    }
}

impl TestResult {
    /// Number of successfully probed domains.
    pub open spec fn spec_successes(self) -> nat {
        self@.successes()
    }

    /// Number of domains probed in all.
    pub open spec fn spec_total(self) -> nat {
        self@.total()
    }

    /// Success rate in permille (zero when no domain was probed).
    pub open spec fn spec_rate(self) -> nat {
        self@.rate()
    }

    /// Number of successfully probed domains.
    pub fn successful_count(&self) -> (r: usize)
        ensures
            r == self.spec_successes(),
    {
        self.successful_domains.len()
    }

    /// Number of domains probed in all.
    pub fn total_count(&self) -> (r: usize)
        requires
            self.spec_total() <= usize::MAX,
        ensures
            r == self.spec_total(),
    {
        self.successful_domains.len() + self.failed_domains.len()
    }

    /// Success rate of this result in permille, rounded to the nearest tenth
    /// of a percent; zero when no domain was probed.
    pub fn success_rate_permille(&self) -> (r: u32)
        ensures
            r == self.spec_rate(),
            r <= 1000,
    {
        let s = self.successful_domains.len() as u128;
        let f = self.failed_domains.len() as u128;
        rate_permille_u128(s, s + f)
    }

    /// A copy of this result with the same model.
    pub fn duplicate(&self) -> (r: TestResult)
        ensures
            r@ == self@,
    {
        let r = TestResult {
            config: self.config.clone(),
            socks5_port: self.socks5_port,
            successful_domains: clone_string_vec(&self.successful_domains),
            failed_domains: clone_string_vec(&self.failed_domains),
        };
        r
    }
}

/// An equal copy of a vector of strings.
pub fn clone_string_vec(v: &Vec<String>) -> (r: Vec<String>)
    ensures
        r@ == v@,
{
    let mut r: Vec<String> = Vec::new();
    let mut i: usize = 0;
    while i < v.len()
        invariant
            i <= v@.len(),
            r@ == v@.subrange(0, i as int),
        decreases v@.len() - i,
    {
        r.push(v[i].clone());
        i = i + 1;
        proof {
            assert(r@ =~= v@.subrange(0, i as int));
        }
    }
    proof {
        assert(r@ =~= v@);
    }
    r
}

/// The domains of the outcomes marked successful, in order.
pub open spec fn successes_of(outs: Seq<(String, bool)>) -> Seq<String>
    decreases outs.len(),
{
    if outs.len() == 0 {
        Seq::empty()
    } else if outs.last().1 {
        successes_of(outs.drop_last()).push(outs.last().0)
    } else {
        successes_of(outs.drop_last())
    }
}

/// The domains of the outcomes marked failed, in order.
pub open spec fn failures_of(outs: Seq<(String, bool)>) -> Seq<String>
    decreases outs.len(),
{
    if outs.len() == 0 {
        Seq::empty()
    } else if !outs.last().1 {
        failures_of(outs.drop_last()).push(outs.last().0)
    } else {
        failures_of(outs.drop_last())
    }
}

/// Builds the result record for one configuration from the per-domain probe
/// outcomes: domains marked successful go to `successful_domains`, the rest to
/// `failed_domains`, each keeping its probe order.
pub fn make_test_result(config: &str, socks5_port: u16, outcomes: &Vec<(String, bool)>) -> (r:
    TestResult)
    ensures
        r.config@ == config@,
        r.socks5_port == socks5_port,
        r.successful_domains@ == successes_of(outcomes@),
        r.failed_domains@ == failures_of(outcomes@),
{
    let mut successful: Vec<String> = Vec::new();
    let mut failed: Vec<String> = Vec::new();
    let mut i: usize = 0;
    while i < outcomes.len()
        invariant
            i <= outcomes@.len(),
            successful@ == successes_of(outcomes@.take(i as int)),
            failed@ == failures_of(outcomes@.take(i as int)),
        decreases outcomes@.len() - i,
    {
        proof {
            assert(outcomes@.take(i + 1).drop_last() =~= outcomes@.take(i as int));
            assert(outcomes@.take(i + 1).last() == outcomes@[i as int]);
        }
        if outcomes[i].1 {
            successful.push(outcomes[i].0.clone());
        } else {
            failed.push(outcomes[i].0.clone());
        }
        i = i + 1;
    }
    proof {
        assert(outcomes@.take(outcomes@.len() as int) =~= outcomes@);
    }
    TestResult { config: config.to_owned(), socks5_port, successful_domains: successful, failed_domains: failed }
}

/// Success counts aggregated over one group of runners, and combined across
/// groups for the final summary.
pub struct GroupStats {
    /// Probes that succeeded.
    pub successful: u64,
    /// Probes attempted in all.
    pub total: u64,
}

impl GroupStats {
    /// Empty tally.
    pub fn new() -> (r: GroupStats)
        ensures
            r.successful == 0,
            r.total == 0,
    {
        GroupStats { successful: 0, total: 0 }
    }

    /// Adds one configuration's result to the tally. A configuration that
    /// produced no result contributes nothing: this is simply never called
    /// for it.
    pub fn add_result(&mut self, t: &TestResult)
        requires
            old(self).successful + t.spec_successes() <= u64::MAX,
            old(self).total + t.spec_total() <= u64::MAX,
        ensures
            final(self).successful == old(self).successful + t.spec_successes(),
            final(self).total == old(self).total + t.spec_total(),
    {
        let s = t.successful_domains.len() as u64;
        let f = t.failed_domains.len() as u64;
        self.successful = self.successful + s;
        self.total = self.total + f + s;
    }

    /// Folds another tally into this one, as when combining the groups'
    /// tallies into the summary of the whole run.
    pub fn combine(&mut self, other: &GroupStats)
        requires
            old(self).successful + other.successful <= u64::MAX,
            old(self).total + other.total <= u64::MAX,
        ensures
            final(self).successful == old(self).successful + other.successful,
            final(self).total == old(self).total + other.total,
    {
        self.successful = self.successful + other.successful;
        self.total = self.total + other.total;
    }

    /// Overall success rate of the tally, in permille.
    pub fn rate_permille(&self) -> (r: u32)
        requires
            self.successful <= self.total,
        ensures
            r == spec_rate_permille(self.successful as nat, self.total as nat),
            r <= 1000,
    {
        rate_permille_u128(self.successful as u128, self.total as u128)
    }
}

} // verus!
