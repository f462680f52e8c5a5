//! The group scheduler's core: partitioning configurations into
//! bounded-concurrency groups, assigning each position a port reused across
//! groups, and the per-run state machine whose group barrier makes that reuse
//! safe.
//!
//! Configuration `i` belongs to group `i / group_size` and runs on port
//! `start_port + i % group_size`; groups are processed strictly in order. The
//! [`GroupRun`] state machine tracks one phase per configuration and refuses
//! to advance to the next group before every runner of the current group has
//! completed teardown, so no two live processes can ever share a port
//! ([`lemma_no_concurrent_port_reuse`]).

use vstd::arithmetic::div_mod::{lemma_fundamental_div_mod, lemma_fundamental_div_mod_converse};
use vstd::pervasive::VecAdditionalExecFns;
use vstd::prelude::*;

verus! {

/// Number of groups a list of `len` configurations forms under group size
/// `g`: the least number of groups of at most `g` that cover `len`.
pub open spec fn spec_num_groups(len: nat, g: nat) -> nat
    recommends
        g >= 1,
{
    ((len + g - 1) as nat) / g
}

/// Size of group `k`: `g` for every group but possibly the last.
pub open spec fn spec_group_len(len: nat, g: nat, k: nat) -> nat
    recommends
        g >= 1,
        k < spec_num_groups(len, g),
{
    if k * g + g <= len {
        g
    } else {
        (len - k * g) as nat
    }
}

/// The group a configuration index belongs to.
pub open spec fn spec_group_of(i: nat, g: nat) -> nat
    recommends
        g >= 1,
{
    i / g
}

/// The position of a configuration inside its group.
pub open spec fn spec_pos_in_group(i: nat, g: nat) -> nat
    recommends
        g >= 1,
{
    i % g
}

/// The port assigned to configuration `i`: ports depend only on the position
/// inside the group, so they are identical across groups.
pub open spec fn spec_port_of(start_port: u16, i: nat, g: nat) -> int
    recommends
        g >= 1,
{
    start_port + spec_pos_in_group(i, g)
}

/// The number of groups equals the ceiling of `len / g`.
pub fn num_groups(len: usize, group_size: usize) -> (r: usize)
    requires
        group_size >= 1,
    ensures
        r == spec_num_groups(len as nat, group_size as nat),
        r <= len,
{
    let q = len / group_size;
    let rem = len % group_size;
    proof {
        lemma_fundamental_div_mod(len as int, group_size as int);
        lemma_num_groups_le_len(len as nat, group_size as nat);
        if rem == 0 {
            if len == 0 {
                lemma_fundamental_div_mod_converse(
                    len + group_size - 1,
                    group_size as int,
                    0,
                    group_size - 1,
                );
            } else {
                assert(len + group_size - 1 == q * (group_size as int) + (group_size - 1))
                    by (nonlinear_arith)
                    requires
                        len == (group_size as int) * q + rem,
                        rem == 0,
                ;
                lemma_fundamental_div_mod_converse(
                    len + group_size - 1,
                    group_size as int,
                    q as int,
                    group_size - 1,
                );
            }
        } else {
            assert(len + group_size - 1 == (q + 1) * (group_size as int) + (rem - 1))
                by (nonlinear_arith)
                requires
                    len == (group_size as int) * q + rem,
            ;
            lemma_fundamental_div_mod_converse(
                len + group_size - 1,
                group_size as int,
                q + 1,
                rem - 1,
            );
        }
    }
    if rem == 0 {
        q
    } else {
        q + 1
    }
}

/// There are never more groups than configurations.
pub proof fn lemma_num_groups_le_len(len: nat, g: nat)
    requires
        g >= 1,
    ensures
        spec_num_groups(len, g) <= len,
{
    let q = spec_num_groups(len, g) as int;
    lemma_fundamental_div_mod((len + g - 1) as int, g as int);
    assert(q <= len) by (nonlinear_arith)
        requires
            (g as int) * q <= len + g - 1,
            g >= 1,
            q >= 0,
    ;
}

/// Every configuration index falls in a group below the group count.
pub proof fn lemma_group_of_in_range(len: nat, g: nat, i: nat)
    requires
        g >= 1,
        i < len,
    ensures
        spec_group_of(i, g) < spec_num_groups(len, g),
{
    lemma_fundamental_div_mod(i as int, g as int);
    lemma_fundamental_div_mod((len + g - 1) as int, g as int);
    let qi = (i / g) as int;
    let qn = spec_num_groups(len, g) as int;
    if qi >= qn {
        assert(false) by (nonlinear_arith)
            requires
                qi >= qn,
                g >= 1,
                qi >= 0,
                qn >= 0,
                i < len,
                i == (g as int) * qi + (i as int) % (g as int),
                0 <= (i as int) % (g as int),
                len + g - 1 == (g as int) * qn + (len + g - 1) % (g as int),
                (len + g - 1) % (g as int) < g,
            ;
    }
}

/// A group below the group count starts strictly below `len`.
pub proof fn lemma_group_start_below(len: nat, g: nat, k: nat)
    requires
        g >= 1,
        k < spec_num_groups(len, g),
    ensures
        k * g < len,
        k * g + spec_group_len(len, g, k) <= len,
        1 <= spec_group_len(len, g, k) <= g,
{
    let qn = spec_num_groups(len, g) as int;
    lemma_fundamental_div_mod((len + g - 1) as int, g as int);
    assert((k as int) * g < len) by (nonlinear_arith)
        requires
            (k as int) < qn,
            g >= 1,
            k >= 0,
            (g as int) * qn <= len + g - 1,
        ;
}

/// The size of each group: at least one, at most `g`, and exactly what is
/// left of `len` past the group's start.
pub fn group_len(len: usize, group_size: usize, k: usize) -> (r: usize)
    requires
        group_size >= 1,
        k < spec_num_groups(len as nat, group_size as nat),
    ensures
        r == spec_group_len(len as nat, group_size as nat, k as nat),
        1 <= r <= group_size,
        k * group_size + r <= len,
{
    proof {
        lemma_group_start_below(len as nat, group_size as nat, k as nat);
    }
    let start = k * group_size;
    let rem = len - start;
    if rem >= group_size {
        group_size
    } else {
        rem
    }
}

/// The groups tile the configuration list: every index belongs to exactly
/// one group, at its position within that group, and the position lies
/// below that group's size.
pub proof fn lemma_groups_partition(len: nat, g: nat, i: nat)
    requires
        g >= 1,
        i < len,
    ensures
        spec_group_of(i, g) < spec_num_groups(len, g),
        i == spec_group_of(i, g) * g + spec_pos_in_group(i, g),
        spec_pos_in_group(i, g) < spec_group_len(len, g, spec_group_of(i, g)),
{
    lemma_group_of_in_range(len, g, i);
    lemma_fundamental_div_mod(i as int, g as int);
    let k = spec_group_of(i, g) as int;
    let p = spec_pos_in_group(i, g) as int;
    assert((g as int) * k == k * g) by (nonlinear_arith);
    if k * g + g <= len {
        assert(spec_group_len(len, g, k as nat) == g);
    } else {
        assert(spec_group_len(len, g, k as nat) == len - k * g);
    }
}

/// The configurations of group `k`, in order: the `k`-th consecutive slice
/// of at most `group_size` entries.
pub fn group_slice(configs: &Vec<String>, group_size: usize, k: usize) -> (r: Vec<String>)
    requires
        group_size >= 1,
        k < spec_num_groups(configs@.len(), group_size as nat),
    ensures
        r@ == configs@.subrange(
            k * group_size,
            k * group_size + spec_group_len(configs@.len(), group_size as nat, k as nat),
        ),
{
    let glen = group_len(configs.len(), group_size, k);
    let start = k * group_size;
    let mut r: Vec<String> = Vec::new();
    let mut i: usize = 0;
    while i < glen
        invariant
            i <= glen,
            start == k * group_size,
            start + glen <= configs@.len(),
            configs@.len() <= usize::MAX,
            r@ == configs@.subrange(start as int, start + i),
        decreases glen - i,
    {
        r.push(configs[start + i].clone());
        i = i + 1;
        proof {
            assert(r@ =~= configs@.subrange(start as int, start + i));
        }
    }
    r
}

/// Ports within one group: position `p` of group `k` is configuration
/// `k * g + p`; it belongs to group `k` and gets port `start_port + p`. So
/// the ports of a group of size `s` are exactly `start_port, start_port + 1,
/// ..., start_port + s - 1`, contiguous and pairwise distinct.
pub proof fn lemma_group_ports(len: nat, g: nat, k: nat, start_port: u16)
    requires
        g >= 1,
        k < spec_num_groups(len, g),
    ensures
        forall|p: nat|
            p < spec_group_len(len, g, k) ==> #[trigger] spec_group_of((k * g + p) as nat, g) == k
                && spec_port_of(start_port, (k * g + p) as nat, g) == start_port + p,
{
    lemma_group_start_below(len, g, k);
    assert forall|p: nat| p < spec_group_len(len, g, k) implies #[trigger] spec_group_of(
        (k * g + p) as nat,
        g,
    ) == k && spec_port_of(start_port, (k * g + p) as nat, g) == start_port + p by {
        assert(p < g);
        lemma_fundamental_div_mod_converse((k * g + p) as int, g as int, k as int, p as int);
    }
}

/// The lifecycle of one configuration's runner.
pub enum RunnerPhase {
    /// No process has been started for this configuration yet.
    NotStarted,
    /// The external proxy process has been spawned.
    Running,
    /// The per-domain probes are in flight.
    Probing,
    /// The process has been terminated and reaped (or never started because
    /// setup failed); nothing of this runner is alive.
    Stopped,
}

/// One run of the whole benchmark: which group is being processed and what
/// phase each configuration's runner is in.
///
/// The well-formedness invariant [`GroupRun::wf`] is the port-reuse safety
/// argument: every runner of an earlier group is `Stopped`, every runner of a
/// later group is `NotStarted`, so only runners of the current group can be
/// alive, and within one group all ports are distinct.
pub struct GroupRun {
    /// Upper bound on concurrently processed configurations.
    pub group_size: usize,
    /// Port of position 0 in every group.
    pub start_port: u16,
    /// The group currently being processed; equals the group count when the
    /// run is over.
    pub current_group: usize,
    /// One phase per configuration.
    pub phases: Vec<RunnerPhase>,
}

impl GroupRun {
    /// Number of configurations of the run.
    pub open spec fn num_configs(self) -> nat {
        self.phases@.len()
    }

    /// Number of groups of the run.
    pub open spec fn num_groups(self) -> nat {
        spec_num_groups(self.num_configs(), self.group_size as nat)
    }

    /// The group configuration `i` belongs to.
    pub open spec fn group_of(self, i: nat) -> nat {
        spec_group_of(i, self.group_size as nat)
    }

    /// The port assigned to configuration `i`.
    pub open spec fn port_of(self, i: nat) -> int {
        spec_port_of(self.start_port, i, self.group_size as nat)
    }

    /// A runner whose external process may be alive.
    pub open spec fn active(self, i: nat) -> bool {
        i < self.num_configs() && (self.phases@[i as int] is Running || self.phases@[i as int]
            is Probing)
    }

    /// The state machine's invariant: group size and port range are sane, the
    /// current group never runs past the group count, runners of earlier
    /// groups are stopped and runners of later groups not yet started.
    pub open spec fn wf(self) -> bool {
        &&& self.group_size >= 1
        &&& self.start_port + self.group_size <= 65536
        &&& self.current_group <= self.num_groups()
        &&& forall|i: int|
            0 <= i < self.phases@.len() && spec_group_of(i as nat, self.group_size as nat)
                < self.current_group ==> (#[trigger] self.phases@[i]) is Stopped
        &&& forall|i: int|
            0 <= i < self.phases@.len() && spec_group_of(i as nat, self.group_size as nat)
                > self.current_group ==> (#[trigger] self.phases@[i]) is NotStarted
    }

    /// The run is over: every group has been processed.
    pub open spec fn done(self) -> bool {
        self.current_group == self.num_groups()
    }

    /// A fresh run: no group processed, no runner started.
    pub fn new(num_configs: usize, group_size: usize, start_port: u16) -> (r: GroupRun)
        requires
            group_size >= 1,
            start_port + group_size <= 65536,
        ensures
            r.wf(),
            r.group_size == group_size,
            r.start_port == start_port,
            r.current_group == 0,
            r.num_configs() == num_configs,
            forall|i: int| 0 <= i < num_configs ==> (#[trigger] r.phases@[i]) is NotStarted,
    {
        let mut phases: Vec<RunnerPhase> = Vec::new();
        let mut i: usize = 0;
        while i < num_configs
            invariant
                i <= num_configs,
                phases@.len() == i,
                forall|j: int| 0 <= j < i ==> (#[trigger] phases@[j]) is NotStarted,
            decreases num_configs - i,
        {
            phases.push(RunnerPhase::NotStarted);
            i = i + 1;
        }
        GroupRun { group_size, start_port, current_group: 0, phases }
    }

    /// The port configuration `i` runs on, without starting anything: the
    /// setup that precedes the start (the log file carries the port in its
    /// name) needs it first.
    pub fn assigned_port(&self, i: usize) -> (port: u16)
        requires
            self.wf(),
            i < self.num_configs(),
        ensures
            port == self.port_of(i as nat),
    {
        self.start_port + (i % self.group_size) as u16
    }

    /// Starts the runner for configuration `i` of the current group and hands
    /// back its assigned port. Only a not-yet-started runner of the current
    /// group can be started.
    pub fn start_runner(&mut self, i: usize) -> (port: u16)
        requires
            old(self).wf(),
            i < old(self).num_configs(),
            old(self).group_of(i as nat) == old(self).current_group,
            old(self).phases@[i as int] is NotStarted,
        ensures
            final(self).wf(),
            final(self).phases@ == old(self).phases@.update(i as int, RunnerPhase::Running),
            final(self).group_size == old(self).group_size,
            final(self).start_port == old(self).start_port,
            final(self).current_group == old(self).current_group,
            port == old(self).port_of(i as nat),
    {
        let pos = i % self.group_size;
        let port = self.start_port + pos as u16;
        self.phases.set(i, RunnerPhase::Running);
        port
    }

    /// Marks runner `i` as probing: its process is up and the domain probes
    /// are being fanned out.
    pub fn begin_probing(&mut self, i: usize)
        requires
            old(self).wf(),
            i < old(self).num_configs(),
            old(self).phases@[i as int] is Running,
        ensures
            final(self).wf(),
            final(self).phases@ == old(self).phases@.update(i as int, RunnerPhase::Probing),
            final(self).group_size == old(self).group_size,
            final(self).start_port == old(self).start_port,
            final(self).current_group == old(self).current_group,
    {
        self.phases.set(i, RunnerPhase::Probing);
    }

    /// Marks runner `i` as stopped after teardown: its process has been
    /// terminated and reaped, on the success path and the failure path alike.
    pub fn finish_runner(&mut self, i: usize)
        requires
            old(self).wf(),
            i < old(self).num_configs(),
            old(self).phases@[i as int] is Running || old(self).phases@[i as int] is Probing,
        ensures
            final(self).wf(),
            final(self).phases@ == old(self).phases@.update(i as int, RunnerPhase::Stopped),
            final(self).group_size == old(self).group_size,
            final(self).start_port == old(self).start_port,
            final(self).current_group == old(self).current_group,
    {
        self.phases.set(i, RunnerPhase::Stopped);
    }

    /// Marks runner `i` of the current group as stopped without it ever
    /// having run: its setup (log file or process spawn) failed, so there is
    /// no process and there will be no result.
    pub fn fail_setup(&mut self, i: usize)
        requires
            old(self).wf(),
            i < old(self).num_configs(),
            old(self).group_of(i as nat) == old(self).current_group,
            old(self).phases@[i as int] is NotStarted,
        ensures
            final(self).wf(),
            final(self).phases@ == old(self).phases@.update(i as int, RunnerPhase::Stopped),
            final(self).group_size == old(self).group_size,
            final(self).start_port == old(self).start_port,
            final(self).current_group == old(self).current_group,
    {
        self.phases.set(i, RunnerPhase::Stopped);
    }

    /// Whether every runner of the current group has stopped: the group
    /// barrier condition.
    pub fn group_finished(&self) -> (r: bool)
        requires
            self.wf(),
            self.current_group < self.num_groups(),
        ensures
            r == forall|i: int|
                0 <= i < self.num_configs() && spec_group_of(i as nat, self.group_size as nat)
                    == self.current_group ==> (#[trigger] self.phases@[i]) is Stopped,
    {
        let n: usize = self.phases.len();
        proof {
            lemma_group_start_below(
                self.num_configs(),
                self.group_size as nat,
                self.current_group as nat,
            );
        }
        let start = self.current_group * self.group_size;
        let glen = group_len(n, self.group_size, self.current_group);
        let end = start + glen;
        let mut i: usize = start;
        while i < end
            invariant
                self.wf(),
                self.current_group < self.num_groups(),
                start == self.current_group * self.group_size,
                end == start + spec_group_len(
                    self.num_configs(),
                    self.group_size as nat,
                    self.current_group as nat,
                ),
                end <= start + self.group_size,
                start <= i <= end,
                end <= self.num_configs(),
                forall|j: int| start <= j < i ==> (#[trigger] self.phases@[j]) is Stopped,
            decreases end - i,
        {
            proof {
                lemma_fundamental_div_mod_converse(
                    i as int,
                    self.group_size as int,
                    self.current_group as int,
                    i - start,
                );
            }
            if !matches!(self.phases[i], RunnerPhase::Stopped) {
                proof {
                    assert(spec_group_of(i as nat, self.group_size as nat)
                        == self.current_group);
                }
                return false;
            }
            i = i + 1;
        }
        proof {
            assert forall|j: int|
                0 <= j < self.num_configs() && spec_group_of(j as nat, self.group_size as nat)
                    == self.current_group implies (#[trigger] self.phases@[j]) is Stopped by {
                self.lemma_current_group_span(j as nat);
            }
        }
        true
    }

    /// Every index of the current group lies between the group's start and
    /// the group's end.
    proof fn lemma_current_group_span(self, j: nat)
        requires
            self.wf(),
            self.current_group < self.num_groups(),
            j < self.num_configs(),
            self.group_of(j) == self.current_group,
        ensures
            self.current_group * self.group_size <= j < self.current_group * self.group_size
                + spec_group_len(
                self.num_configs(),
                self.group_size as nat,
                self.current_group as nat,
            ),
    {
        let g = self.group_size as int;
        let k = self.current_group as int;
        let len = self.num_configs() as int;
        lemma_fundamental_div_mod(j as int, g);
        assert(j as int == g * k + (j as int) % g);
        assert(g * k == k * g) by (nonlinear_arith);
        lemma_group_start_below(
            self.num_configs(),
            self.group_size as nat,
            self.current_group as nat,
        );
        if k * g + g <= len {
            assert(spec_group_len(self.num_configs(), self.group_size as nat, k as nat) == g);
        } else {
            assert(spec_group_len(self.num_configs(), self.group_size as nat, k as nat) == len - k
                * g);
        }
    }

    /// An active runner always belongs to the current group: earlier groups
    /// are all stopped, later ones not yet started.
    pub proof fn lemma_active_in_current_group(self, i: nat)
        requires
            self.wf(),
            self.active(i),
        ensures
            self.group_of(i) == self.current_group,
    {
    }

    /// Advances past the barrier to the next group. This is only possible
    /// when every runner of the current group has stopped, so a port of the
    /// finished group is never handed to the next group while any of its
    /// processes could still be bound to it.
    pub fn advance_group(&mut self)
        requires
            old(self).wf(),
            old(self).current_group < old(self).num_groups(),
            forall|i: int|
                0 <= i < old(self).num_configs() && spec_group_of(
                    i as nat,
                    old(self).group_size as nat,
                ) == old(self).current_group ==> (#[trigger] old(self).phases@[i]) is Stopped,
        ensures
            final(self).wf(),
            final(self).current_group == old(self).current_group + 1,
            final(self).phases@ == old(self).phases@,
            final(self).group_size == old(self).group_size,
            final(self).start_port == old(self).start_port,
    {
        let n: usize = self.phases.len();
        proof {
            lemma_num_groups_le_len(self.num_configs(), self.group_size as nat);
            assert(self.num_configs() == n as nat);
        }
        self.current_group = self.current_group + 1;
    }
}

/// No two runners that may both have a live process are ever bound to the
/// same port: both must belong to the current group, and within one group
/// every position has its own port.
pub proof fn lemma_no_concurrent_port_reuse(s: GroupRun, i: nat, j: nat)
    requires
        s.wf(),
        i != j,
        s.active(i),
        s.active(j),
    ensures
        s.group_of(i) == s.current_group,
        s.group_of(j) == s.current_group,
        s.port_of(i) != s.port_of(j),
{
    s.lemma_active_in_current_group(i);
    s.lemma_active_in_current_group(j);
    let g = s.group_size as int;
    lemma_fundamental_div_mod(i as int, g);
    lemma_fundamental_div_mod(j as int, g);
    assert(i as int == g * ((i as int) / g) + (i as int) % g);
    assert(j as int == g * ((j as int) / g) + (j as int) % g);
}

} // verus!
