//! The run's settings, as the library needs them.
//!
//! Reading and parsing the settings file is an external collaborator's job;
//! what arrives here are plain values. A settings value is acceptable
//! exactly when the scheduler can run with it: a positive group size, and a
//! port range that stays within sixteen bits.

use vstd::prelude::*;

verus! {

/// The settings of one run.
#[derive(Clone)]
pub struct Settings {
    /// How many configurations run concurrently in one group.
    pub group_size: usize,
    /// The port of the first configuration of every group.
    pub start_port: u16,
    /// The pause between groups, in milliseconds.
    pub group_delay_ms: u64,
    /// The bound on each probe attempt, in seconds.
    pub request_timeout_sec: u64,
    /// Where the per-configuration log files go.
    pub log_dir: String,
    /// Where the report snapshots go.
    pub results_file: String,
    /// How long the external process gets to bind before probing starts,
    /// in milliseconds.
    pub ciadpi_start_delay_ms: u64,
}

impl Settings {
    /// The scheduler can run with these settings: at least one
    /// configuration per group, and every assigned port representable.
    pub open spec fn wf(self) -> bool {
        self.group_size >= 1 && self.start_port + self.group_size <= 65536
    }

    /// Whether the scheduler can run with these settings.
    pub fn valid(&self) -> (r: bool)
        ensures
            r == self.wf(),
    {
        self.group_size >= 1 && self.group_size <= 65536 - self.start_port as usize
    }
}

} // verus!
