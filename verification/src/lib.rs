//! Batch connectivity benchmark core: groups proxy-launch configurations into
//! bounded-concurrency batches, assigns each a reused local port, decides
//! per-domain reachability from probe outcomes, and aggregates the results
//! into a ranked, durable report.
//!
//! Everything here is verified; the surrounding binary performs the process
//! spawning, network probes and file I/O and feeds plain values back in.

pub mod aggregate;
pub mod clock;
pub mod outcome;
pub mod probe;
pub mod rank;
pub mod report;
pub mod runner;
pub mod schedule;
pub mod settings;
pub mod stats;
pub mod text;
pub mod ui;

pub use stats::rate_permille;
