//! The wall clock, behind trusted declarations.
//!
//! Log-file names carry the Unix time so that concurrent runners reusing a
//! configuration string never collide, and the report header carries a
//! human-readable generation time. Both depend on the moment of the call,
//! so nothing is promised of the values; every caller states what holds
//! whatever the clock returned. Each outside call used here is total — a
//! clock standing before the Unix epoch comes back as an error value, never
//! a panic — and the library answers that state with zero, as if the run
//! began at the epoch.

use vstd::prelude::*;

verus! {

#[verifier::external_type_specification]
#[verifier::external_body]
pub struct ExSystemTime(std::time::SystemTime);

/// Relies on `std::time::SystemTime::now`: the system clock at the moment
/// of the call. The value depends on that moment, so nothing is promised
/// of it; the call itself cannot fail.
#[verifier::external_body]
fn system_time_now() -> std::time::SystemTime {
    std::time::SystemTime::now()
}

/// Relies on `SystemTime::duration_since`, measured from the Unix epoch:
/// the time elapsed since then, or `None` when the clock stands before the
/// epoch — the documentation promises an `Err` there, never a panic.
#[verifier::external_body]
fn duration_since_unix_epoch(t: &std::time::SystemTime) -> Option<core::time::Duration> {
    t.duration_since(std::time::UNIX_EPOCH).ok()
}

/// Relies on `Duration::as_secs`: the whole seconds of the duration.
#[verifier::external_body]
fn duration_secs(d: &core::time::Duration) -> u64 {
    d.as_secs()
}

/// Seconds since the Unix epoch by the system clock, and zero when the
/// clock stands before the epoch.
pub fn now_unix_seconds() -> u64 {
    match duration_since_unix_epoch(&system_time_now()) {
        Some(elapsed) => duration_secs(&elapsed),
        None => 0,
    }
}

/// Relies on `chrono::DateTime::from_timestamp` and chrono's
/// `%Y-%m-%d %H:%M:%S` formatting: the UTC date and time of the given Unix
/// second as text, a function of the argument alone. Neither step can
/// fail: seconds out of chrono's range give `None`, answered with the
/// empty string, and every format item used is supported.
#[verifier::external_body]
fn format_unix_timestamp(secs: i64) -> String {
    match chrono::DateTime::from_timestamp(secs, 0) {
        Some(timestamp) => timestamp.format("%Y-%m-%d %H:%M:%S").to_string(),
        None => String::new(),
    }
}

/// The UTC date and time of the call as text, for the report's
/// generation-time line.
pub fn utc_timestamp_string() -> String {
    let secs: u64 = now_unix_seconds();
    let clamped: i64 = if secs > i64::MAX as u64 {
        i64::MAX
    } else {
        secs as i64
    };
    format_unix_timestamp(clamped)
}

} // verus!
