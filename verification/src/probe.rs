//! The domain probe's decision logic and request targets.
//!
//! A probe attempts an HTTPS GET to the domain's root through the local
//! SOCKS5 proxy; only a transport-level failure (timeout, refused
//! connection, TLS failure) triggers the plain-HTTP fallback. The domain
//! counts as successful exactly when the attempt that completed answered
//! with a 2xx status. The network calls themselves stay outside the
//! library; it decides what to attempt and what the outcomes mean.

use vstd::prelude::*;
use vstd::string::StringExecFns;

use crate::text::{dec_str, push_dec_u128};

verus! {

/// What one GET attempt came to.
pub enum AttemptOutcome {
    /// No HTTP response arrived: timeout, connection refused, TLS failure.
    TransportFailed,
    /// A response arrived, with this status code.
    Responded(u16),
}

/// A 2xx status.
pub open spec fn is_success_status(status: u16) -> bool {
    200 <= status < 300
}

/// The probe's verdict. An HTTPS response settles the domain; after an
/// HTTPS transport failure the HTTP fallback's response settles it; when
/// neither attempt got a response, the domain failed.
pub open spec fn spec_probe_verdict(https: AttemptOutcome, http: Option<AttemptOutcome>) -> bool {
    match https {
        AttemptOutcome::Responded(status) => is_success_status(status),
        AttemptOutcome::TransportFailed => match http {
            Some(AttemptOutcome::Responded(status)) => is_success_status(status),
            _ => false,
        },
    }
}

/// A 2xx status.
pub fn status_is_success(status: u16) -> (r: bool)
    ensures
        r == is_success_status(status),
{
    200 <= status && status < 300
}

/// Whether the plain-HTTP fallback must be attempted: exactly when the
/// HTTPS attempt failed at the transport level. A non-2xx HTTPS response is
/// not a failure that warrants the fallback.
pub fn needs_http_fallback(https: &AttemptOutcome) -> (r: bool)
    ensures
        r == (https is TransportFailed),
{
    matches!(https, AttemptOutcome::TransportFailed)
}

/// The verdict for one domain from its attempt outcomes.
pub fn probe_verdict(https: &AttemptOutcome, http: &Option<AttemptOutcome>) -> (r: bool)
    ensures
        r == spec_probe_verdict(*https, *http),
{
    match https {
        AttemptOutcome::Responded(status) => status_is_success(*status),
        AttemptOutcome::TransportFailed => match http {
            Some(AttemptOutcome::Responded(status)) => status_is_success(*status),
            _ => false,
        },
    }
}

/// The SOCKS5 proxy endpoint for a port: `socks5h`, so that DNS resolution
/// is delegated through the proxy rather than done locally.
pub fn proxy_url(port: u16) -> (r: String)
    ensures
        r@ == "socks5h://127.0.0.1:"@ + dec_str(port as nat),
{
    let mut out = String::new();
    out.append("socks5h://127.0.0.1:");
    push_dec_u128(&mut out, port as u128);
    out
}

/// The HTTPS URL of a domain's root.
pub fn https_url(domain: &str) -> (r: String)
    ensures
        r@ == "https://"@ + domain@,
{
    let mut out = String::new();
    out.append("https://");
    out.append(domain);
    out
}

/// The plain-HTTP URL of a domain's root.
pub fn http_url(domain: &str) -> (r: String)
    ensures
        r@ == "http://"@ + domain@,
{
    let mut out = String::new();
    out.append("http://");
    out.append(domain);
    out
}

} // verus!
