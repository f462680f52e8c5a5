use bdpi_tester::outcome::make_test_result;
use bdpi_tester::probe::{
    http_url, https_url, needs_http_fallback, probe_verdict, proxy_url, status_is_success,
    AttemptOutcome,
};

#[test]
fn only_2xx_counts_as_success() {
    assert!(status_is_success(200));
    assert!(status_is_success(204));
    assert!(status_is_success(299));
    assert!(!status_is_success(199));
    assert!(!status_is_success(301));
    assert!(!status_is_success(404));
    assert!(!status_is_success(500));
}

#[test]
fn fallback_only_after_transport_failure() {
    assert!(needs_http_fallback(&AttemptOutcome::TransportFailed));
    assert!(!needs_http_fallback(&AttemptOutcome::Responded(200)));
    // a non-2xx response is not a failure that warrants the fallback
    assert!(!needs_http_fallback(&AttemptOutcome::Responded(503)));
}

#[test]
fn verdicts_follow_the_attempts() {
    // HTTPS answered: it decides
    assert!(probe_verdict(&AttemptOutcome::Responded(200), &None));
    assert!(!probe_verdict(&AttemptOutcome::Responded(404), &None));
    // HTTPS transport-failed: the HTTP fallback decides
    assert!(probe_verdict(
        &AttemptOutcome::TransportFailed,
        &Some(AttemptOutcome::Responded(200))
    ));
    assert!(!probe_verdict(
        &AttemptOutcome::TransportFailed,
        &Some(AttemptOutcome::Responded(500))
    ));
    assert!(!probe_verdict(
        &AttemptOutcome::TransportFailed,
        &Some(AttemptOutcome::TransportFailed)
    ));
    assert!(!probe_verdict(&AttemptOutcome::TransportFailed, &None));
}

#[test]
fn three_domains_two_reachable() {
    // domain A succeeds over HTTPS, B fails HTTPS but succeeds over HTTP,
    // C fails both: expect {A, B} successful, {C} failed, rate 66.7%
    let a = probe_verdict(&AttemptOutcome::Responded(200), &None);
    let b = probe_verdict(
        &AttemptOutcome::TransportFailed,
        &Some(AttemptOutcome::Responded(200)),
    );
    let c = probe_verdict(
        &AttemptOutcome::TransportFailed,
        &Some(AttemptOutcome::TransportFailed),
    );
    let outcomes = vec![
        ("a.example".to_string(), a),
        ("b.example".to_string(), b),
        ("c.example".to_string(), c),
    ];
    let result = make_test_result("--fake 1", 1080, &outcomes);
    assert_eq!(result.successful_domains, vec!["a.example", "b.example"]);
    assert_eq!(result.failed_domains, vec!["c.example"]);
    assert_eq!(result.success_rate_permille(), 667);
}

#[test]
fn request_targets_are_built_from_port_and_domain() {
    assert_eq!(proxy_url(1080), "socks5h://127.0.0.1:1080");
    assert_eq!(proxy_url(65535), "socks5h://127.0.0.1:65535");
    assert_eq!(https_url("example.com"), "https://example.com");
    assert_eq!(http_url("example.com"), "http://example.com");
}
