use bdpi_tester::outcome::{make_test_result, GroupStats, TestResult};
use bdpi_tester::stats::rate_permille;

fn result(config: &str, port: u16, successful: &[&str], failed: &[&str]) -> TestResult {
    TestResult {
        config: config.to_string(),
        socks5_port: port,
        successful_domains: successful.iter().map(|d| d.to_string()).collect(),
        failed_domains: failed.iter().map(|d| d.to_string()).collect(),
    }
}

#[test]
fn outcomes_are_partitioned_in_order() {
    let outcomes = vec![
        ("a.example".to_string(), true),
        ("b.example".to_string(), false),
        ("c.example".to_string(), true),
        ("d.example".to_string(), false),
    ];
    let r = make_test_result("--fake 1", 1080, &outcomes);
    assert_eq!(r.config, "--fake 1");
    assert_eq!(r.socks5_port, 1080);
    assert_eq!(r.successful_domains, vec!["a.example", "c.example"]);
    assert_eq!(r.failed_domains, vec!["b.example", "d.example"]);
}

#[test]
fn zero_probed_domains_means_rate_zero() {
    assert_eq!(rate_permille(0, 0), 0);
    let r = result("cfg", 1080, &[], &[]);
    assert_eq!(r.success_rate_permille(), 0);
}

#[test]
fn rates_are_rounded_to_tenths_of_a_percent() {
    assert_eq!(rate_permille(2, 3), 667);
    assert_eq!(rate_permille(1, 2), 500);
    assert_eq!(rate_permille(10, 10), 1000);
    assert_eq!(rate_permille(1, 3), 333);
    assert_eq!(rate_permille(0, 5), 0);
    assert_eq!(rate_permille(9, 10), 900);
    assert_eq!(rate_permille(1, 8), 125);
}

#[test]
fn group_stats_tally_results() {
    let mut stats = GroupStats::new();
    stats.add_result(&result("a", 1080, &["x", "y"], &["z"]));
    stats.add_result(&result("b", 1081, &["x"], &[]));
    assert_eq!(stats.successful, 3);
    assert_eq!(stats.total, 4);
    assert_eq!(stats.rate_permille(), 750);
}

#[test]
fn group_stats_combine_across_groups() {
    let mut overall = GroupStats::new();
    let mut first = GroupStats::new();
    first.add_result(&result("a", 1080, &["x"], &["y"]));
    let mut second = GroupStats::new();
    second.add_result(&result("b", 1080, &["x", "y"], &[]));
    overall.combine(&first);
    overall.combine(&second);
    assert_eq!(overall.successful, 3);
    assert_eq!(overall.total, 4);
}

#[test]
fn duplicate_copies_every_field() {
    let r = result("cfg --flag", 1099, &["ok.example"], &["down.example"]);
    let copy = r.duplicate();
    assert_eq!(copy.config, r.config);
    assert_eq!(copy.socks5_port, r.socks5_port);
    assert_eq!(copy.successful_domains, r.successful_domains);
    assert_eq!(copy.failed_domains, r.failed_domains);
}
