use bdpi_tester::outcome::TestResult;
use bdpi_tester::rank::{outranks, top_ranked};

fn result(config: &str, successful: usize, failed: usize) -> TestResult {
    TestResult {
        config: config.to_string(),
        socks5_port: 1080,
        successful_domains: (0..successful).map(|i| format!("s{}.example", i)).collect(),
        failed_domains: (0..failed).map(|i| format!("f{}.example", i)).collect(),
    }
}

#[test]
fn higher_rate_ranks_first() {
    // rates 90%, 90%, 50%; among the equal rates the higher success count wins
    let a = result("ninety-eighteen", 18, 2);
    let b = result("ninety-nine", 9, 1);
    let c = result("fifty", 5, 5);
    let ranked = top_ranked(&vec![c, b, a]);
    assert_eq!(ranked[0].config, "ninety-eighteen");
    assert_eq!(ranked[1].config, "ninety-nine");
    assert_eq!(ranked[2].config, "fifty");
}

#[test]
fn ties_keep_aggregation_order() {
    let a = result("first", 3, 1);
    let b = result("second", 3, 1);
    let ranked = top_ranked(&vec![a, b]);
    assert_eq!(ranked[0].config, "first");
    assert_eq!(ranked[1].config, "second");
}

#[test]
fn outranks_compares_rate_then_successes() {
    let high_rate = result("high", 9, 1);
    let low_rate = result("low", 5, 5);
    assert!(outranks(&high_rate, &low_rate));
    assert!(!outranks(&low_rate, &high_rate));

    let many = result("many", 18, 2);
    let few = result("few", 9, 1);
    assert!(outranks(&many, &few));
    assert!(!outranks(&few, &many));

    let equal = result("equal", 9, 1);
    assert!(!outranks(&few, &equal));
    assert!(!outranks(&equal, &few));
}

#[test]
fn zero_total_ranks_below_any_success() {
    let empty = result("empty", 0, 0);
    let some = result("some", 1, 9);
    let ranked = top_ranked(&vec![empty, some]);
    assert_eq!(ranked[0].config, "some");
    assert_eq!(ranked[1].config, "empty");
}
