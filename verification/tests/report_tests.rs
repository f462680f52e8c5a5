use bdpi_tester::aggregate::Aggregator;
use bdpi_tester::outcome::TestResult;
use bdpi_tester::report::read_totals;

fn result(config: &str, port: u16, successful: &[&str], failed: &[&str]) -> TestResult {
    TestResult {
        config: config.to_string(),
        socks5_port: port,
        successful_domains: successful.iter().map(|d| d.to_string()).collect(),
        failed_domains: failed.iter().map(|d| d.to_string()).collect(),
    }
}

#[test]
fn snapshot_of_one_result_is_exactly_this_text() {
    let mut agg = Aggregator::new();
    agg.append(result("a", 1080, &["x"], &[]));
    let text = agg.snapshot("2024-01-01 00:00:00");
    let expected = "=== BDPI Tester Results ===\n\
                    Total successful: 1, total failed: 0\n\
                    Generated: 2024-01-01 00:00:00\n\
                    Total configs tested: 1\n\
                    \n\
                    === TOP 10 CONFIGS ===\n\
                    1. a (port 1080) - Success: 1/1 (100.0%)\n\
                    \n\
                    === DETAILED RESULTS ===\n\
                    \n\
                    Config: a (port 1080)\n\
                    Success rate: 100.0% (1/1)\n\
                    Successful domains:\n  + x\n\
                    ============================================================\n";
    assert_eq!(text, expected);
}

#[test]
fn totals_survive_the_round_trip() {
    let mut agg = Aggregator::new();
    agg.append(result("a", 1080, &["x", "y"], &["z"]));
    agg.append(result("b", 1081, &["x"], &["y", "z"]));
    agg.append(result("c", 1082, &[], &[]));
    let (successes, failures) = agg.totals();
    assert_eq!((successes, failures), (3, 3));
    let text = agg.snapshot("2024-06-15 12:30:00");
    assert_eq!(read_totals(&text), Some((3, 3)));
}

#[test]
fn totals_round_trip_on_the_empty_store() {
    let agg = Aggregator::new();
    let text = agg.snapshot("2024-06-15 12:30:00");
    assert_eq!(read_totals(&text), Some((0, 0)));
}

#[test]
fn snapshots_with_equal_timestamps_are_byte_identical() {
    let mut agg = Aggregator::new();
    agg.append(result("a", 1080, &["x"], &["y"]));
    let first = agg.snapshot("2024-01-01 00:00:00");
    let second = agg.snapshot("2024-01-01 00:00:00");
    assert_eq!(first, second);
}

#[test]
fn snapshots_differ_only_in_the_generated_line() {
    let mut agg = Aggregator::new();
    agg.append(result("a", 1080, &["x"], &["y"]));
    let first = agg.snapshot("2024-01-01 00:00:00");
    let second = agg.snapshot("2025-12-31 23:59:59");
    let strip = |text: &str| -> Vec<String> {
        text.lines()
            .filter(|line| !line.starts_with("Generated: "))
            .map(|line| line.to_string())
            .collect()
    };
    assert_ne!(first, second);
    assert_eq!(strip(&first), strip(&second));
}

#[test]
fn a_snapshot_stamped_now_still_reads_back() {
    let mut agg = Aggregator::new();
    agg.append(result("a", 1080, &["x", "y"], &[]));
    let text = agg.snapshot_now();
    assert_eq!(read_totals(&text), Some((2, 0)));
}

#[test]
fn the_top_list_shows_at_most_ten() {
    let mut agg = Aggregator::new();
    for i in 0..12u16 {
        agg.append(result(&format!("cfg{}", i), 1080 + i, &["x"], &[]));
    }
    let text = agg.snapshot("2024-01-01 00:00:00");
    assert!(text.contains("10. "));
    assert!(!text.contains("11. "));
}

#[test]
fn reading_totals_from_foreign_text_yields_nothing() {
    assert_eq!(read_totals(""), None);
    assert_eq!(read_totals("hello world"), None);
    assert_eq!(read_totals("=== BDPI Tester Results ===\n"), None);
    assert_eq!(read_totals("=== BDPI Tester Results ===\nTotal successful: , total failed: 3\n"), None);
    assert_eq!(read_totals("=== BDPI Tester Results ===\nTotal successful: 12"), None);
}

#[test]
fn reading_an_oversized_total_yields_nothing() {
    let text = "=== BDPI Tester Results ===\nTotal successful: 9999999999999999999999999999999999999999, total failed: 3\n";
    assert_eq!(read_totals(text), None);
}

#[test]
fn crafted_totals_line_reads_back() {
    let text = "=== BDPI Tester Results ===\nTotal successful: 42, total failed: 7\nanything else\n";
    assert_eq!(read_totals(text), Some((42, 7)));
}
