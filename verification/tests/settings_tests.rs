use bdpi_tester::settings::Settings;
use bdpi_tester::stats::status_label;

fn settings(group_size: usize, start_port: u16) -> Settings {
    Settings {
        group_size,
        start_port,
        group_delay_ms: 1000,
        request_timeout_sec: 10,
        log_dir: "logs".to_string(),
        results_file: "results.txt".to_string(),
        ciadpi_start_delay_ms: 500,
    }
}

#[test]
fn a_positive_group_size_within_the_port_range_is_valid() {
    assert!(settings(1, 1080).valid());
    assert!(settings(10, 1080).valid());
    assert!(settings(1, 65535).valid());
}

#[test]
fn a_zero_group_size_is_rejected() {
    assert!(!settings(0, 1080).valid());
}

#[test]
fn a_port_range_past_sixteen_bits_is_rejected() {
    assert!(!settings(2, 65535).valid());
    assert!(settings(65536, 0).valid());
    assert!(!settings(65537, 0).valid());
}

#[test]
fn status_labels_follow_the_thresholds() {
    assert_eq!(status_label(1000), "[OK]");
    assert_eq!(status_label(801), "[OK]");
    assert_eq!(status_label(800), "[WARN]");
    assert_eq!(status_label(501), "[WARN]");
    assert_eq!(status_label(500), "[FAIL]");
    assert_eq!(status_label(0), "[FAIL]");
}
