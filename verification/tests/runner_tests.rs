use bdpi_tester::runner::{log_file_name, log_stem, proxy_args, sanitize_filename_for_log};

#[test]
fn args_are_config_tokens_plus_fixed_flags() {
    let args = proxy_args("--fake 1 --ttl 8", 1085);
    assert_eq!(
        args,
        vec!["--fake", "1", "--ttl", "8", "--ip", "0.0.0.0", "--port", "1085", "-Y"]
    );
}

#[test]
fn an_empty_config_still_gets_the_fixed_flags() {
    let args = proxy_args("   ", 1080);
    assert_eq!(args, vec!["--ip", "0.0.0.0", "--port", "1080", "-Y"]);
}

#[test]
fn log_stem_keeps_alphanumerics_and_dashes() {
    assert_eq!(log_stem("tcp-frag 20 --x", 1085, 1700000000), "tcp-frag_p1085_t1700000000");
    assert_eq!(log_stem("a.b/c!", 1, 5), "a_b_c__p1_t5");
}

#[test]
fn log_stem_without_a_token_uses_cfg() {
    assert_eq!(log_stem("", 1080, 7), "cfg_p1080_t7");
    assert_eq!(log_stem(" \t ", 1080, 7), "cfg_p1080_t7");
}

#[test]
fn log_stem_cuts_the_token_at_twenty_characters() {
    let stem = log_stem("abcdefghijklmnopqrstuvwxyz rest", 9, 3);
    assert_eq!(stem, "abcdefghijklmnopqrst_p9_t3");
}

#[test]
fn sanitized_name_carries_token_port_and_time() {
    let name = sanitize_filename_for_log("tcp-frag 20", 1085);
    assert!(name.starts_with("tcp-frag_p1085_t"));
    let suffix = &name["tcp-frag_p1085_t".len()..];
    assert!(!suffix.is_empty());
    assert!(suffix.chars().all(|c| c.is_ascii_digit()));
}

#[test]
fn log_file_wraps_the_stem() {
    assert_eq!(log_file_name("abc_p1_t2"), "ciadpi_abc_p1_t2.log");
}
