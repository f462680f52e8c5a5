use bdpi_tester::text::split_whitespace_strings;

#[test]
fn tokens_are_split_on_any_whitespace_run() {
    assert_eq!(split_whitespace_strings("a  b\tc"), vec!["a", "b", "c"]);
    assert_eq!(split_whitespace_strings("  lead and trail  "), vec!["lead", "and", "trail"]);
    assert_eq!(split_whitespace_strings("one"), vec!["one"]);
}

#[test]
fn blank_text_has_no_tokens() {
    assert!(split_whitespace_strings("").is_empty());
    assert!(split_whitespace_strings(" \t\n ").is_empty());
}

#[test]
fn splitting_matches_the_standard_library() {
    let cases = ["--fake 1 --ttl 8", " x\u{a0}y ", "a\nb\r\nc", "émile curie"];
    for case in cases {
        let expected: Vec<String> = case.split_whitespace().map(|t| t.to_string()).collect();
        assert_eq!(split_whitespace_strings(case), expected);
    }
}
