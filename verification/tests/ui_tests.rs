use bdpi_tester::ui::{command_matches, render_banner, render_section, render_table, repeat_char};

#[test]
fn console_commands_ignore_case_and_surrounding_whitespace() {
    assert!(command_matches("start", "start"));
    assert!(command_matches("  START \n", "start"));
    assert!(command_matches("\tQuIt\r\n", "quit"));
    assert!(!command_matches("stat", "start"));
    assert!(!command_matches("start now", "start"));
    assert!(!command_matches("", "quit"));
}

#[test]
fn repeated_characters_form_a_rule() {
    assert_eq!(repeat_char('=', 4), "====");
    assert_eq!(repeat_char('─', 0), "");
}

#[test]
fn a_section_frame_hugs_its_title() {
    assert_eq!(render_section("AB"), "\n┌──────┐\n│  AB  │\n└──────┘\n");
}

#[test]
fn a_banner_centers_title_and_subtitle() {
    let banner = render_banner("AB", "CD");
    let pad = " ".repeat(29);
    let dashes = "─".repeat(60);
    let expected = format!(
        "┌{}┐\n│{}AB{}│\n│{}CD{}│\n└{}┘\n",
        dashes, pad, pad, pad, pad, dashes
    );
    assert_eq!(banner, expected);
}

#[test]
fn a_table_aligns_both_columns() {
    let rows = vec![
        ("a:".to_string(), "1".to_string()),
        ("bb:".to_string(), "22".to_string()),
    ];
    let expected = "   ┌────────┐\n   │ a:   1 │\n   │ bb: 22 │\n   └────────┘\n\n";
    assert_eq!(render_table(&rows), expected);
}

#[test]
fn an_empty_table_is_just_its_frame() {
    let rows: Vec<(String, String)> = vec![];
    assert_eq!(render_table(&rows), "   ┌───┐\n   └───┘\n\n");
}
