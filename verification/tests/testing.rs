use hawktui::event::KeyCode;
use hawktui::testing::{frame_diff, parse_key};

#[test]
fn parse_key_names() {
    assert_eq!(parse_key("Down"), Some(KeyCode::Down));
    assert_eq!(parse_key("q"), Some(KeyCode::Char('q')));
    assert_eq!(parse_key("Space"), Some(KeyCode::Char(' ')));
    assert_eq!(parse_key("nope"), None);
    assert_eq!(parse_key("F12"), Some(KeyCode::F(12)));
    assert_eq!(parse_key("F13"), None);
    assert_eq!(parse_key("F"), Some(KeyCode::Char('F')));
}

#[test]
fn frame_diff_reports_first_difference() {
    assert!(frame_diff("ab\ncd", "ab\ncd").is_none());
    let report = frame_diff("ab\ncd", "ab\ncX").unwrap();
    assert!(report.contains("row 1"));
    assert_eq!(
        report,
        "rendered frame does not match\n  1 row(s) differ; first at row 1, column 1\n    expected: \"cX\"\n    rendered: \"cd\"\n                ^\n"
    );
}

#[test]
fn frame_diff_ignores_trailing_spaces_and_reports_height() {
    assert!(frame_diff("ab   \ncd   ", "ab\ncd").is_none());
    let report = frame_diff("ab", "ab\ncd").unwrap();
    assert!(report.contains("  height: rendered 1 rows, expected 2\n"));
    assert!(report.contains("rendered: \"<missing>\""));
}

#[test]
fn function_key_numbers_parse_as_unsigned_bytes() {
    assert_eq!(parse_key("F5"), Some(KeyCode::F(5)));
    assert_eq!(parse_key("F+5"), Some(KeyCode::F(5)));
    assert_eq!(parse_key("F012"), Some(KeyCode::F(12)));
    assert_eq!(parse_key("F13"), None);
    assert_eq!(parse_key("F300"), None);
    assert_eq!(parse_key("F-1"), None);
    assert_eq!(parse_key("F+"), None);
}
