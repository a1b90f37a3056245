use cmake_forge::codec::{load, save};
use cmake_forge::control::{init_plan, is_affirmative, parse_index, select, InitAction, SelectError};
use cmake_forge::doc::default_document;

#[test]
fn select_valid_index_updates_current_target() {
    let mut d = default_document("/ws");
    assert_eq!(select(&mut d, 1), Ok(()));
    assert_eq!(d.current_build_target, "test2");
    assert_eq!(d.build_targets, vec!["test1".to_string(), "test2".to_string()]);
}

#[test]
fn select_out_of_range_leaves_document_unchanged() {
    let mut d = default_document("/ws");
    let before = save(&d);
    assert_eq!(select(&mut d, 2), Err(SelectError::IndexOutOfRange));
    assert_eq!(d.current_build_target, "test1");
    assert_eq!(save(&d), before);
}

#[test]
fn select_persists_through_the_codec() {
    let mut d = default_document("/ws");
    select(&mut d, 1).unwrap();
    let text = save(&d);
    let d2 = load(&text).unwrap();
    assert_eq!(d2.current_build_target, "test2");
}

#[test]
fn parse_index_reads_decimal_answers() {
    assert_eq!(parse_index("2\n"), Some(2));
    assert_eq!(parse_index("  10  "), Some(10));
    assert_eq!(parse_index("0"), Some(0));
    assert_eq!(parse_index("+3"), Some(3));
    assert_eq!(parse_index("007"), Some(7));
}

#[test]
fn parse_index_strips_unicode_whitespace() {
    assert_eq!(parse_index("5\u{000B}"), Some(5));
    assert_eq!(parse_index("\u{00A0}12\u{2003}"), Some(12));
    assert_eq!(parse_index("\u{2028}3\u{202F}"), Some(3));
}

#[test]
fn parse_index_rejects_bad_answers() {
    assert_eq!(parse_index(""), None);
    assert_eq!(parse_index("\n"), None);
    assert_eq!(parse_index("abc"), None);
    assert_eq!(parse_index("1a"), None);
    assert_eq!(parse_index("-1"), None);
    assert_eq!(parse_index("+"), None);
    assert_eq!(parse_index("1 2"), None);
    assert_eq!(parse_index("99999999999999999999999999999"), None);
}

#[test]
fn affirmative_answers() {
    assert!(is_affirmative("y"));
    assert!(is_affirmative("Y"));
    assert!(is_affirmative("yes"));
    assert!(is_affirmative("YES"));
    assert!(is_affirmative("Yes\n"));
    assert!(is_affirmative("  y  "));
}

#[test]
fn affirmative_answers_with_unicode_whitespace() {
    // str::trim strips all Unicode whitespace; the decision must match
    assert!(is_affirmative("y\u{000B}"));
    assert!(is_affirmative("y\u{000C}"));
    assert!(is_affirmative("\u{00A0}yes\u{00A0}"));
    assert!(is_affirmative("\u{2003}Y\u{0085}"));
    assert!(is_affirmative("yes\u{3000}\n"));
}

#[test]
fn declining_answers() {
    assert!(!is_affirmative(""));
    assert!(!is_affirmative("\n"));
    assert!(!is_affirmative("n"));
    assert!(!is_affirmative("no"));
    assert!(!is_affirmative("yess"));
    assert!(!is_affirmative("maybe"));
    assert!(!is_affirmative("oui"));
}

#[test]
fn init_decline_leaves_existing_file_alone() {
    assert_eq!(init_plan(true, Some("n\n")), InitAction::Skip);
    assert_eq!(init_plan(true, Some("")), InitAction::Skip);
    assert_eq!(init_plan(true, Some("whatever")), InitAction::Skip);
    assert_eq!(init_plan(true, None), InitAction::Skip);
}

#[test]
fn init_writes_when_missing_or_confirmed() {
    assert_eq!(init_plan(false, None), InitAction::Write);
    assert_eq!(init_plan(false, Some("n")), InitAction::Write);
    assert_eq!(init_plan(true, Some("y\n")), InitAction::Write);
    assert_eq!(init_plan(true, Some("YES")), InitAction::Write);
}
