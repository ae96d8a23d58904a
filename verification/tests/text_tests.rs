use homework_store::homework::Homework;
use homework_store::lifecycle::LifecycleController;
use homework_store::numbers::{parse_u64, u64_to_string};
use homework_store::render::{chosen_format, render_html, ListingFormat};
use homework_store::validation::is_valid_course_code;

#[test]
fn allow_list_members_are_valid() {
    for code in ["OTHER", "COMP7082", "COMP7035", "COMP7071", "COMP7003", "MATH7808"] {
        assert!(is_valid_course_code(code));
    }
}

#[test]
fn everything_else_is_invalid() {
    for code in ["", "BOGUS", "comp7082", "COMP7082 ", " COMP7082", "MATH7809"] {
        assert!(!is_valid_course_code(code));
    }
}

#[test]
fn parse_accepts_plain_and_signed_decimals() {
    assert_eq!(parse_u64("0"), Some(0));
    assert_eq!(parse_u64("5"), Some(5));
    assert_eq!(parse_u64("007"), Some(7));
    assert_eq!(parse_u64("+123"), Some(123));
    assert_eq!(parse_u64("18446744073709551615"), Some(u64::MAX));
}

#[test]
fn parse_rejects_everything_else() {
    assert_eq!(parse_u64(""), None);
    assert_eq!(parse_u64("+"), None);
    assert_eq!(parse_u64("-1"), None);
    assert_eq!(parse_u64("1a"), None);
    assert_eq!(parse_u64("a1"), None);
    assert_eq!(parse_u64(" 1"), None);
    assert_eq!(parse_u64("18446744073709551616"), None);
    assert_eq!(parse_u64("99999999999999999999999"), None);
}

#[test]
fn rendering_numbers_round_trips() {
    assert_eq!(u64_to_string(0), "0");
    assert_eq!(u64_to_string(10), "10");
    assert_eq!(u64_to_string(9876543210), "9876543210");
    assert_eq!(u64_to_string(u64::MAX), "18446744073709551615");
    for n in [0u64, 1, 9, 10, 99, 100, 12345, u64::MAX] {
        assert_eq!(parse_u64(&u64_to_string(n)), Some(n));
    }
}

#[test]
fn html_page_for_one_record() {
    let records = vec![Homework {
        id: Some(1),
        name: "Lab1".to_string(),
        course_code: "COMP7082".to_string(),
        due_date: 9999999999,
    }];
    let page = render_html(&records);
    assert_eq!(
        page,
        "<html><body><ul><li>ID: 1 | Name: Lab1 | Course Code: COMP7082 | \
         Due Date: 2286-11-20 17:46:39 UTC</li></ul></body></html>"
    );
}

#[test]
fn html_page_for_no_records() {
    let page = render_html(&Vec::new());
    assert_eq!(page, "<html><body><ul></ul></body></html>");
}

#[test]
fn html_shows_zero_for_missing_id() {
    let records = vec![Homework {
        id: None,
        name: "n".to_string(),
        course_code: "OTHER".to_string(),
        due_date: 0,
    }];
    let page = render_html(&records);
    assert!(page.contains("ID: 0 "));
    assert!(page.contains("Due Date: 1970-01-01 00:00:00 UTC"));
}

#[test]
fn format_selection() {
    assert_eq!(chosen_format(Some("html")), ListingFormat::Html);
    assert_eq!(chosen_format(Some("json")), ListingFormat::Structured);
    assert_eq!(chosen_format(Some("HTML")), ListingFormat::Structured);
    assert_eq!(chosen_format(None), ListingFormat::Structured);
}

#[test]
fn single_shot_controller_fires_once() {
    let mut c = LifecycleController::new(true);
    assert_eq!(c.on_response_complete(), Some(100));
    assert_eq!(c.on_response_complete(), None);
    assert_eq!(c.on_response_complete(), None);
}

#[test]
fn disabled_controller_never_fires() {
    let mut c = LifecycleController::new(false);
    assert_eq!(c.on_response_complete(), None);
    assert_eq!(c.on_response_complete(), None);
}
