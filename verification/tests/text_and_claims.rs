use planner_backend::claims::{claims_json_text, parse_claims_text};
use planner_backend::error::AppError;
use planner_backend::models::{date_to_text, PlanDate, RecordId};
use planner_backend::text::{text_eq, text_lt, text_starts_with};

#[test]
fn date_text_pads_month_and_day() {
    let d = PlanDate { year: 2026, month: 6, day: 8 };
    assert_eq!(date_to_text(&d), "2026-06-08");
}

#[test]
fn date_text_pads_small_years() {
    assert_eq!(date_to_text(&PlanDate { year: 5, month: 1, day: 2 }), "0005-01-02");
    assert_eq!(date_to_text(&PlanDate { year: 999, month: 12, day: 31 }), "0999-12-31");
}

#[test]
fn date_text_signs_years_outside_four_digits() {
    assert_eq!(date_to_text(&PlanDate { year: 12345, month: 3, day: 4 }), "+12345-03-04");
    assert_eq!(date_to_text(&PlanDate { year: -1, month: 3, day: 4 }), "-0001-03-04");
}

#[test]
fn claims_text_is_compact_json() {
    assert_eq!(claims_json_text("user:abc", 123), "{\"sub\":\"user:abc\",\"exp\":123}");
    assert_eq!(claims_json_text("", 0), "{\"sub\":\"\",\"exp\":0}");
}

#[test]
fn claims_text_escapes_like_serde_json() {
    let sub = "a\"b\\c\nd\te\u{1}f\u{8}g";
    let text = claims_json_text(sub, 7);
    assert_eq!(text, "{\"sub\":\"a\\\"b\\\\c\\nd\\te\\u0001f\\bg\",\"exp\":7}");
    let expected = serde_json::to_string(sub).unwrap();
    assert!(text.contains(&expected));
}

#[test]
fn claims_text_reads_back() {
    for (sub, exp) in [("user:x", 1usize), ("ü \"q\" \\", 604800), ("", usize::MAX)] {
        let text = claims_json_text(sub, exp);
        let (s, e) = parse_claims_text(&text).expect("claims read back");
        assert_eq!(s, sub);
        assert_eq!(e, exp);
    }
}

#[test]
fn claims_parser_refuses_other_shapes() {
    assert!(parse_claims_text("{\"exp\":1,\"sub\":\"x\"}").is_none());
    assert!(parse_claims_text("{\"sub\":\"x\",\"exp\":01}").is_none());
    assert!(parse_claims_text("{\"sub\":\"x\",\"exp\":}").is_none());
    assert!(parse_claims_text("{\"sub\":\"x\"}").is_none());
    assert!(parse_claims_text("{\"sub\":\"x\",\"exp\":1} ").is_none());
    assert!(parse_claims_text("").is_none());
}

#[test]
fn claims_parser_refuses_numbers_beyond_usize() {
    let text = format!("{{\"sub\":\"x\",\"exp\":{}0}}", usize::MAX);
    assert!(parse_claims_text(&text).is_none());
}

#[test]
fn record_name_joins_table_and_key() {
    let r = RecordId { table: "user".to_string(), key: "abc123".to_string() };
    assert_eq!(r.to_text(), "user:abc123");
    assert_eq!(r.raw(), "abc123");
}

#[test]
fn text_comparisons() {
    assert!(text_eq("가나", "가나"));
    assert!(!text_eq("a", "ab"));
    assert!(text_starts_with("2026-06-08", "2026-06-"));
    assert!(!text_starts_with("2026-06", "2026-06-"));
    assert!(text_lt("2026-06-08", "2026-06-09"));
    assert!(text_lt("2026", "2026-01"));
    assert!(!text_lt("b", "a"));
    assert!(!text_lt("a", "a"));
}

#[test]
fn error_status_and_body() {
    let cases = [
        (AppError::BadRequest("b".to_string()), 400u16, "b"),
        (AppError::Auth("a".to_string()), 401, "a"),
        (AppError::NotFound("n".to_string()), 404, "n"),
        (AppError::Internal("i".to_string()), 500, "i"),
    ];
    for (e, code, msg) in cases {
        assert_eq!(e.status_code(), code);
        assert_eq!(e.message(), msg);
        assert_eq!(e.to_response().error, msg);
    }
}
