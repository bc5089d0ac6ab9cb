use schemaui::display::{clamp_value, field_type_label};
use schemaui::frontend::{format_budget, format_budget_parts};
use schemaui::label::{display_label_of, eq_ignore_ascii_case, prettify_label, trim_owned};
use schemaui::numbers::{i64_to_string, is_float_text, parse_i64};
use schemaui::pointer::{display_json_pointer, escape_pointer_token, join_pointer, to_pointer};
use schemaui::schema::FieldKind;
use schemaui::json::JsonValue;
use schemaui::schema::{detect_kind, read_type};
use schemaui::text::{decimal_string, has_prefix};
use std::time::Duration;

#[test]
fn prettify_label_capitalises_words_and_trims() {
    assert_eq!(prettify_label("server_port"), "Server Port");
    assert_eq!(prettify_label("max-retries"), "Max Retries");
    assert_eq!(prettify_label("_leading"), "Leading");
    assert_eq!(prettify_label(""), "");
    assert_eq!(prettify_label("a__b"), "A  B");
}

#[test]
fn display_label_adds_the_name_only_when_it_differs() {
    assert_eq!(display_label_of("Port", "port"), "Port");
    assert_eq!(display_label_of("Server Port", "port"), "Server Port (port)");
    assert!(eq_ignore_ascii_case("HoSt", "hOsT"));
    assert!(!eq_ignore_ascii_case("host", "hosts"));
}

#[test]
fn trimming_removes_surrounding_whitespace() {
    assert_eq!(trim_owned("  a b \t\n"), "a b");
    assert_eq!(trim_owned("   "), "");
}

#[test]
fn pointers_escape_tilde_and_slash() {
    assert_eq!(escape_pointer_token("a/b~c"), "a~1b~0c");
    let path = vec!["server".to_string(), "a/b".to_string(), "x~y".to_string()];
    assert_eq!(to_pointer(&path), "/server/a~1b/x~0y");
    assert_eq!(to_pointer(&Vec::new()), "");
    assert_eq!(display_json_pointer(""), "/");
    assert_eq!(display_json_pointer("/a"), "/a");
}

#[test]
fn join_pointer_puts_one_slash_between_parts() {
    assert_eq!(join_pointer("", ""), "");
    assert_eq!(join_pointer("", "child"), "child");
    assert_eq!(join_pointer("/base", ""), "/base");
    assert_eq!(join_pointer("/base", "/child"), "/base/child");
    assert_eq!(join_pointer("/base/", "child"), "/base/child");
    assert_eq!(join_pointer("/base", "child"), "/base/child");
}

fn typed(t: &str) -> JsonValue {
    JsonValue::Object(vec![("type".to_string(), JsonValue::Str(t.to_string()))])
}

#[test]
fn type_keywords_are_lowercased_unicode_aware() {
    assert_eq!(read_type(&typed("STRING")), Some("string".to_string()));
    assert_eq!(read_type(&typed("ÄÖ")), Some("äö".to_string()));
    assert_eq!(detect_kind(&typed("Integer")), Ok(FieldKind::Integer));
    assert!(has_prefix("x-group", "x-"));
    assert!(!has_prefix("x", "x-"));
}

#[test]
fn decimals_and_integers_round_trip() {
    assert_eq!(decimal_string(0), "0");
    assert_eq!(decimal_string(8080), "8080");
    assert_eq!(i64_to_string(-42), "-42");
    assert_eq!(i64_to_string(i64::MIN), "-9223372036854775808");
    assert_eq!(parse_i64("-42"), Some(-42));
    assert_eq!(parse_i64("+7"), Some(7));
    assert_eq!(parse_i64("9223372036854775808"), None);
    assert_eq!(parse_i64("12a"), None);
    assert_eq!(parse_i64(""), None);
}

#[test]
fn float_syntax_is_recognised() {
    assert!(is_float_text("1.5"));
    assert!(is_float_text("-2e10"));
    assert!(is_float_text("3"));
    assert!(!is_float_text("abc"));
    assert!(!is_float_text(""));
}

#[test]
fn budgets_round_up_and_drop_zero_parts() {
    assert_eq!(format_budget(Duration::from_secs(45)), "45s");
    assert_eq!(format_budget(Duration::from_secs(90)), "1m30s");
    assert_eq!(format_budget(Duration::from_secs(120)), "2m");
    assert_eq!(format_budget(Duration::from_secs(3600)), "1h");
    assert_eq!(format_budget(Duration::from_secs(3660)), "1h1m");
    assert_eq!(format_budget(Duration::from_millis(1500)), "2s");
    assert_eq!(format_budget_parts(0, 1), "1s");
}

#[test]
fn clamped_values_end_in_an_ellipsis() {
    assert_eq!(clamp_value("hello", 0), (String::new(), 0));
    assert_eq!(clamp_value("hello", 10), ("hello".to_string(), 5));
    assert_eq!(clamp_value("hello", 3), ("he…".to_string(), 3));
    assert_eq!(clamp_value("hello", 1), ("h".to_string(), 1));
}

#[test]
fn type_labels_name_arrays_by_their_items() {
    assert_eq!(field_type_label(&FieldKind::Integer), "integer");
    assert_eq!(field_type_label(&FieldKind::Array(Box::new(FieldKind::String))), "string[]");
    assert_eq!(field_type_label(&FieldKind::Json), "object");
}
