use schemaui::infer::{infer_schema, schema_from_data_value};
use schemaui::json::{json_equal, JsonNumber, JsonValue};

fn s(text: &str) -> JsonValue {
    JsonValue::Str(text.to_string())
}

fn num(n: u64) -> JsonValue {
    JsonValue::Number(JsonNumber::PosInt(n))
}

fn obj(entries: Vec<(&str, JsonValue)>) -> JsonValue {
    JsonValue::Object(entries.into_iter().map(|(k, v)| (k.to_string(), v)).collect())
}

fn at<'a>(v: &'a JsonValue, path: &[&str]) -> &'a JsonValue {
    let mut cur = v;
    for key in path {
        cur = cur.get(key).unwrap_or_else(|| panic!("missing key {key}"));
    }
    cur
}

#[test]
fn builds_schema_for_object_defaults() {
    let value = obj(vec![("host", s("localhost")), ("port", num(8080))]);
    let schema = schema_from_data_value(&value);
    assert_eq!(at(&schema, &["properties", "host", "default"]), &s("localhost"));
    assert_eq!(at(&schema, &["properties", "port", "type"]), &s("integer"));
    assert_eq!(at(&schema, &["default"]), &value);
}

#[test]
fn builds_schema_for_array_defaults() {
    let value = JsonValue::Array(vec![s("a"), s("b")]);
    let schema = schema_from_data_value(&value);
    assert_eq!(at(&schema, &["type"]), &s("array"));
    assert_eq!(at(&schema, &["default"]), &value);
    assert_eq!(at(&schema, &["items", "type"]), &s("string"));
}

#[test]
fn inferred_object_schema_declares_the_draft_and_requires_every_key() {
    let value = obj(vec![("enabled", JsonValue::Bool(true))]);
    let schema = schema_from_data_value(&value);
    assert_eq!(at(&schema, &["$schema"]), &s("http://json-schema.org/draft-07/schema#"));
    assert_eq!(at(&schema, &["additionalProperties"]), &JsonValue::Bool(true));
    assert_eq!(at(&schema, &["required"]), &JsonValue::Array(vec![s("enabled")]));
    assert_eq!(at(&schema, &["properties", "enabled", "type"]), &s("boolean"));
}

#[test]
fn empty_object_has_no_properties_or_required_list() {
    let schema = infer_schema(&obj(vec![]));
    assert_eq!(at(&schema, &["type"]), &s("object"));
    assert!(schema.get("properties").is_none());
    assert!(schema.get("required").is_none());
}

#[test]
fn fractional_numbers_are_numbers_and_whole_ones_integers() {
    let float = JsonValue::Number(JsonNumber::Float("1.5".to_string()));
    assert_eq!(at(&infer_schema(&float), &["type"]), &s("number"));
    let negative = JsonValue::Number(JsonNumber::NegInt(-3));
    assert_eq!(at(&infer_schema(&negative), &["type"]), &s("integer"));
    assert_eq!(at(&infer_schema(&JsonValue::Null), &["type"]), &s("null"));
}

#[test]
fn mixed_arrays_describe_their_items_with_any_of() {
    let value = JsonValue::Array(vec![s("a"), num(1), s("a")]);
    let schema = infer_schema(&value);
    let variants = at(&schema, &["items", "anyOf"]);
    match variants {
        JsonValue::Array(items) => {
            assert_eq!(items.len(), 2);
            assert_eq!(at(&items[0], &["type"]), &s("string"));
            assert_eq!(at(&items[1], &["type"]), &s("integer"));
        }
        other => panic!("expected an array of variants, got {other:?}"),
    }
}

#[test]
fn empty_arrays_have_no_items_schema() {
    let schema = infer_schema(&JsonValue::Array(vec![]));
    assert!(schema.get("items").is_none());
}

#[test]
fn json_equality_ignores_member_order() {
    let a = obj(vec![("x", num(1)), ("y", num(2))]);
    let b = obj(vec![("y", num(2)), ("x", num(1))]);
    assert!(json_equal(&a, &b));
    assert!(!json_equal(&a, &obj(vec![("x", num(1))])));
}
