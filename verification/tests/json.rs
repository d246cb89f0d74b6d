use viewwitness::text::LineText;
use viewwitness::json::{json_equal, json_string, JsonEntry, JsonNumber, JsonValue};
use viewwitness::order::{stable_sort, stable_sort_numbers};
use viewwitness::semantic::map_set;
use viewwitness::text::{blank, push_decimal, push_json_str, sorted_unique};

fn float(v: f64) -> JsonValue {
    JsonValue::Number(JsonNumber::Float { bits: v.to_bits(), text: LineText::new(serde_json::to_string(&v).unwrap()).unwrap() })
}

fn chars(s: &str) -> Vec<char> {
    s.chars().collect()
}

#[test]
fn json_text_is_compact_and_escaped() {
    let v = JsonValue::Object(vec![
        JsonEntry { key: "a".to_string(), value: JsonValue::Array(vec![JsonValue::Null, JsonValue::Bool(false)]) },
        JsonEntry { key: "b\"".to_string(), value: JsonValue::String("line\nbreak\u{1}".to_string()) },
        JsonEntry { key: "c".to_string(), value: JsonValue::Number(JsonNumber::NegInt(-12)) },
        JsonEntry { key: "d".to_string(), value: float(0.5) },
    ]);
    assert_eq!(json_string(&v), "{\"a\":[null,false],\"b\\\"\":\"line\\nbreak\\u0001\",\"c\":-12,\"d\":0.5}");
}

#[test]
fn json_equality_follows_value_semantics() {
    assert!(json_equal(&float(0.0), &float(-0.0)));
    assert!(!json_equal(&float(f64::NAN), &float(f64::NAN)));
    assert!(!json_equal(&float(1.0), &JsonValue::Number(JsonNumber::PosInt(1))));
    assert!(json_equal(&JsonValue::String("x".to_string()), &JsonValue::String("x".to_string())));
    assert!(!json_equal(&JsonValue::Array(vec![]), &JsonValue::Array(vec![JsonValue::Null])));
}

#[test]
fn map_set_keeps_keys_ordered_and_replaces() {
    let mut members = Vec::new();
    map_set(&mut members, "z".to_string(), JsonValue::Bool(true));
    map_set(&mut members, "a".to_string(), JsonValue::Null);
    map_set(&mut members, "m".to_string(), JsonValue::Null);
    map_set(&mut members, "z".to_string(), JsonValue::Bool(false));
    assert_eq!(json_string(&JsonValue::Object(members)), "{\"a\":null,\"m\":null,\"z\":false}");
}

#[test]
fn decimal_and_quoted_text() {
    let mut out = String::new();
    push_decimal(&mut out, 0);
    out.push(' ');
    push_decimal(&mut out, 18446744073709551615);
    out.push(' ');
    push_json_str(&mut out, "tab\there");
    assert_eq!(out, "0 18446744073709551615 \"tab\\there\"");
}

#[test]
fn blank_means_whitespace_only() {
    assert!(blank(""));
    assert!(blank(" \t\n"));
    assert!(!blank(" x "));
}

#[test]
fn sorted_unique_lists_each_key_once_in_order() {
    let keys = vec![chars("b"), chars("a"), chars("b"), chars("ab")];
    let r = sorted_unique(&keys);
    assert_eq!(r, vec![chars("a"), chars("ab"), chars("b")]);
}

#[test]
fn stable_sort_orders_tuples_and_keeps_ties_in_place() {
    let keys = vec![
        vec![chars("b"), chars("2")],
        vec![chars("a"), chars("9")],
        vec![chars("b"), chars("1")],
        vec![chars("a"), chars("9")],
    ];
    assert_eq!(stable_sort(&keys), vec![1, 3, 2, 0]);
    assert_eq!(stable_sort_numbers(&vec![3, 1, 2, 1]), vec![1, 3, 2, 0]);
}

#[test]
fn line_texts_refuse_line_breaks() {
    assert_eq!(LineText::new("1.5".to_string()).map(|t| t.as_str().to_string()), Some("1.5".to_string()));
    assert!(LineText::new("1\n5".to_string()).is_none());
    assert!(LineText::new("\n".to_string()).is_none());
    assert_eq!(LineText::new(String::new()).map(|t| t.as_str().len()), Some(0));
}
