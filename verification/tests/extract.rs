use compute_embeddings::document::Document;
use compute_embeddings::json::{json_to_string, JsonValue};

fn extract_sample_document() -> Document {
    Document {
        fields: vec![
            ("a".to_string(), JsonValue::Text("x".to_string())),
            ("b".to_string(), JsonValue::Null),
            (
                "c".to_string(),
                JsonValue::List(vec![
                    JsonValue::Text("y".to_string()),
                    JsonValue::Text("z".to_string()),
                ]),
            ),
        ],
    }
}

#[test]
fn extract_joins_fragments_in_field_order() {
    let doc = extract_sample_document();
    let names = vec!["a".to_string(), "b".to_string(), "c".to_string()];
    assert_eq!(doc.text(&names), "x y z ");
}

#[test]
fn extract_empty_field_list_yields_empty_string() {
    let doc = extract_sample_document();
    let names: Vec<String> = Vec::new();
    assert_eq!(doc.text(&names), "");
}

#[test]
fn extract_all_absent_fields_yields_empty_string() {
    let doc = extract_sample_document();
    let names = vec!["missing".to_string(), "also_missing".to_string()];
    assert_eq!(doc.text(&names), "");
}

#[test]
fn extract_skips_null_and_object_fields() {
    let doc = Document {
        fields: vec![
            ("title".to_string(), JsonValue::Text("lamp".to_string())),
            (
                "meta".to_string(),
                JsonValue::Object(vec![(
                    "depth".to_string(),
                    JsonValue::Number("3".to_string()),
                )]),
            ),
            ("price".to_string(), JsonValue::Number("12.5".to_string())),
            ("in_stock".to_string(), JsonValue::Boolean(true)),
        ],
    };
    let names = vec![
        "title".to_string(),
        "meta".to_string(),
        "price".to_string(),
        "in_stock".to_string(),
    ];
    assert_eq!(doc.text(&names), "lamp 12.5 true ");
}

#[test]
fn extract_respects_caller_field_order() {
    let doc = extract_sample_document();
    let names = vec!["c".to_string(), "a".to_string()];
    assert_eq!(doc.text(&names), "y z x ");
}

#[test]
fn stringify_string_is_itself() {
    let v = JsonValue::Text("hello".to_string());
    assert_eq!(json_to_string(&v), Some("hello".to_string()));
}

#[test]
fn stringify_number_and_booleans() {
    assert_eq!(
        json_to_string(&JsonValue::Number("42".to_string())),
        Some("42".to_string())
    );
    assert_eq!(
        json_to_string(&JsonValue::Boolean(true)),
        Some("true".to_string())
    );
    assert_eq!(
        json_to_string(&JsonValue::Boolean(false)),
        Some("false".to_string())
    );
}

#[test]
fn stringify_null_and_object_contribute_nothing() {
    assert_eq!(json_to_string(&JsonValue::Null), None);
    let obj = JsonValue::Object(vec![("k".to_string(), JsonValue::Text("v".to_string()))]);
    assert_eq!(json_to_string(&obj), None);
}

#[test]
fn stringify_array_joins_present_elements_with_single_spaces() {
    let v = JsonValue::List(vec![
        JsonValue::Text("y".to_string()),
        JsonValue::Null,
        JsonValue::Object(Vec::new()),
        JsonValue::Text("z".to_string()),
    ]);
    assert_eq!(json_to_string(&v), Some("y z".to_string()));
}

#[test]
fn stringify_nested_arrays_flatten() {
    let v = JsonValue::List(vec![
        JsonValue::List(vec![JsonValue::Text("y".to_string())]),
        JsonValue::Number("7".to_string()),
    ]);
    assert_eq!(json_to_string(&v), Some("y 7".to_string()));
}

#[test]
fn stringify_array_of_nothing_contributes_nothing() {
    let v = JsonValue::List(vec![JsonValue::Null, JsonValue::Object(Vec::new())]);
    assert_eq!(json_to_string(&v), None);
    let empty = JsonValue::List(Vec::new());
    assert_eq!(json_to_string(&empty), None);
}

#[test]
fn extract_takes_first_pair_when_keys_repeat() {
    let doc = Document {
        fields: vec![
            ("k".to_string(), JsonValue::Text("first".to_string())),
            ("k".to_string(), JsonValue::Text("second".to_string())),
        ],
    };
    let names = vec!["k".to_string()];
    assert_eq!(doc.text(&names), "first ");
}
