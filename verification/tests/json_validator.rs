use schematch::json::data::{Array, Object, Property, Value, Type};
use schematch::json::document::{find, Content, Document, Member};
use schematch::json::error::{ValidationError, ValidationErrors};
use schematch::json::schema::Schema;
use schematch::json::validator::Validator;

fn check(schema: &str, document: &str) -> Result<bool, ValidationErrors> {
    let schema = Schema::from_text(schema).unwrap();
    Validator::validate(&schema.root, document)
}

fn mismatch(types: &str, value: &str) -> ValidationError {
    ValidationError::DataTypeMismatch { types: types.to_string(), value: value.to_string() }
}

fn not_found(name: &str) -> ValidationError {
    ValidationError::PropertyNotFound { name: name.to_string() }
}

#[test]
fn empty_schema_accepts_empty_object() {
    assert_eq!(check("{}", "{}"), Ok(true));
}

#[test]
fn string_property_accepts_string_and_rejects_number() {
    assert_eq!(check("{id: string}", r#"{"id": "x"}"#), Ok(true));
    assert_eq!(
        check("{id: string}", r#"{"id": 0}"#),
        Err(ValidationErrors(vec![mismatch("string", "0")]))
    );
}

#[test]
fn every_missing_property_is_reported_in_schema_order() {
    assert_eq!(
        check("{name: string, email: string}", r#"{"nome": "John", "emaik": "x"}"#),
        Err(ValidationErrors(vec![not_found("name"), not_found("email")]))
    );
}

#[test]
fn failure_inside_nested_object_surfaces() {
    assert_eq!(
        check("{address: {street: string}}", r#"{"address": {"street": {}}}"#),
        Err(ValidationErrors(vec![mismatch("string", "{}")]))
    );
}

#[test]
fn missing_property_is_reported_whatever_the_order() {
    let document = r#"{"a": "x", "c": true}"#;
    assert_eq!(
        check("{a: string, b: number, c: boolean}", document),
        Err(ValidationErrors(vec![not_found("b")]))
    );
    assert_eq!(
        check("{b: number, c: boolean, a: string}", document),
        Err(ValidationErrors(vec![not_found("b")]))
    );
    assert_eq!(
        check("{c: boolean, a: string, b: number}", document),
        Err(ValidationErrors(vec![not_found("b")]))
    );
}

#[test]
fn missing_nested_property_is_reported() {
    assert_eq!(
        check("{address: {street: string, city: string}}", r#"{"address": {"street": "x"}}"#),
        Err(ValidationErrors(vec![not_found("city")]))
    );
}

#[test]
fn one_matching_alternative_is_enough() {
    assert_eq!(check("{a: string | number | null}", r#"{"a": 1}"#), Ok(true));
    assert_eq!(check("{a: string | number | null}", r#"{"a": null}"#), Ok(true));
    assert_eq!(check("{a: string | number | null}", r#"{"a": "s"}"#), Ok(true));
    assert_eq!(check("{a: {x: string} | {y: number}}", r#"{"a": {"y": 1}}"#), Ok(true));
}

#[test]
fn union_mismatch_names_all_alternatives() {
    assert_eq!(
        check("{a: string | number | null}", r#"{"a": true}"#),
        Err(ValidationErrors(vec![mismatch("string or number or null", "true")]))
    );
    assert_eq!(
        check("{a: {x: string} | Array<number>}", r#"{"a": "s"}"#),
        Err(ValidationErrors(vec![mismatch("object or array", "\"s\"")]))
    );
}

#[test]
fn first_alternative_of_the_right_shape_gives_the_failures() {
    assert_eq!(
        check("{a: null | {x: string} | {y: number}}", r#"{"a": {"z": 1}}"#),
        Err(ValidationErrors(vec![not_found("x")]))
    );
    assert_eq!(
        check("{a: Array<number> | Array<string>}", r#"{"a": [true]}"#),
        Err(ValidationErrors(vec![mismatch("number", "true")]))
    );
}

#[test]
fn extra_keys_are_ignored() {
    assert_eq!(check("{a: string}", r#"{"a": "x", "b": 1, "c": [1, 2]}"#), Ok(true));
}

#[test]
fn every_failing_element_of_an_array_is_reported() {
    assert_eq!(check("Array<number>", "[1, 2.5, -3e2]"), Ok(true));
    assert_eq!(check("Array<number>", "[]"), Ok(true));
    assert_eq!(
        check("Array<number | null>", r#"[1, "a", null, true, {"k": [1]}]"#),
        Err(ValidationErrors(vec![
            mismatch("number or null", "\"a\""),
            mismatch("number or null", "true"),
            mismatch("number or null", "{\"k\":[1]}"),
        ]))
    );
}

#[test]
fn failures_of_properties_and_elements_accumulate() {
    assert_eq!(
        check(
            "{id: number, tags: Array<string>, owner: {name: string, age: number}}",
            r#"{"id": "7", "tags": ["a", 1, 2], "owner": {"age": "old"}}"#
        ),
        Err(ValidationErrors(vec![
            mismatch("number", "\"7\""),
            mismatch("string", "1"),
            mismatch("string", "2"),
            not_found("name"),
            mismatch("number", "\"old\""),
        ]))
    );
}

#[test]
fn object_root_needs_an_object() {
    assert_eq!(check("{}", "[]"), Err(ValidationErrors(vec![mismatch("object", "[]")])));
    assert_eq!(
        check("{a: string}", "\"a\""),
        Err(ValidationErrors(vec![mismatch("object", "\"a\"")]))
    );
}

#[test]
fn array_root_needs_an_array() {
    assert_eq!(
        check("Array<string>", r#"{"a":1}"#),
        Err(ValidationErrors(vec![mismatch("array", "{\"a\":1}")]))
    );
}

#[test]
fn union_root() {
    assert_eq!(check("string | null", "null"), Ok(true));
    assert_eq!(check("string | null", "\"x\""), Ok(true));
    assert_eq!(check("boolean", "false"), Ok(true));
    assert_eq!(
        check("string | null", "1.5"),
        Err(ValidationErrors(vec![mismatch("string or null", "1.5")]))
    );
}

#[test]
fn text_that_is_no_json_fails_to_parse() {
    let message = serde_json::from_str::<serde_json::Value>("{").unwrap_err().to_string();
    assert!(!message.is_empty());
    assert_eq!(
        check("string", "{"),
        Err(ValidationErrors(vec![ValidationError::ParseFaild(message)]))
    );
    assert_eq!(
        check("{a: string}", ""),
        Err(ValidationErrors(vec![ValidationError::ParseFaild(
            "EOF while parsing a value at line 1 column 0".to_string()
        )]))
    );
    assert!(matches!(
        check("{}", "{} {}"),
        Err(ValidationErrors(errors)) if errors.len() == 1
            && matches!(errors[0], ValidationError::ParseFaild(_))
    ));
}

#[test]
fn later_duplicate_key_of_a_document_wins() {
    assert_eq!(check("{a: string}", r#"{"a": 1, "a": "x"}"#), Ok(true));
}

#[test]
fn duplicate_property_is_checked_each_time() {
    assert_eq!(
        check("{a: string, a: number}", r#"{"a": "x"}"#),
        Err(ValidationErrors(vec![mismatch("number", "\"x\"")]))
    );
}

#[test]
fn schema_validate_drops_the_flag() {
    let schema = Schema::from_text("{id: string}").unwrap();
    assert_eq!(schema.validate(r#"{"id": "x"}"#), Ok(()));
    assert_eq!(
        schema.validate(r#"{"id": null}"#),
        Err(ValidationErrors(vec![mismatch("string", "null")]))
    );
}

fn string_document(text: &str) -> Document {
    Document::new(text, Content::String)
}

#[test]
fn value_works_on_documents_written_by_hand() {
    let schema = Value::Object(Object {
        properties: vec![
            Property::new("id".to_string(), vec![Type::Number]),
            Property::new(
                "tags".to_string(),
                vec![Type::Array(Box::new(Array::new(vec![Type::String]))), Type::Null],
            ),
        ],
    });
    let good = Document::new(
        "{}",
        Content::Object(vec![
            Member::new("tags", Document::new("[]", Content::Array(vec![string_document("\"a\"")]))),
            Member::new("id", Document::new("1", Content::Number)),
        ]),
    );
    assert_eq!(Validator::value(&schema, &good), Ok(true));

    let bad = Document::new(
        "whole",
        Content::Object(vec![
            Member::new("id", Document::new("yes", Content::Bool)),
            Member::new(
                "tags",
                Document::new(
                    "list",
                    Content::Array(vec![
                        Document::new("nothing", Content::Null),
                        string_document("s"),
                        Document::new("7", Content::Number),
                    ]),
                ),
            ),
        ]),
    );
    assert_eq!(
        Validator::value(&schema, &bad),
        Err(ValidationErrors(vec![
            mismatch("number", "yes"),
            mismatch("string", "nothing"),
            mismatch("string", "7"),
        ]))
    );
    assert_eq!(
        Validator::value(&schema, &string_document("s")),
        Err(ValidationErrors(vec![mismatch("object", "s")]))
    );
}

#[test]
fn empty_union_matches_nothing() {
    assert_eq!(
        Validator::value(&Value::Types(vec![]), &Document::new("null", Content::Null)),
        Err(ValidationErrors(vec![mismatch("", "null")]))
    );
}

#[test]
fn find_gives_the_first_entry_with_the_key() {
    let members = vec![
        Member::new("a", Document::new("1", Content::Number)),
        Member::new("b", Document::new("2", Content::Number)),
        Member::new("a", Document::new("3", Content::Number)),
    ];
    assert_eq!(find(&members, "a"), Some(&Document::new("1", Content::Number)));
    assert_eq!(find(&members, "b"), Some(&Document::new("2", Content::Number)));
    assert_eq!(find(&members, "c"), None);
}

#[test]
fn validation_errors_grow_in_order() {
    let mut errors = ValidationErrors::new();
    assert!(errors.is_empty());
    errors.push(not_found("a"));
    errors.extend(ValidationErrors(vec![not_found("b"), mismatch("string", "1")]));
    errors.extend(ValidationErrors::new());
    errors.extend(ValidationErrors::from(not_found("c")));
    assert!(!errors.is_empty());
    assert_eq!(
        errors,
        ValidationErrors(vec![
            not_found("a"),
            not_found("b"),
            mismatch("string", "1"),
            not_found("c")
        ])
    );
}

#[test]
fn decode_failure_becomes_parse_faild() {
    let error = serde_json::from_str::<serde_json::Value>("[1,").unwrap_err();
    let message = error.to_string();
    assert_eq!(ValidationError::from(error), ValidationError::ParseFaild(message));
}

#[test]
fn document_of_keeps_shape_text_and_order() {
    let value: serde_json::Value =
        serde_json::from_str(r#" {"b": [1, "x", null], "a": {"k": true}, "c": -2.50} "#).unwrap();
    let document = schematch::json::document::document_of(&value);
    let expected = Document::new(
        r#"{"a":{"k":true},"b":[1,"x",null],"c":-2.5}"#,
        Content::Object(vec![
            Member::new(
                "a",
                Document::new(
                    r#"{"k":true}"#,
                    Content::Object(vec![Member::new("k", Document::new("true", Content::Bool))]),
                ),
            ),
            Member::new(
                "b",
                Document::new(
                    r#"[1,"x",null]"#,
                    Content::Array(vec![
                        Document::new("1", Content::Number),
                        Document::new("\"x\"", Content::String),
                        Document::new("null", Content::Null),
                    ]),
                ),
            ),
            Member::new("c", Document::new("-2.5", Content::Number)),
        ]),
    );
    assert_eq!(document, expected);
}

#[test]
fn document_of_primitives() {
    for (text, content) in [
        ("null", Content::Null),
        ("false", Content::Bool),
        ("12", Content::Number),
        ("\"s\"", Content::String),
        ("[]", Content::Array(vec![])),
        ("{}", Content::Object(vec![])),
    ] {
        let value: serde_json::Value = serde_json::from_str(text).unwrap();
        assert_eq!(
            schematch::json::document::document_of(&value),
            Document::new(text, content)
        );
    }
}
