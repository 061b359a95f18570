use schematch::json::data::{Array, Object, Property, Value, Type};
use schematch::json::schema::Schema;

fn round_trip(text: &str) {
    let schema = Schema::from_text(text).unwrap();
    let canonical = schema.root.to_text();
    assert_eq!(Schema::from_text(canonical.as_str()), Ok(schema), "{}", canonical);
}

#[test]
fn canonical_text_quotes_identifiers_and_closes_properties_with_commas() {
    assert_eq!(Schema::from_text("{}").unwrap().root.to_text(), "{}");
    assert_eq!(Schema::from_text("{id: string}").unwrap().root.to_text(), "{'id':'string',}");
    assert_eq!(
        Schema::from_text("Array< number | null >").unwrap().root.to_text(),
        "'Array'<'number'|'null'>"
    );
    assert_eq!(
        Schema::from_text("boolean|{a:{b:Array<null>}}").unwrap().root.to_text(),
        "'boolean'|{'a':{'b':'Array'<'null'>,},}"
    );
}

#[test]
fn canonical_text_escapes_single_quotes() {
    assert_eq!(
        Schema::from_text(r#"{"it's": null, 'a"b': null}"#).unwrap().root.to_text(),
        r#"{'it\'s':'null','a"b':'null',}"#
    );
}

#[test]
fn reading_the_canonical_text_gives_the_schema_back() {
    round_trip("{}");
    round_trip("{id: string}");
    round_trip("{name: string, email: string}");
    round_trip("{address: {street: string}}");
    round_trip("string");
    round_trip("null | string | number | boolean");
    round_trip("Array<string>");
    round_trip("Array<{a: number | null} | Array<Array<boolean>>>");
    round_trip("null | {a: string} | Array<number>");
    round_trip(r#"{'': null, 'a b': {"x'y": Array<string>}, "Array": number, é: boolean}"#);
    round_trip("{a: {} | Array<{}>, b: {c: {d: {e: null}}}}");
}

#[test]
fn reading_the_canonical_text_of_a_schema_written_by_hand() {
    let root = Value::Object(Object {
        properties: vec![
            Property::new("k'".to_string(), vec![Type::Null, Type::String]),
            Property::new(
                "list".to_string(),
                vec![Type::Array(Box::new(Array::new(vec![Type::Object(Box::new(
                    Object::new(),
                ))])))],
            ),
        ],
    });
    let text = root.to_text();
    assert_eq!(text, r"{'k\'':'null'|'string','list':'Array'<{}>,}");
    assert_eq!(Schema::from_text(text.as_str()), Ok(Schema { root }));
}
