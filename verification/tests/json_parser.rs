use schematch::json::data::{Array, Location, Object, Property, Token, TokenKind, Type, Value};
use schematch::json::error::{SchemaError, SchemaErrors};
use schematch::json::parser::Parser;
use schematch::json::schema::Schema;

fn parse(text: &str) -> Result<Value, SchemaError> {
    Parser::new(text).unwrap().parse()
}

fn object(properties: Vec<Property>) -> Object {
    let mut object = Object::new();
    object.properties = properties;
    object
}

fn property(name: &str, types: Vec<Type>) -> Property {
    Property::new(name.to_string(), types)
}

fn identifier(text: &str) -> TokenKind {
    TokenKind::Identifier(text.to_string())
}

#[test]
fn empty_object() {
    assert_eq!(parse("{}"), Ok(Value::Object(object(vec![]))));
}

#[test]
fn object_with_one_property() {
    assert_eq!(
        parse("{id: string}"),
        Ok(Value::Object(object(vec![property("id", vec![Type::String])])))
    );
}

#[test]
fn commas_between_properties_are_optional() {
    let expected = Value::Object(object(vec![
        property("name", vec![Type::String]),
        property("email", vec![Type::String]),
    ]));
    assert_eq!(parse("{name: string, email: string}"), Ok(Value::Object(object(vec![
        property("name", vec![Type::String]),
        property("email", vec![Type::String]),
    ]))));
    assert_eq!(parse("{name: string email: string}"), Ok(Value::Object(object(vec![
        property("name", vec![Type::String]),
        property("email", vec![Type::String]),
    ]))));
    assert_eq!(parse("{name: string, email: string,}"), Ok(expected));
}

#[test]
fn every_primitive_type() {
    assert_eq!(
        parse("null | string | number | boolean"),
        Ok(Value::Types(vec![Type::Null, Type::String, Type::Number, Type::Boolean]))
    );
}

#[test]
fn array_root() {
    assert_eq!(
        parse("Array<string|null>"),
        Ok(Value::Array(Array::new(vec![Type::String, Type::Null])))
    );
}

#[test]
fn nested_objects_and_arrays_in_unions() {
    assert_eq!(
        parse("{address: {street: string} | null, tags: Array<string | Array<number>>}"),
        Ok(Value::Object(object(vec![
            property(
                "address",
                vec![
                    Type::Object(Box::new(object(vec![property("street", vec![Type::String])]))),
                    Type::Null,
                ]
            ),
            property(
                "tags",
                vec![Type::Array(Box::new(Array::new(vec![
                    Type::String,
                    Type::Array(Box::new(Array::new(vec![Type::Number]))),
                ])))]
            ),
        ])))
    );
}

#[test]
fn union_may_start_with_a_primitive_and_hold_composites() {
    assert_eq!(
        parse("null | {a: number} | Array<null>"),
        Ok(Value::Types(vec![
            Type::Null,
            Type::Object(Box::new(object(vec![property("a", vec![Type::Number])]))),
            Type::Array(Box::new(Array::new(vec![Type::Null]))),
        ]))
    );
}

#[test]
fn quoted_names_and_keywords() {
    assert_eq!(
        parse("{'first name': 'string', \"Array\": number}"),
        Ok(Value::Object(object(vec![
            property("first name", vec![Type::String]),
            property("Array", vec![Type::Number]),
        ])))
    );
}

#[test]
fn duplicate_property_names_are_kept() {
    assert_eq!(
        parse("{a: string, a: number}"),
        Ok(Value::Object(object(vec![
            property("a", vec![Type::String]),
            property("a", vec![Type::Number]),
        ])))
    );
}

#[test]
fn type_keywords_are_case_sensitive() {
    assert_eq!(
        parse("{a: String}"),
        Err(SchemaError::InvalidType {
            type_: "String".to_string(),
            location: Location { start: 4, end: 10 },
        })
    );
}

#[test]
fn unknown_type_is_invalid() {
    assert_eq!(
        parse("integer"),
        Err(SchemaError::InvalidType {
            type_: "integer".to_string(),
            location: Location { start: 0, end: 7 },
        })
    );
}

#[test]
fn missing_colon() {
    assert_eq!(
        parse("{a string}"),
        Err(SchemaError::UnexpectedToken {
            expected_kind: TokenKind::Colon,
            location: Location { start: 3, end: 9 },
            actual_kind: identifier("string"),
        })
    );
}

#[test]
fn missing_property_name() {
    assert_eq!(
        parse("{: string}"),
        Err(SchemaError::UnexpectedToken {
            expected_kind: identifier(""),
            location: Location { start: 1, end: 2 },
            actual_kind: TokenKind::Colon,
        })
    );
}

#[test]
fn unclosed_object_fails_at_eof() {
    assert_eq!(
        parse("{a: string"),
        Err(SchemaError::UnexpectedToken {
            expected_kind: identifier(""),
            location: Location { start: 10, end: 10 },
            actual_kind: TokenKind::EOF,
        })
    );
}

#[test]
fn missing_type() {
    assert_eq!(
        parse("{a: }"),
        Err(SchemaError::UnexpectedToken {
            expected_kind: identifier(""),
            location: Location { start: 4, end: 5 },
            actual_kind: TokenKind::RightBrace,
        })
    );
    assert_eq!(
        parse("string |"),
        Err(SchemaError::UnexpectedToken {
            expected_kind: identifier(""),
            location: Location { start: 8, end: 8 },
            actual_kind: TokenKind::EOF,
        })
    );
    assert_eq!(
        parse(""),
        Err(SchemaError::UnexpectedToken {
            expected_kind: identifier(""),
            location: Location { start: 0, end: 0 },
            actual_kind: TokenKind::EOF,
        })
    );
}

#[test]
fn array_needs_its_brackets() {
    assert_eq!(
        parse("Array string"),
        Err(SchemaError::UnexpectedToken {
            expected_kind: TokenKind::LessThan,
            location: Location { start: 6, end: 12 },
            actual_kind: identifier("string"),
        })
    );
    assert_eq!(
        parse("Array<string"),
        Err(SchemaError::UnexpectedToken {
            expected_kind: TokenKind::GreaterThan,
            location: Location { start: 12, end: 12 },
            actual_kind: TokenKind::EOF,
        })
    );
}

#[test]
fn nothing_may_follow_the_root() {
    assert_eq!(
        parse("{} string"),
        Err(SchemaError::UnexpectedToken {
            expected_kind: TokenKind::EOF,
            location: Location { start: 3, end: 9 },
            actual_kind: identifier("string"),
        })
    );
    assert_eq!(
        parse("{a: string} | null"),
        Err(SchemaError::UnexpectedToken {
            expected_kind: TokenKind::EOF,
            location: Location { start: 12, end: 13 },
            actual_kind: TokenKind::VerticalBar,
        })
    );
}

#[test]
fn parser_stops_at_the_first_fault() {
    assert_eq!(
        parse("{a: foo, b: bar}"),
        Err(SchemaError::InvalidType {
            type_: "foo".to_string(),
            location: Location { start: 4, end: 7 },
        })
    );
}

#[test]
fn parsing_again_after_success_fails_without_panic() {
    let mut parser = Parser::new("{}").unwrap();
    assert_eq!(parser.parse(), Ok(Value::Object(object(vec![]))));
    assert_eq!(
        parser.parse(),
        Err(SchemaError::UnexpectedToken {
            expected_kind: identifier(""),
            location: Location { start: 2, end: 2 },
            actual_kind: TokenKind::EOF,
        })
    );
}

#[test]
fn parsing_again_after_a_fault_gives_the_same_fault() {
    let mut parser = Parser::new("{a: foo}").unwrap();
    let first = parser.parse();
    assert!(first.is_err());
    assert_eq!(parser.parse(), first);
}

#[test]
fn parser_new_reports_the_lexer_fault() {
    match Parser::new("{a: $}") {
        Ok(_) => panic!("a lexical fault was expected"),
        Err(errors) => assert_eq!(
            errors,
            SchemaErrors(vec![SchemaError::UnexpectedCharacter {
                text: "$".to_string(),
                location: Location { start: 4, end: 5 },
            }])
        ),
    }
}

#[test]
fn schema_from_text_wraps_the_root() {
    assert_eq!(
        Schema::from_text("{id: string}"),
        Ok(Schema { root: Value::Object(object(vec![property("id", vec![Type::String])])) })
    );
    assert_eq!(
        Schema::from_text("{id: text}"),
        Err(SchemaErrors(vec![SchemaError::InvalidType {
            type_: "text".to_string(),
            location: Location { start: 5, end: 9 },
        }]))
    );
    assert_eq!(
        Schema::from_text("'id"),
        Err(SchemaErrors(vec![SchemaError::UnterminatedString {
            location: Location { start: 0, end: 3 },
        }]))
    );
}

#[test]
fn shown_names_of_types() {
    assert_eq!(Type::Null.to_string(), "null");
    assert_eq!(Type::String.to_string(), "string");
    assert_eq!(Type::Number.to_string(), "number");
    assert_eq!(Type::Boolean.to_string(), "boolean");
    assert_eq!(Type::Object(Box::new(Object::new())).to_string(), "object");
    assert_eq!(Type::Array(Box::new(Array::new(vec![]))).to_string(), "array");
}

#[test]
fn schema_errors_from_one_error() {
    let error = SchemaError::UnterminatedString { location: Location { start: 1, end: 2 } };
    assert_eq!(
        SchemaErrors::from(error),
        SchemaErrors(vec![SchemaError::UnterminatedString {
            location: Location { start: 1, end: 2 }
        }])
    );
}

#[test]
fn parser_from_tokens_asks_for_one_closing_eof() {
    let at = |kind: TokenKind, start: usize| Token { kind, location: Location { start, end: start + 1 } };
    assert!(Parser::from_tokens(vec![]).is_none());
    assert!(Parser::from_tokens(vec![at(TokenKind::LeftBrace, 0)]).is_none());
    assert!(Parser::from_tokens(vec![at(TokenKind::EOF, 0), at(TokenKind::EOF, 1)]).is_none());
    assert!(Parser::from_tokens(vec![at(TokenKind::EOF, 0), at(TokenKind::Colon, 1)]).is_none());
    let mut parser = Parser::from_tokens(vec![
        at(TokenKind::LeftBrace, 0),
        at(identifier("a"), 1),
        at(TokenKind::Colon, 2),
        at(identifier("null"), 3),
        at(TokenKind::RightBrace, 4),
        at(TokenKind::EOF, 5),
    ])
    .unwrap();
    assert_eq!(
        parser.parse(),
        Ok(Value::Object(object(vec![property("a", vec![Type::Null])])))
    );
    let mut parser =
        Parser::from_tokens(vec![at(identifier("Array"), 0), at(TokenKind::EOF, 5)]).unwrap();
    assert_eq!(
        parser.parse(),
        Err(SchemaError::UnexpectedToken {
            expected_kind: TokenKind::LessThan,
            location: Location { start: 5, end: 6 },
            actual_kind: TokenKind::EOF,
        })
    );
}
