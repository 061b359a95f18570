use schematch::tsv::error::{
    SchemaError, SchemaErrors, ValidateLineError, ValidateLineErrors, ValidationError,
    ValidationErrors,
};
use schematch::tsv::literal::{parses_as_float, parses_as_integer};
use schematch::tsv::schema::Schema;
use schematch::tsv::term::{Term, Type};

const SIX_TERMS: &str = "id:integer name:string is_active:boolean price:float deleted_field:null optional_field:string|null";

#[test]
fn line_of_six_fields_passes() {
    let schema = Schema::from_text(SIX_TERMS).unwrap();
    assert_eq!(schema.terms.len(), 6);
    assert_eq!(schema.validate_line("1 john_doe true 100.0 _ _".to_owned()), Ok(()));
}

#[test]
fn extra_field_is_a_count_mismatch() {
    let schema = Schema::from_text(SIX_TERMS).unwrap();
    assert_eq!(
        schema.validate_line("1 john_doe true 100.0 _ _ extra".to_owned()),
        Err(ValidateLineErrors(vec![ValidateLineError::FieldNumberMismatch {
            expected: 6,
            found: 7
        }]))
    );
}

#[test]
fn count_mismatch_stops_the_check_of_values() {
    let schema = Schema::from_text("id:integer name:integer").unwrap();
    assert_eq!(
        schema.validate_line("x y z".to_owned()),
        Err(ValidateLineErrors(vec![ValidateLineError::FieldNumberMismatch {
            expected: 2,
            found: 3
        }]))
    );
    assert_eq!(
        schema.validate_line("".to_owned()),
        Err(ValidateLineErrors(vec![ValidateLineError::FieldNumberMismatch {
            expected: 2,
            found: 0
        }]))
    );
}

#[test]
fn type_keywords_ignore_case() {
    assert_eq!(Term::from_text("price:FLOAT"), Term::from_text("price:float"));
    assert_eq!(Term::from_text("price:FLOAT"), Ok(Term::new("price", vec![Type::Float])));
    assert_eq!(
        Term::from_text("x:Integer|STRING|nUlL|Boolean"),
        Ok(Term::new("x", vec![Type::Integer, Type::String, Type::Null, Type::Boolean]))
    );
}

#[test]
fn field_names_keep_their_case() {
    assert_eq!(Term::from_text("Price:float"), Ok(Term::new("Price", vec![Type::Float])));
    assert_ne!(Term::from_text("Price:float"), Term::from_text("price:float"));
}

#[test]
fn term_needs_exactly_one_colon() {
    assert_eq!(
        Term::from_text("a:b:c"),
        Err(SchemaError::InvalidSyntax { text: "a:b:c".to_string() })
    );
    assert_eq!(Term::from_text(""), Err(SchemaError::InvalidSyntax { text: "".to_string() }));
    assert_eq!(Term::from_text(":string"), Ok(Term::new("", vec![Type::String])));
}

#[test]
fn first_unknown_type_is_the_fault_of_a_term() {
    assert_eq!(
        Term::from_text("a:string|Foo|bar"),
        Err(SchemaError::InvalidType { type_: "foo".to_string() })
    );
    assert_eq!(Term::from_text("a:"), Err(SchemaError::InvalidType { type_: "".to_string() }));
    assert_eq!(
        Term::from_text("a:string|"),
        Err(SchemaError::InvalidType { type_: "".to_string() })
    );
}

#[test]
fn schema_reading_stops_at_the_first_faulty_term() {
    assert_eq!(
        Schema::from_text("a:x b:y"),
        Err(SchemaErrors(vec![SchemaError::InvalidType { type_: "x".to_string() }]))
    );
    assert_eq!(
        Schema::from_text("id a:text b:string c:d:e f:num|string"),
        Err(SchemaErrors(vec![SchemaError::InvalidSyntax { text: "id".to_string() }]))
    );
    assert_eq!(
        Schema::from_text("a:string b:text c d:num"),
        Err(SchemaErrors(vec![SchemaError::InvalidType { type_: "text".to_string() }]))
    );
    assert_eq!(
        Schema::from_text("a:string b:float c:d:e"),
        Err(SchemaErrors(vec![SchemaError::InvalidSyntax { text: "c:d:e".to_string() }]))
    );
}

#[test]
fn types_are_read_from_lowered_text() {
    assert_eq!(Term::read_types("integer"), Ok(vec![Type::Integer]));
    assert_eq!(
        Term::read_types("string|null|float|boolean"),
        Ok(vec![Type::String, Type::Null, Type::Float, Type::Boolean])
    );
    assert_eq!(
        Term::read_types("string|text|more"),
        Err(SchemaError::InvalidType { type_: "text".to_string() })
    );
    assert_eq!(Term::read_types("STRING"), Err(SchemaError::InvalidType { type_: "STRING".to_string() }));
    assert_eq!(Term::read_types(""), Err(SchemaError::InvalidType { type_: "".to_string() }));
    assert!(Type::is_boolean_word("true"));
    assert!(Type::is_boolean_word("false"));
    assert!(!Type::is_boolean_word("True"));
    assert!(!Type::is_boolean_word(""));
}

#[test]
fn empty_schema_text_has_no_terms() {
    assert_eq!(Schema::from_text(""), Ok(Schema::new()));
    assert_eq!(Schema::from_text(" \n\t "), Ok(Schema { terms: vec![] }));
    assert_eq!(Schema::new().validate_line("  ".to_owned()), Ok(()));
}

#[test]
fn add_term_appends() {
    let mut schema = Schema::new();
    schema.add_term(Term::new("a", vec![Type::Null]));
    schema.add_term(Term::new("b", vec![Type::Float]));
    assert_eq!(
        schema,
        Schema {
            terms: vec![Term::new("a", vec![Type::Null]), Term::new("b", vec![Type::Float])]
        }
    );
}

#[test]
fn term_mismatch_names_all_types() {
    let term = Term::from_text("x:integer|float|boolean|null").unwrap();
    assert_eq!(term.validate("7"), Ok(()));
    assert_eq!(term.validate("7.5"), Ok(()));
    assert_eq!(term.validate("FALSE"), Ok(()));
    assert_eq!(term.validate("_"), Ok(()));
    assert_eq!(
        term.validate("seven"),
        Err(ValidateLineError::DataTypeMismatch {
            type_: "integer | float | boolean | null".to_string(),
            value: "seven".to_string()
        })
    );
}

#[test]
fn term_without_types_accepts_nothing() {
    let term = Term::new("x", vec![]);
    assert_eq!(
        term.validate("a"),
        Err(ValidateLineError::DataTypeMismatch { type_: "".to_string(), value: "a".to_string() })
    );
}

#[test]
fn boolean_ignores_case() {
    assert!(Type::Boolean.accepts("true"));
    assert!(Type::Boolean.accepts("True"));
    assert!(Type::Boolean.accepts("FALSE"));
    assert!(!Type::Boolean.accepts("yes"));
    assert!(!Type::Boolean.accepts("1"));
    assert!(!Type::Boolean.accepts(""));
}

#[test]
fn null_is_the_placeholder() {
    assert!(Type::Null.accepts("_"));
    assert!(!Type::Null.accepts("__"));
    assert!(!Type::Null.accepts("null"));
    assert!(!Type::Null.accepts(""));
}

#[test]
fn keywords_of_types() {
    assert_eq!(Type::Integer.to_string(), "integer");
    assert_eq!(Type::Float.to_string(), "float");
    assert_eq!(Type::String.to_string(), "string");
    assert_eq!(Type::Boolean.to_string(), "boolean");
    assert_eq!(Type::Null.to_string(), "null");
}

const LITERALS: [&str; 60] = [
    "", "0", "1", "-1", "+1", "+", "-", "00012", "-0", "+0", "12a", "a12", "1 ", " 1", "1_000",
    "9223372036854775807", "9223372036854775808", "-9223372036854775808", "-9223372036854775809",
    "+9223372036854775807", "000000000000000000009223372036854775807",
    "99999999999999999999999999", "18446744073709551616", "1.0", ".5", "5.", ".", "-.5", "+5.",
    "1e5", "1E5", "1e+5", "1e-5", "1e", "e5", "1e5.0", "1.5e10", ".e5", "1.e5", "1e+", "--1",
    "+-1", "inf", "-inf", "+INF", "Infinity", "infinit", "infinityy", "nan", "NaN", "-nan",
    "n", "0x10", "1f", "１", "٣", "1,5", "1..5", "123.0.0", "İnf",
];

#[test]
fn integer_literals_are_those_that_std_parses() {
    for text in LITERALS {
        assert_eq!(parses_as_integer(text), text.parse::<i64>().is_ok(), "{:?}", text);
    }
    assert!(parses_as_integer("-9223372036854775808"));
    assert!(!parses_as_integer("9223372036854775808"));
}

#[test]
fn float_literals_are_those_that_std_parses() {
    for text in LITERALS {
        assert_eq!(parses_as_float(text), text.parse::<f64>().is_ok(), "{:?}", text);
    }
    assert!(parses_as_float("123"));
    assert!(parses_as_float("+.5e-3"));
    assert!(!parses_as_float("."));
}

#[test]
fn fields_are_split_at_any_white_space() {
    let schema = Schema::from_text("a:string\tb:string\u{3000}c:string\r\nd:string").unwrap();
    assert_eq!(schema.terms.len(), 4);
    assert_eq!(schema.validate_line("\t1 \u{a0}2\u{2003}3\n4  ".to_owned()), Ok(()));
}

#[test]
fn failing_lines_are_gathered_with_their_numbers() {
    let schema = Schema::from_text("id:integer name:string").unwrap();
    let lines = vec![
        "1 a".to_string(),
        "x b".to_string(),
        "3 c".to_string(),
        "4".to_string(),
        "".to_string(),
    ];
    assert_eq!(
        schema.validate(&lines),
        Err(ValidationErrors(vec![
            ValidationError {
                line_text: "x b".to_string(),
                line_number: 2,
                errors: ValidateLineErrors(vec![ValidateLineError::DataTypeMismatch {
                    type_: "integer".to_string(),
                    value: "x".to_string()
                }]),
            },
            ValidationError {
                line_text: "4".to_string(),
                line_number: 4,
                errors: ValidateLineErrors(vec![ValidateLineError::FieldNumberMismatch {
                    expected: 2,
                    found: 1
                }]),
            },
            ValidationError {
                line_text: "".to_string(),
                line_number: 5,
                errors: ValidateLineErrors(vec![ValidateLineError::FieldNumberMismatch {
                    expected: 2,
                    found: 0
                }]),
            },
        ]))
    );
    assert_eq!(schema.validate(&vec!["1 a".to_string(), "2 b".to_string()]), Ok(()));
    assert_eq!(schema.validate(&vec![]), Ok(()));
}

#[test]
fn schema_from_words_and_values_against_terms() {
    let words = vec!["id:integer".to_string(), "name:string|null".to_string()];
    let schema = Schema::from_words(&words).unwrap();
    assert_eq!(schema, Schema::from_text("id:integer name:string|null").unwrap());
    assert_eq!(schema.validate_values(&vec!["1".to_string(), "_".to_string()]), Ok(()));
    assert_eq!(
        schema.validate_values(&vec!["a b".to_string(), "".to_string()]),
        Err(ValidateLineErrors(vec![ValidateLineError::DataTypeMismatch {
            type_: "integer".to_string(),
            value: "a b".to_string()
        }]))
    );
    assert_eq!(
        schema.validate_values(&vec![]),
        Err(ValidateLineErrors(vec![ValidateLineError::FieldNumberMismatch {
            expected: 2,
            found: 0
        }]))
    );
    assert_eq!(
        Schema::from_words(&vec!["a:x".to_string(), "b:y".to_string()]),
        Err(SchemaErrors(vec![SchemaError::InvalidType { type_: "x".to_string() }]))
    );
    assert_eq!(Schema::from_words(&vec![]), Ok(Schema::new()));
}
