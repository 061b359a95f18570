use schematch::tsv::error::{SchemaError, SchemaErrors, ValidateLineError, ValidateLineErrors};
use schematch::tsv::schema::Schema;
use schematch::tsv::term::{Term, Type};

#[test]
fn single_term() {
    assert_eq!(
        Schema::from_text("id:integer").unwrap(),
        Schema { terms: vec![Term::new("id", vec![Type::Integer])] }
    );

    assert_eq!(
        Schema::from_text("name:string").unwrap(),
        Schema { terms: vec![Term::new("name", vec![Type::String])] }
    );

    assert_eq!(
        Schema::from_text("is_active:boolean").unwrap(),
        Schema { terms: vec![Term::new("is_active", vec![Type::Boolean])] }
    );

    assert_eq!(
        Schema::from_text("price:float").unwrap(),
        Schema { terms: vec![Term::new("price", vec![Type::Float])] }
    );

    assert_eq!(
        Schema::from_text("deleted_field:null").unwrap(),
        Schema { terms: vec![Term::new("deleted_field", vec![Type::Null])] }
    );
}

#[test]
fn sum_term() {
    assert_eq!(
        Schema::from_text("optional_field:string|null").unwrap(),
        Schema { terms: vec![Term::new("optional_field", vec![Type::String, Type::Null])] }
    );
}

#[test]
fn schema_multiple_terms() {
    assert_eq!(
        Schema::from_text("id:integer name:string").unwrap(),
        Schema {
            terms: vec![
                Term::new("id", vec![Type::Integer]),
                Term::new("name", vec![Type::String])
            ]
        }
    );
}

#[test]
fn schema_accept_extra_space() {
    assert_eq!(
        Schema::from_text("id:integer \t name:string").unwrap(),
        Schema {
            terms: vec![
                Term::new("id", vec![Type::Integer]),
                Term::new("name", vec![Type::String])
            ]
        }
    );
}

#[test]
fn incorrect_schema() {
    assert_eq!(
        Schema::from_text("id:integer err:extra").unwrap_err(),
        SchemaErrors(vec![SchemaError::InvalidType { type_: "extra".to_string() }])
    )
}

#[test]
fn incorrect_syntax() {
    assert_eq!(
        Schema::from_text("id").unwrap_err(),
        SchemaErrors(vec![SchemaError::InvalidSyntax { text: "id".to_string() }])
    )
}

#[test]
fn integer() {
    let schema = Schema::from_text("id:integer").unwrap();
    assert_eq!(schema.validate_line("123".to_owned()), Ok(()));

    assert_eq!(
        schema.validate_line("123.0".to_owned()),
        Err(ValidateLineErrors(vec![ValidateLineError::DataTypeMismatch {
            type_: "integer".to_string(),
            value: "123.0".to_string()
        }]))
    );
}

#[test]
fn string() {
    let schema = Schema::from_text("name:string").unwrap();

    assert_eq!(schema.validate_line("John_Doe".to_owned()), Ok(()));
}

#[test]
fn boolean() {
    let schema = Schema::from_text("is_active:boolean").unwrap();

    assert_eq!(schema.validate_line("true".to_owned()), Ok(()));
    assert_eq!(schema.validate_line("false".to_owned()), Ok(()));
    assert_eq!(
        schema.validate_line("TURE".to_owned()),
        Err(ValidateLineErrors(vec![ValidateLineError::DataTypeMismatch {
            type_: "boolean".to_string(),
            value: "TURE".to_string()
        }]))
    );
}

#[test]
fn float() {
    let schema = Schema::from_text("price:float").unwrap();
    assert_eq!(schema.validate_line("123.0".to_owned()), Ok(()));
    assert_eq!(schema.validate_line("123".to_owned()), Ok(()));
    assert_eq!(
        schema.validate_line("123.0.0".to_owned()),
        Err(ValidateLineErrors(vec![ValidateLineError::DataTypeMismatch {
            type_: "float".to_string(),
            value: "123.0.0".to_string()
        }]))
    )
}

#[test]
fn null() {
    let schema = Schema::from_text("deleted_field:null").unwrap();
    assert_eq!(schema.validate_line("_".to_owned()), Ok(()));
}

#[test]
fn multiple_terms() {
    let schema = Schema::from_text("id:integer name:string").unwrap();
    assert_eq!(schema.validate_line("1 john_doe".to_owned()), Ok(()));
}

#[test]
fn accept_extra_space() {
    let schema = Schema::from_text("id:integer name:string").unwrap();
    assert_eq!(schema.validate_line("1       john_doe".to_owned()), Ok(()));
}

#[test]
fn incorrect_number_of_values() {
    let schema = Schema::from_text("id:integer name:string").unwrap();
    assert_eq!(
        schema.validate_line("1".to_owned()),
        Err(ValidateLineErrors(vec![ValidateLineError::FieldNumberMismatch {
            expected: 2,
            found: 1
        }]))
    )
}

#[test]
fn incorrect_value() {
    let schema = Schema::from_text("id:integer name:integer").unwrap();
    assert_eq!(
        schema.validate_line("xxx yyy".to_owned()),
        Err(ValidateLineErrors(vec![
            ValidateLineError::DataTypeMismatch {
                type_: "integer".to_string(),
                value: "xxx".to_string()
            },
            ValidateLineError::DataTypeMismatch {
                type_: "integer".to_string(),
                value: "yyy".to_string()
            }
        ]))
    )
}
