//! The schema of either dialect, as the command line selects it.

use crate::json;
use crate::text::{join, joined, str_eq, strings_view};
use crate::tsv;
use vstd::prelude::*;

verus! {

/// The faults of a schema text, in the dialect it was read in.
#[derive(Debug, PartialEq, Eq)]
pub enum SchemaError {
    Tsv(tsv::error::SchemaErrors),
    Json(json::error::SchemaErrors),
}

/// The failures of the input, in the dialect of the schema.
#[derive(Debug, PartialEq, Eq)]
pub enum ValidationError {
    Tsv(tsv::error::ValidationErrors),
    Json(json::error::ValidationErrors),
}

/// A schema of one of the two dialects.
#[derive(Debug, PartialEq, Eq)]
pub enum Schema {
    Tsv(tsv::schema::Schema),
    Json(json::schema::Schema),
}

/// Whether `name` selects a dialect: `tsv` or `json`.
pub open spec fn is_dialect(name: Seq<char>) -> bool {
    name == "tsv"@ || name == "json"@
}

/// The one JSON text that the lines of an input make: the lines with a line
/// feed between each two.
pub open spec fn document_text(lines: Seq<Seq<char>>) -> Seq<char> {
    joined(lines, "\n"@)
}

impl Schema {
    /// Reads the schema `text` in the dialect that `schema_type` names.
    pub fn from_text(schema_type: &str, text: &str) -> (result: Result<Schema, SchemaError>)
        requires
            is_dialect(schema_type@),
        ensures
            schema_type@ == "tsv"@ ==> match result {
                Ok(schema) => schema matches Schema::Tsv(inner) && tsv::schema::schema_of(text@)
                    == Ok::<Seq<tsv::term::TermView>, Seq<tsv::error::SchemaErrorView>>(inner@),
                Err(error) => error matches SchemaError::Tsv(errors) && tsv::schema::schema_of(
                    text@,
                ) == Err::<Seq<tsv::term::TermView>, Seq<tsv::error::SchemaErrorView>>(errors@),
            },
            schema_type@ != "tsv"@ ==> match result {
                Ok(schema) => schema matches Schema::Json(inner) && json::schema::schema_of(
                    text@,
                ) == Ok::<json::data::ValueView, json::error::SchemaErrorView>(inner.root@),
                Err(error) => error matches SchemaError::Json(errors) && errors@.len() == 1
                    && json::schema::schema_of(text@) == Err::<
                    json::data::ValueView,
                    json::error::SchemaErrorView,
                >(errors@[0]),
            },
    {
        if str_eq(schema_type, "tsv") {
            match tsv::schema::Schema::from_text(text) {
                Ok(schema) => Ok(Schema::Tsv(schema)),
                Err(errors) => Err(SchemaError::Tsv(errors)),
            }
        } else {
            match json::schema::Schema::from_text(text) {
                Ok(schema) => Ok(Schema::Json(schema)),
                Err(errors) => Err(SchemaError::Json(errors)),
            }
        }
    }

    /// Holds the lines of an input against the schema: each line by itself in
    /// the TSV dialect, all of them as one document in the JSON dialect.
    pub fn validate(&self, lines: &Vec<String>) -> (result: Result<(), ValidationError>)
        ensures
            match *self {
                Schema::Tsv(schema) => match result {
                    Ok(_) => tsv::schema::lines_errors(
                        schema@,
                        strings_view(lines@),
                        lines@.len() as int,
                    ).len() == 0,
                    Err(error) => error matches ValidationError::Tsv(errors) && errors@.len() > 0
                        && errors@ == tsv::schema::lines_errors(
                        schema@,
                        strings_view(lines@),
                        lines@.len() as int,
                    ),
                },
                Schema::Json(schema) => match json::document::json_decoded(
                    document_text(strings_view(lines@)),
                ) {
                    Ok(document) => match result {
                        Ok(_) => json::validator::conforms(schema.root@, document),
                        Err(error) => error matches ValidationError::Json(errors)
                            && !json::validator::conforms(schema.root@, document) && errors@
                            == json::validator::root_errors(schema.root@, document),
                    },
                    Err(message) => result matches Err(ValidationError::Json(errors)) && errors@
                        == seq![json::error::ValidationErrorView::ParseFaild(message)],
                },
            },
    {
        match self {
            Schema::Tsv(schema) => match schema.validate(lines) {
                Ok(_) => Ok(()),
                Err(errors) => Err(ValidationError::Tsv(errors)),
            },
            Schema::Json(schema) => {
                let text = join(lines, "\n");
                match schema.validate(text.as_str()) {
                    Ok(_) => Ok(()),
                    Err(errors) => Err(ValidationError::Json(errors)),
                }
            },
        }
    }
}

} // verus!
