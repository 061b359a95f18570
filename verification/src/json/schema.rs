//! A parsed JSON-dialect schema, ready to check documents.

use super::data::{Value, ValueView};
use super::document::json_decoded;
use super::error::{SchemaErrorView, SchemaErrors, ValidationErrorView, ValidationErrors};
use super::lexer::tokens_of;
use super::parser::{parse_schema, Parser};
use super::validator::{conforms, root_errors, Validator};
use vstd::prelude::*;

verus! {

/// The schema that a text spells: its tokens, parsed; or the first fault of
/// the lexer or, where the lexer found none, of the parser.
pub open spec fn schema_of(text: Seq<char>) -> Result<ValueView, SchemaErrorView> {
    match tokens_of(text) {
        Err(error) => Err(error),
        Ok(tokens) => parse_schema(tokens, 0),
    }
}

/// A schema of the JSON dialect.
#[derive(Debug, PartialEq, Eq)]
pub struct Schema {
    pub root: Value,
}

impl Schema {
    /// Reads a schema from its text. A faulty text gives its first fault,
    /// alone in the list.
    pub fn from_text(text: &str) -> (result: Result<Schema, SchemaErrors>)
        ensures
            match result {
                Ok(schema) => schema_of(text@) == Ok::<ValueView, SchemaErrorView>(schema.root@),
                Err(errors) => errors@.len() == 1 && schema_of(text@) == Err::<
                    ValueView,
                    SchemaErrorView,
                >(errors@[0]),
            },
    {
        let mut parser = match Parser::new(text) {
            Ok(parser) => parser,
            Err(errors) => {
                return Err(errors);
            },
        };
        match parser.parse() {
            Ok(root) => Ok(Schema { root }),
            Err(error) => Err(SchemaErrors::from(error)),
        }
    }

    /// Decodes `text` as one JSON document and holds it against the schema.
    pub fn validate(&self, text: &str) -> (result: Result<(), ValidationErrors>)
        ensures
            match json_decoded(text@) {
                Ok(document) => match result {
                    Ok(_) => conforms(self.root@, document),
                    Err(errors) => !conforms(self.root@, document) && errors@ == root_errors(
                        self.root@,
                        document,
                    ),
                },
                Err(message) => result matches Err(errors) && errors@
                    == seq![ValidationErrorView::ParseFaild(message)],
            },
    {
        match Validator::validate(&self.root, text) {
            Ok(_) => Ok(()),
            Err(errors) => Err(errors),
        }
    }
}

} // verus!
