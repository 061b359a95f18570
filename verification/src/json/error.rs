//! What can be wrong with a schema text, and what can be wrong with a
//! document held against a schema.

use super::data::{Location, TokenKind, TokenKindView};
use vstd::prelude::*;

verus! {

/// A fault in the schema text. Lexing and parsing stop at the first one.
#[derive(Debug, PartialEq, Eq)]
pub enum SchemaError {
    UnexpectedCharacter { text: String, location: Location },
    UnexpectedToken { expected_kind: TokenKind, location: Location, actual_kind: TokenKind },
    InvalidType { type_: String, location: Location },
    UnterminatedString { location: Location },
}

pub enum SchemaErrorView {
    UnexpectedCharacter { text: Seq<char>, location: Location },
    UnexpectedToken { expected_kind: TokenKindView, location: Location, actual_kind: TokenKindView },
    InvalidType { type_: Seq<char>, location: Location },
    UnterminatedString { location: Location },
}

impl View for SchemaError {
    type V = SchemaErrorView;

    open spec fn view(&self) -> SchemaErrorView {
        match self {
            SchemaError::UnexpectedCharacter { text, location } => {
                SchemaErrorView::UnexpectedCharacter { text: text@, location: *location }
            },
            SchemaError::UnexpectedToken { expected_kind, location, actual_kind } => {
                SchemaErrorView::UnexpectedToken {
                    expected_kind: expected_kind@,
                    location: *location,
                    actual_kind: actual_kind@,
                }
            },
            SchemaError::InvalidType { type_, location } => {
                SchemaErrorView::InvalidType { type_: type_@, location: *location }
            },
            SchemaError::UnterminatedString { location } => {
                SchemaErrorView::UnterminatedString { location: *location }
            },
        }
    }
}

/// The faults found in a schema text.
#[derive(Debug, PartialEq, Eq)]
pub struct SchemaErrors(pub Vec<SchemaError>);

impl View for SchemaErrors {
    type V = Seq<SchemaErrorView>;

    open spec fn view(&self) -> Seq<SchemaErrorView> {
        Seq::new(self.0@.len(), |i: int| self.0@[i]@)
    }
}

impl SchemaErrors {
    /// The list that holds `error` alone.
    pub fn from(error: SchemaError) -> (errors: SchemaErrors)
        ensures
            errors@ == seq![error@],
    {
        let mut list: Vec<SchemaError> = Vec::new();
        list.push(error);
        let errors = SchemaErrors(list);
        assert(errors@ =~= seq![error@]);
        errors
    }
}

/// One way in which a document fails its schema.
#[derive(Debug, PartialEq, Eq)]
pub enum ValidationError {
    /// The document text could not be decoded; the message says why.
    ParseFaild(String),
    PropertyNotFound { name: String },
    DataTypeMismatch { types: String, value: String },
}

pub enum ValidationErrorView {
    ParseFaild(Seq<char>),
    PropertyNotFound { name: Seq<char> },
    DataTypeMismatch { types: Seq<char>, value: Seq<char> },
}

impl View for ValidationError {
    type V = ValidationErrorView;

    open spec fn view(&self) -> ValidationErrorView {
        match self {
            ValidationError::ParseFaild(message) => ValidationErrorView::ParseFaild(message@),
            ValidationError::PropertyNotFound { name } => {
                ValidationErrorView::PropertyNotFound { name: name@ }
            },
            ValidationError::DataTypeMismatch { types, value } => {
                ValidationErrorView::DataTypeMismatch { types: types@, value: value@ }
            },
        }
    }
}

/// Every failure found in one document, in the order of discovery.
#[derive(Debug, PartialEq, Eq)]
pub struct ValidationErrors(pub Vec<ValidationError>);

impl View for ValidationErrors {
    type V = Seq<ValidationErrorView>;

    open spec fn view(&self) -> Seq<ValidationErrorView> {
        Seq::new(self.0@.len(), |i: int| self.0@[i]@)
    }
}

impl ValidationErrors {
    pub fn new() -> (errors: ValidationErrors)
        ensures
            errors@ == Seq::<ValidationErrorView>::empty(),
    {
        let errors = ValidationErrors(Vec::new());
        assert(errors@ =~= Seq::<ValidationErrorView>::empty());
        errors
    }

    /// Appends the failures of `other`, keeping the order of both lists.
    pub fn extend(&mut self, other: ValidationErrors)
        ensures
            final(self)@ == old(self)@ + other@,
    {
        let mut other = other;
        let ghost added = other@;
        self.0.append(&mut other.0);
        assert(self@ =~= old(self)@ + added);
    }

    pub fn is_empty(&self) -> (b: bool)
        ensures
            b == (self@.len() == 0),
    {
        self.0.is_empty()
    }

    /// Appends one failure.
    pub fn push(&mut self, error: ValidationError)
        ensures
            final(self)@ == old(self)@.push(error@),
    {
        self.0.push(error);
        assert(self@ =~= old(self)@.push(error@));
    }

    /// The list that holds `error` alone.
    pub fn from(error: ValidationError) -> (errors: ValidationErrors)
        ensures
            errors@ == seq![error@],
    {
        let mut list: Vec<ValidationError> = Vec::new();
        list.push(error);
        let errors = ValidationErrors(list);
        assert(errors@ =~= seq![error@]);
        errors
    }
}

} // verus!
