//! What can be wrong with a TSV schema text, and what can be wrong with the
//! lines held against a schema.

use vstd::prelude::*;

verus! {

/// A fault in one term of a schema text.
#[derive(Debug, PartialEq, Eq)]
pub enum SchemaError {
    /// The term is not of the form `name:types`.
    InvalidSyntax { text: String },
    /// The term names a type that the dialect does not have.
    InvalidType { type_: String },
}

pub enum SchemaErrorView {
    InvalidSyntax { text: Seq<char> },
    InvalidType { type_: Seq<char> },
}

impl View for SchemaError {
    type V = SchemaErrorView;

    open spec fn view(&self) -> SchemaErrorView {
        match self {
            SchemaError::InvalidSyntax { text } => SchemaErrorView::InvalidSyntax { text: text@ },
            SchemaError::InvalidType { type_ } => SchemaErrorView::InvalidType { type_: type_@ },
        }
    }
}

/// The faults found in a schema text. Reading stops at the first faulty term,
/// so a schema text gives one.
#[derive(Debug, PartialEq, Eq)]
pub struct SchemaErrors(pub Vec<SchemaError>);

impl View for SchemaErrors {
    type V = Seq<SchemaErrorView>;

    open spec fn view(&self) -> Seq<SchemaErrorView> {
        Seq::new(self.0@.len(), |i: int| self.0@[i]@)
    }
}

/// One way in which a line fails its schema.
#[derive(Debug, PartialEq, Eq)]
pub enum ValidateLineError {
    /// A value is of none of the types of its term.
    DataTypeMismatch { type_: String, value: String },
    /// The line has not as many values as the schema has terms.
    FieldNumberMismatch { expected: usize, found: usize },
}

pub enum ValidateLineErrorView {
    DataTypeMismatch { type_: Seq<char>, value: Seq<char> },
    FieldNumberMismatch { expected: usize, found: usize },
}

impl View for ValidateLineError {
    type V = ValidateLineErrorView;

    open spec fn view(&self) -> ValidateLineErrorView {
        match self {
            ValidateLineError::DataTypeMismatch { type_, value } => {
                ValidateLineErrorView::DataTypeMismatch { type_: type_@, value: value@ }
            },
            ValidateLineError::FieldNumberMismatch { expected, found } => {
                ValidateLineErrorView::FieldNumberMismatch { expected: *expected, found: *found }
            },
        }
    }
}

/// Every failure found in one line, in the order of its values.
#[derive(Debug, PartialEq, Eq)]
pub struct ValidateLineErrors(pub Vec<ValidateLineError>);

impl View for ValidateLineErrors {
    type V = Seq<ValidateLineErrorView>;

    open spec fn view(&self) -> Seq<ValidateLineErrorView> {
        Seq::new(self.0@.len(), |i: int| self.0@[i]@)
    }
}

/// The failures of one line, with the line and its number, counted from 1.
#[derive(Debug, PartialEq, Eq)]
pub struct ValidationError {
    pub line_text: String,
    pub line_number: usize,
    pub errors: ValidateLineErrors,
}

pub struct ValidationErrorView {
    pub line_text: Seq<char>,
    pub line_number: usize,
    pub errors: Seq<ValidateLineErrorView>,
}

impl View for ValidationError {
    type V = ValidationErrorView;

    open spec fn view(&self) -> ValidationErrorView {
        ValidationErrorView {
            line_text: self.line_text@,
            line_number: self.line_number,
            errors: self.errors@,
        }
    }
}

/// The failures of every failing line, in the order of the lines.
#[derive(Debug, PartialEq, Eq)]
pub struct ValidationErrors(pub Vec<ValidationError>);

impl View for ValidationErrors {
    type V = Seq<ValidationErrorView>;

    open spec fn view(&self) -> Seq<ValidationErrorView> {
        Seq::new(self.0@.len(), |i: int| self.0@[i]@)
    }
}

} // verus!
