//! The TSV dialect: a flat schema of named terms, checked against lines of
//! white-space separated values.

pub mod error;
pub mod literal;
pub mod schema;
pub mod term;

pub use error::{SchemaErrors, ValidationErrors};
pub use schema::Schema;
