//! The JSON dialect: a recursive schema language and the validator of decoded
//! JSON documents against it.

pub mod canonical;
pub mod data;
pub mod document;
pub mod error;
pub mod lexer;
pub mod parser;
pub mod schema;
pub mod validator;

pub use error::{SchemaErrors, ValidationErrors};
pub use schema::Schema;
