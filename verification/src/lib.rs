//! Checks documents against compact textual schemas, in two dialects: a flat
//! one for lines of tabular text and a recursive one for JSON documents.

pub mod cli;
pub mod error;
pub mod json;
pub mod schema;
pub mod text;
pub mod tsv;
