//! What the command line selects.

use crate::schema::is_dialect;
use vstd::prelude::*;

verus! {

/// The dialect of a schema.
#[derive(Debug, PartialEq, Eq, Clone, Copy, Structural)]
pub enum SchemaType {
    Tsv,
    Json,
}

/// The name of a dialect.
pub open spec fn dialect_name(schema_type: SchemaType) -> Seq<char> {
    match schema_type {
        SchemaType::Tsv => "tsv"@,
        SchemaType::Json => "json"@,
    }
}

impl SchemaType {
    /// The name of the dialect, which selects it where a schema is read.
    pub fn to_string(&self) -> (name: String)
        ensures
            name@ == dialect_name(*self),
            is_dialect(name@),
    {
        match self {
            SchemaType::Tsv => "tsv".to_owned(),
            SchemaType::Json => "json".to_owned(),
        }
    }
}

impl Default for SchemaType {
    fn default() -> (schema_type: SchemaType)
        ensures
            schema_type == SchemaType::Tsv,
    {
        SchemaType::Tsv
    }
}

/// The arguments of the command line.
#[derive(Debug, PartialEq, Eq)]
pub struct Cli {
    /// The schema to check against.
    pub schema: String,
    /// The file to check; standard input where there is none.
    pub file: Option<String>,
    /// The dialect of the schema.
    pub schema_type: SchemaType,
}

} // verus!
