//! Whatever stops a run: a fault of the schema text or a failure of the input.

use crate::schema::{SchemaError, ValidationError};
use vstd::prelude::*;

verus! {

/// A fault of the schema text, or the failures of the input.
#[derive(Debug, PartialEq, Eq)]
pub enum Error {
    Schema(SchemaError),
    Validation(ValidationError),
}

} // verus!
