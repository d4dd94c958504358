//! `restore`: makes an earlier version of a memory its current content.
use vstd::prelude::*;
use crate::errors::AppError;
use crate::render::{concat5, decimal, i64_to_decimal};

verus! {

/// Arguments of `restore`.
pub struct RestoreArgs {
    pub name: String,
    pub version: i64,
    pub expected_updated_at: Option<i64>,
    pub namespace: Option<String>,
    pub db: Option<String>,
}

/// The detail of the error for a version that a memory does not have.
pub open spec fn version_not_found_text(version: i64, name: Seq<char>) -> Seq<char> {
    "version "@ + decimal(version as int) + " not found for memory '"@ + name + "'"@
}

/// The error for a version that memory `name` does not have.
pub fn version_not_found(version: i64, name: &str) -> (e: AppError)
    ensures
        e matches AppError::NotFound(m) && m@ == version_not_found_text(version, name@),
{
    let v = i64_to_decimal(version);
    AppError::NotFound(concat5("version ", v.as_str(), " not found for memory '", name, "'"))
}

} // verus!
