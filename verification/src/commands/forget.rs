//! `forget`: soft-deletes a memory.
use vstd::prelude::*;
use crate::errors::AppError;
use crate::commands::{memory_not_found, memory_not_found_text};

verus! {

/// Arguments of `forget`.
pub struct ForgetArgs {
    pub name: String,
    pub namespace: Option<String>,
    pub db: Option<String>,
}

/// The outcome of `forget` once the soft delete has run: `NotFound` when
/// no live memory `name` was deleted in `namespace`.
pub fn check_forgotten(forgotten: bool, name: &str, namespace: &str) -> (r: Result<(), AppError>)
    ensures
        r is Ok <==> forgotten,
        r matches Err(e) ==> (e matches AppError::NotFound(m) && m@ == memory_not_found_text(
            name@,
            namespace@,
        )),
{
    if forgotten {
        Ok(())
    } else {
        Err(memory_not_found(name, namespace))
    }
}

} // verus!
