//! `read`: one memory, with its current version.
use vstd::prelude::*;

verus! {

/// Arguments of `read`.
pub struct ReadArgs {
    pub name: String,
    pub namespace: Option<String>,
    pub db: Option<String>,
}

/// The current version of a memory: the highest stored one, or 1 when it
/// could not be read.
pub fn current_version(highest: Option<i64>) -> (v: i64)
    ensures
        v == match highest {
            Some(x) => x,
            None => 1,
        },
{
    match highest {
        Some(x) => x,
        None => 1,
    }
}

} // verus!
