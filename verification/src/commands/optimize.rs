//! `optimize`: runs SQLite's `PRAGMA optimize`.
use vstd::prelude::*;

verus! {

/// Arguments of `optimize`.
pub struct OptimizeArgs {
    pub db: Option<String>,
}

} // verus!
