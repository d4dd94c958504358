//! `vacuum`: checkpoints the write-ahead log and compacts the database.
use vstd::prelude::*;

verus! {

/// Arguments of `vacuum`.
pub struct VacuumArgs {
    pub db: Option<String>,
}

} // verus!
