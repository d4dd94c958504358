//! `sync-safe-copy`: a consistent snapshot of the database file.
use vstd::prelude::*;

verus! {

/// Arguments of `sync-safe-copy`.
pub struct SyncSafeCopyArgs {
    /// Path of the snapshot file.
    pub dest: String,
    pub db: Option<String>,
}

} // verus!
