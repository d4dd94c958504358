//! `stats`: counts of what the database holds.
use vstd::prelude::*;

verus! {

/// Arguments of `stats`.
pub struct StatsArgs {
    pub db: Option<String>,
    /// Accepted for compatibility; the output is JSON in any case.
    pub json: bool,
}

} // verus!
