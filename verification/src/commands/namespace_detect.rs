//! `namespace-detect`: reports the namespace that would be used.
use vstd::prelude::*;

verus! {

/// Arguments of `namespace-detect`.
pub struct NamespaceDetectArgs {
    pub namespace: Option<String>,
    /// Accepted for compatibility; the output is JSON in any case.
    pub json: bool,
}

} // verus!
