//! `list`: the live memories of a namespace, most recently updated first.
use vstd::prelude::*;
use crate::output::OutputFormat;
use crate::render::char_prefix;

verus! {

/// Characters of a body shown in a listing.
pub const SNIPPET_CHARS: usize = 200;

/// Arguments of `list`.
pub struct ListArgs {
    pub namespace: Option<String>,
    /// Only memories of this type, when given.
    pub memory_type: Option<String>,
    pub limit: usize,
    pub offset: usize,
    pub format: OutputFormat,
    pub db: Option<String>,
}

/// The first `SNIPPET_CHARS` characters of a body (all of it when shorter).
pub fn snippet_of(body: &str) -> (s: String)
    ensures
        s@ == body@.take(
            if SNIPPET_CHARS < body@.len() {
                SNIPPET_CHARS as int
            } else {
                body@.len() as int
            },
        ),
{
    char_prefix(body, SNIPPET_CHARS)
}

} // verus!
