//! Stored memories.
use vstd::prelude::*;
use crate::render::concat2;

verus! {

/// A row of the `memories` table.
#[derive(Debug)]
pub struct MemoryRow {
    pub id: i64,
    pub namespace: String,
    pub name: String,
    pub memory_type: String,
    pub description: String,
    pub body: String,
    pub body_hash: String,
    pub session_id: Option<String>,
    pub source: String,
    pub metadata: String,
    pub created_at: i64,
    pub updated_at: i64,
}

/// The full-text query for the words of `query`, the last one taken as a
/// prefix: `query` followed by `*`.
pub fn fts_prefix_query(query: &str) -> (q: String)
    ensures
        q@ == query@ + "*"@,
{
    concat2(query, "*")
}

} // verus!
