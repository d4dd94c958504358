//! Stored chunks of memory bodies.
use vstd::prelude::*;

verus! {

/// A chunk as the `memory_chunks` table stores it.
#[derive(Debug, Clone)]
pub struct Chunk {
    pub memory_id: i64,
    pub chunk_idx: i32,
    pub chunk_text: String,
    pub start_offset: i32,
    pub end_offset: i32,
    pub token_count: i32,
}

} // verus!
