//! Entities of the knowledge graph.
use vstd::prelude::*;

verus! {

/// An entity to be stored.
#[derive(Debug, Clone)]
pub struct NewEntity {
    pub name: String,
    pub entity_type: String,
    pub description: Option<String>,
}

} // verus!
