//! `health`: integrity and counts of the database.
use vstd::prelude::*;
use vstd::string::*;
use crate::render::{concat2, decimal, i64_to_decimal, str_equal};

verus! {

/// Arguments of `health`.
pub struct HealthArgs {
    pub db: Option<String>,
    /// Accepted for compatibility; the output is JSON in any case.
    pub json: bool,
}

/// The status reported for the result of `PRAGMA integrity_check`: `ok`
/// when it reads `ok`, else `degraded`.
pub fn health_status(integrity: &str) -> (s: &'static str)
    ensures
        s@ == if integrity@ == "ok"@ {
            "ok"@
        } else {
            "degraded"@
        },
{
    if str_equal(integrity, "ok") {
        "ok"
    } else {
        "degraded"
    }
}

/// The label of an entity that memories refer to but that is missing.
pub open spec fn missing_entity_label(id: i64) -> Seq<char> {
    "entity_id="@ + decimal(id as int)
}

/// The labels of the missing entities, in the order given.
pub fn missing_entity_labels(ids: &[i64]) -> (labels: Vec<String>)
    ensures
        labels@.len() == ids@.len(),
        forall|i: int| 0 <= i < ids@.len() ==> #[trigger] labels@[i]@ == missing_entity_label(ids@[i]),
{
    let mut labels: Vec<String> = Vec::new();
    for i in 0..ids.len()
        invariant
            labels@.len() == i,
            forall|k: int| 0 <= k < i ==> #[trigger] labels@[k]@ == missing_entity_label(ids@[k]),
    {
        labels.push(concat2("entity_id=", i64_to_decimal(ids[i]).as_str()));
    }
    labels
}

} // verus!
