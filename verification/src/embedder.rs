//! The texts handed to the embedding model: each passage or query carries
//! the prefix that the E5 model expects before it.
use vstd::prelude::*;
use crate::constants::{PASSAGE_PREFIX, QUERY_PREFIX};
use crate::render::concat2;

verus! {

/// The model input for a passage: `passage: ` then the text.
pub fn passage_input(text: &str) -> (s: String)
    ensures
        s@ == PASSAGE_PREFIX@ + text@,
{
    concat2(PASSAGE_PREFIX, text)
}

/// The model input for a query: `query: ` then the text.
pub fn query_input(text: &str) -> (s: String)
    ensures
        s@ == QUERY_PREFIX@ + text@,
{
    concat2(QUERY_PREFIX, text)
}

/// The model inputs for a batch of passages, in the order given.
pub fn passage_inputs(texts: &[String]) -> (inputs: Vec<String>)
    ensures
        inputs@.len() == texts@.len(),
        forall|i: int| 0 <= i < texts@.len() ==> #[trigger] inputs@[i]@ == PASSAGE_PREFIX@ + texts@[i]@,
{
    let mut inputs: Vec<String> = Vec::new();
    for i in 0..texts.len()
        invariant
            inputs@.len() == i,
            forall|k: int| 0 <= k < i ==> #[trigger] inputs@[k]@ == PASSAGE_PREFIX@ + texts@[k]@,
    {
        inputs.push(passage_input(texts[i].as_str()));
    }
    inputs
}

} // verus!
