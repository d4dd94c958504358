//! Output formats and the answer of the `remember` command.
use vstd::prelude::*;

verus! {

/// How a command renders its answer.
#[derive(Debug, Clone, Copy, PartialEq, Eq, Structural)]
pub enum OutputFormat {
    Json,
    Text,
    Markdown,
}

impl Default for OutputFormat {
    /// JSON is the default format.
    fn default() -> (f: Self)
        ensures
            f == OutputFormat::Json,
    {
        OutputFormat::Json
    }
}

/// What `remember` answers.
pub struct RememberResponse {
    pub memory_id: i64,
    pub name: String,
    pub action: String,
    pub version: i64,
    pub entities_persisted: usize,
    pub relationships_persisted: usize,
    pub chunks_created: usize,
    pub warnings: Vec<String>,
}

} // verus!
