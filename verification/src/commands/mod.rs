//! The decisions and texts of the command-line commands; reading and
//! writing the database is left to the caller.
pub mod edit;
pub mod forget;
pub mod health;
pub mod history;
pub mod list;
pub mod namespace_detect;
pub mod optimize;
pub mod purge;
pub mod read;
pub mod rename;
pub mod restore;
pub mod stats;
pub mod sync_safe_copy;
pub mod vacuum;

use vstd::prelude::*;
use vstd::string::*;
use crate::errors::AppError;
use crate::render::{concat5, concat3};

verus! {

/// The detail of the error for a memory that a namespace does not hold.
pub open spec fn memory_not_found_text(name: Seq<char>, namespace: Seq<char>) -> Seq<char> {
    "memory '"@ + name + "' not found in namespace '"@ + namespace + "'"@
}

/// The error for a memory `name` that `namespace` does not hold.
pub fn memory_not_found(name: &str, namespace: &str) -> (e: AppError)
    ensures
        e matches AppError::NotFound(m) && m@ == memory_not_found_text(name@, namespace@),
{
    AppError::NotFound(concat5("memory '", name, "' not found in namespace '", namespace, "'"))
}

/// The detail of the error for a database file that does not exist.
pub open spec fn database_missing_text(db_path: Seq<char>) -> Seq<char> {
    "database not found at "@ + db_path + ". Run 'neurographrag init' first."@
}

/// Fails with `NotFound` when the database file at `db_path` does not
/// exist.
pub fn require_database(db_path: &str, exists: bool) -> (r: Result<(), AppError>)
    ensures
        r is Ok <==> exists,
        r matches Err(e) ==> (e matches AppError::NotFound(m) && m@ == database_missing_text(
            db_path@,
        )),
{
    if exists {
        Ok(())
    } else {
        Err(
            AppError::NotFound(
                concat3("database not found at ", db_path, ". Run 'neurographrag init' first."),
            ),
        )
    }
}

/// A value read from the database, or `unknown` when it could not be read.
pub fn or_unknown(value: Option<String>) -> (s: String)
    ensures
        s@ == match value {
            Some(v) => v@,
            None => "unknown"@,
        },
{
    match value {
        Some(v) => v,
        None => "unknown".to_owned(),
    }
}

} // verus!
