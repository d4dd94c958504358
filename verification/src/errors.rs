//! The errors of the library, their messages and the process exit codes
//! they map to.
use vstd::prelude::*;
use vstd::string::*;

use crate::constants::{BATCH_PARTIAL_FAILURE_EXIT_CODE, DB_BUSY_EXIT_CODE};
use crate::render::{decimal, u64_to_decimal};

verus! {

/// What went wrong. Each variant but `BatchPartialFailure` carries its
/// detail as text; errors of the database, of I/O, of JSON and internal
/// ones carry the rendered message of the error they stand for. A batch
/// of which some items failed carries how many items it had and how many
/// of them failed.
#[derive(Debug)]
pub enum AppError {
    Validation(String),
    Duplicate(String),
    Conflict(String),
    NotFound(String),
    NamespaceError(String),
    LimitExceeded(String),
    Database(String),
    Embedding(String),
    VecExtension(String),
    DbBusy(String),
    Io(String),
    Internal(String),
    Json(String),
    BatchPartialFailure { total: usize, failed: usize },
}

impl AppError {
    /// The exit code of each kind of error.
    pub open spec fn spec_exit_code(&self) -> i32 {
        match self {
            AppError::Validation(_) => 1,
            AppError::Duplicate(_) => 2,
            AppError::Conflict(_) => 3,
            AppError::NotFound(_) => 4,
            AppError::NamespaceError(_) => 5,
            AppError::LimitExceeded(_) => 6,
            AppError::Database(_) => 10,
            AppError::Embedding(_) => 11,
            AppError::VecExtension(_) => 12,
            AppError::DbBusy(_) => 15,
            AppError::Io(_) => 14,
            AppError::Internal(_) => 20,
            AppError::Json(_) => 20,
            AppError::BatchPartialFailure { .. } => 13,
        }
    }

    /// The detail that the error carries.
    pub open spec fn detail(&self) -> Seq<char> {
        match self {
            AppError::Validation(m) => m@,
            AppError::Duplicate(m) => m@,
            AppError::Conflict(m) => m@,
            AppError::NotFound(m) => m@,
            AppError::NamespaceError(m) => m@,
            AppError::LimitExceeded(m) => m@,
            AppError::Database(m) => m@,
            AppError::Embedding(m) => m@,
            AppError::VecExtension(m) => m@,
            AppError::DbBusy(m) => m@,
            AppError::Io(m) => m@,
            AppError::Internal(m) => m@,
            AppError::Json(m) => m@,
            AppError::BatchPartialFailure { total, failed } => decimal(*failed as int) + " of "@
                + decimal(*total as int) + " items failed"@,
        }
    }

    /// The words that introduce the error's detail in its message.
    pub open spec fn spec_prefix(&self) -> Seq<char> {
        match self {
            AppError::Validation(_) => "validation error: "@,
            AppError::Duplicate(_) => "duplicate detected: "@,
            AppError::Conflict(_) => "conflict: "@,
            AppError::NotFound(_) => "not found: "@,
            AppError::NamespaceError(_) => "namespace not resolved: "@,
            AppError::LimitExceeded(_) => "limit exceeded: "@,
            AppError::Database(_) => "database error: "@,
            AppError::Embedding(_) => "embedding error: "@,
            AppError::VecExtension(_) => "sqlite-vec extension failed: "@,
            AppError::DbBusy(_) => "database busy: "@,
            AppError::Io(_) => "IO error: "@,
            AppError::Internal(_) => "internal error: "@,
            AppError::Json(_) => "json error: "@,
            AppError::BatchPartialFailure { .. } => "batch partial failure: "@,
        }
    }

    /// The process exit code for this error.
    pub fn exit_code(&self) -> (code: i32)
        ensures
            code == self.spec_exit_code(),
    {
        match self {
            AppError::Validation(_) => 1,
            AppError::Duplicate(_) => 2,
            AppError::Conflict(_) => 3,
            AppError::NotFound(_) => 4,
            AppError::NamespaceError(_) => 5,
            AppError::LimitExceeded(_) => 6,
            AppError::Database(_) => 10,
            AppError::Embedding(_) => 11,
            AppError::VecExtension(_) => 12,
            AppError::DbBusy(_) => DB_BUSY_EXIT_CODE,
            AppError::Io(_) => 14,
            AppError::Internal(_) => 20,
            AppError::Json(_) => 20,
            AppError::BatchPartialFailure { .. } => BATCH_PARTIAL_FAILURE_EXIT_CODE,
        }
    }

    /// The message shown for this error: its kind's words, then its detail.
    pub fn message(&self) -> (s: String)
        ensures
            s@ == self.spec_prefix() + self.detail(),
    {
        if let AppError::BatchPartialFailure { total, failed } = self {
            let mut s = "batch partial failure: ".to_owned();
            let f = u64_to_decimal(*failed as u64);
            let t = u64_to_decimal(*total as u64);
            s.append(f.as_str());
            s.append(" of ");
            s.append(t.as_str());
            s.append(" items failed");
            proof {
                reveal_strlit("batch partial failure: ");
                reveal_strlit(" of ");
                reveal_strlit(" items failed");
                assert(s@ =~= self.spec_prefix() + self.detail());
            }
            return s;
        }
        let (prefix, detail): (&str, &String) = match self {
            AppError::Validation(m) => ("validation error: ", m),
            AppError::Duplicate(m) => ("duplicate detected: ", m),
            AppError::Conflict(m) => ("conflict: ", m),
            AppError::NotFound(m) => ("not found: ", m),
            AppError::NamespaceError(m) => ("namespace not resolved: ", m),
            AppError::LimitExceeded(m) => ("limit exceeded: ", m),
            AppError::Database(m) => ("database error: ", m),
            AppError::Embedding(m) => ("embedding error: ", m),
            AppError::VecExtension(m) => ("sqlite-vec extension failed: ", m),
            AppError::DbBusy(m) => ("database busy: ", m),
            AppError::Io(m) => ("IO error: ", m),
            AppError::Internal(m) => ("internal error: ", m),
            AppError::Json(m) => ("json error: ", m),
            AppError::BatchPartialFailure { .. } => unreached(),
        };
        let mut s = prefix.to_owned();
        s.append(detail.as_str());
        s
    }
}

} // verus!

verus! {

/// Every error ends the process with a failure status: its exit code is
/// never 0.
pub proof fn lemma_exit_code_signals_failure(e: AppError)
    ensures
        e.spec_exit_code() != 0,
{
}

} // verus!
