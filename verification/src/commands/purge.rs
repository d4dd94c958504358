//! `purge`: removes for good the memories that were soft-deleted long
//! enough ago.
use vstd::prelude::*;
use vstd::string::*;
use crate::errors::AppError;
use crate::render::{concat3, concat5, decimal, i64_to_decimal};

verus! {

/// Arguments of `purge`.
pub struct PurgeArgs {
    /// Purge only the memory of this name, when given.
    pub name: Option<String>,
    pub namespace: Option<String>,
    /// Only memories deleted at least this many days ago.
    pub retention_days: u32,
    /// Only memories deleted at least this many seconds ago; the older
    /// form of `retention_days`, which it overrides where given.
    pub older_than_seconds: Option<i64>,
    /// Report what would be purged, and purge nothing.
    pub dry_run: bool,
    /// Accepted for compatibility; a purge asks no confirmation.
    pub yes: bool,
    pub db: Option<String>,
}

/// Seconds in a day.
pub const SECONDS_PER_DAY: i64 = 86_400;

/// The age, in seconds, from which a soft-deleted memory is purged: the
/// seconds given with the older flag where there are any, else the
/// retention in days.
pub open spec fn age_limit(retention_days: u32, older_than_seconds: Option<i64>) -> int {
    match older_than_seconds {
        Some(s) => s as int,
        None => retention_days * SECONDS_PER_DAY,
    }
}

/// The age limit of a purge, in seconds.
pub fn age_limit_seconds(retention_days: u32, older_than_seconds: Option<i64>) -> (s: i64)
    ensures
        s == age_limit(retention_days, older_than_seconds),
{
    match older_than_seconds {
        Some(x) => x,
        None => {
            assert(retention_days * SECONDS_PER_DAY <= 4294967295 * 86400) by (nonlinear_arith)
                requires
                    retention_days <= 4294967295u32,
            ;
            retention_days as i64 * SECONDS_PER_DAY
        },
    }
}

/// The warning given when the older seconds flag is used.
pub fn older_than_seconds_warning() -> (w: String)
    ensures
        w@ == "--older-than-seconds is deprecated; use --retention-days"@,
{
    "--older-than-seconds is deprecated; use --retention-days".to_owned()
}

/// Fails with `Validation` when the age limit is negative.
pub fn validate_older_than(older_than_seconds: i64) -> (r: Result<(), AppError>)
    ensures
        r is Ok <==> older_than_seconds >= 0,
        r matches Err(e) ==> (e matches AppError::Validation(m) && m@
            == "older-than-seconds must be >= 0"@),
{
    if older_than_seconds < 0 {
        Err(AppError::Validation("older-than-seconds must be >= 0".to_owned()))
    } else {
        Ok(())
    }
}

/// The latest deletion time that is purged: `older_than_seconds` before
/// `now`. The inputs left out are those on which the subtraction
/// overflows.
pub fn cutoff_epoch(now: i64, older_than_seconds: i64) -> (c: i64)
    requires
        now - older_than_seconds >= i64::MIN,
        now - older_than_seconds <= i64::MAX,
    ensures
        c == now - older_than_seconds,
{
    now - older_than_seconds
}

/// The detail of the error for a named memory that is not among the
/// soft-deleted ones old enough to purge.
pub open spec fn purge_not_found_text(name: Seq<char>, namespace: Seq<char>) -> Seq<char> {
    "soft-deleted memory '"@ + name + "' not found in namespace '"@ + namespace + "'"@
}

/// Fails with `NotFound` when a name was given and no memory is to be
/// purged.
pub fn check_candidates(name: Option<&str>, namespace: &str, candidate_count: usize) -> (r: Result<
    (),
    AppError,
>)
    ensures
        r is Err <==> (candidate_count == 0 && name is Some),
        r matches Err(e) ==> (e matches AppError::NotFound(m) && m@ == purge_not_found_text(
            name.unwrap()@,
            namespace@,
        )),
{
    match name {
        Some(n) => {
            if candidate_count == 0 {
                Err(
                    AppError::NotFound(
                        concat5("soft-deleted memory '", n, "' not found in namespace '", namespace, "'"),
                    ),
                )
            } else {
                Ok(())
            }
        },
        None => Ok(()),
    }
}

/// The warning for a vector table whose rows of a purged memory could not
/// be removed.
pub open spec fn cleanup_warning_text(table: Seq<char>, memory_id: i64, error: Seq<char>) -> Seq<char> {
    table + " cleanup failed for memory_id "@ + decimal(memory_id as int) + ": "@ + error
}

/// The warning for `table` whose rows of memory `memory_id` could not be
/// removed, with the database's message `error`.
pub fn cleanup_warning(table: &str, memory_id: i64, error: &str) -> (w: String)
    ensures
        w@ == cleanup_warning_text(table@, memory_id, error@),
{
    let id = i64_to_decimal(memory_id);
    let head = concat3(table, " cleanup failed for memory_id ", id.as_str());
    concat3(head.as_str(), ": ", error)
}

} // verus!
