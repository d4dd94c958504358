//! `edit`: changes the body or the description of a memory.
use vstd::prelude::*;
use vstd::string::*;
use vstd::utf8::encode_utf8;
use crate::constants::{MAX_MEMORY_BODY_LEN, MAX_MEMORY_DESCRIPTION_LEN};
use crate::errors::AppError;
use crate::hashing::{blake3_hex, body_hash};
use crate::render::{concat2, concat3, decimal, i64_to_decimal};

verus! {

/// Arguments of `edit`.
pub struct EditArgs {
    pub name: String,
    pub body: Option<String>,
    pub body_file: Option<String>,
    pub body_stdin: bool,
    pub description: Option<String>,
    pub expected_updated_at: Option<i64>,
    pub namespace: Option<String>,
    pub db: Option<String>,
}

/// The detail of the error for a stale `--expected-updated-at`.
pub open spec fn stale_lock_text(expected: i64, current: i64) -> Seq<char> {
    "optimistic lock conflict: expected updated_at="@ + decimal(expected as int)
        + ", but current is "@ + decimal(current as int)
}

/// Fails with `Conflict` when an expected `updated_at` is given and differs
/// from the current one.
pub fn check_expected_updated_at(expected: Option<i64>, current: i64) -> (r: Result<(), AppError>)
    ensures
        r is Ok <==> match expected {
            Some(x) => x == current,
            None => true,
        },
        r matches Err(e) ==> (e matches AppError::Conflict(m) && m@ == stale_lock_text(
            expected.unwrap(),
            current,
        )),
{
    match expected {
        Some(x) => {
            if x != current {
                let a = concat2(
                    "optimistic lock conflict: expected updated_at=",
                    i64_to_decimal(x).as_str(),
                );
                let b = concat3(a.as_str(), ", but current is ", i64_to_decimal(current).as_str());
                Err(AppError::Conflict(b))
            } else {
                Ok(())
            }
        },
        None => Ok(()),
    }
}

/// The detail of the error for a body that is too long.
pub open spec fn body_too_long_text() -> Seq<char> {
    "body exceeds "@ + decimal(MAX_MEMORY_BODY_LEN as int) + " chars"@
}

/// Fails with `LimitExceeded` when `body` holds more than
/// `MAX_MEMORY_BODY_LEN` bytes.
pub fn check_body_length(body: &str) -> (r: Result<(), AppError>)
    ensures
        r is Ok <==> body.spec_bytes().len() <= MAX_MEMORY_BODY_LEN,
        r matches Err(e) ==> (e matches AppError::LimitExceeded(m) && m@ == body_too_long_text()),
{
    if body.as_bytes().len() > MAX_MEMORY_BODY_LEN {
        let limit = i64_to_decimal(MAX_MEMORY_BODY_LEN as i64);
        Err(AppError::LimitExceeded(concat3("body exceeds ", limit.as_str(), " chars")))
    } else {
        Ok(())
    }
}

/// The detail of the error for a description that is too long.
pub open spec fn description_too_long_text() -> Seq<char> {
    "description exceeds "@ + decimal(MAX_MEMORY_DESCRIPTION_LEN as int) + " chars"@
}

/// Fails with `Validation` when a description is given that holds more
/// than `MAX_MEMORY_DESCRIPTION_LEN` bytes.
pub fn check_description_length(description: Option<&str>) -> (r: Result<(), AppError>)
    ensures
        r is Ok <==> match description {
            Some(d) => d.spec_bytes().len() <= MAX_MEMORY_DESCRIPTION_LEN,
            None => true,
        },
        r matches Err(e) ==> (e matches AppError::Validation(m) && m@
            == description_too_long_text()),
{
    match description {
        Some(d) => {
            if d.as_bytes().len() > MAX_MEMORY_DESCRIPTION_LEN {
                let limit = i64_to_decimal(MAX_MEMORY_DESCRIPTION_LEN as i64);
                Err(AppError::Validation(concat3("description exceeds ", limit.as_str(), " chars")))
            } else {
                Ok(())
            }
        },
        None => Ok(()),
    }
}

/// The fields that an edit writes.
pub struct EditedFields {
    pub body: String,
    pub description: String,
    pub body_hash: String,
}

/// The body and description after an edit (each new one where given, else
/// the current one) and the hash of the resulting body.
pub fn edited_fields(
    current_body: String,
    current_description: String,
    new_body: Option<String>,
    new_description: Option<String>,
) -> (f: EditedFields)
    ensures
        f.body@ == match new_body {
            Some(b) => b@,
            None => current_body@,
        },
        f.description@ == match new_description {
            Some(d) => d@,
            None => current_description@,
        },
        f.body_hash@ == blake3_hex(encode_utf8(f.body@)),
{
    let body = match new_body {
        Some(b) => b,
        None => current_body,
    };
    let description = match new_description {
        Some(d) => d,
        None => current_description,
    };
    let body_hash = body_hash(body.as_str());
    EditedFields { body, description, body_hash }
}

/// Fails with `Conflict` when the update touched no row: another process
/// changed or deleted the memory in between.
pub fn check_rows_updated(affected: usize) -> (r: Result<(), AppError>)
    ensures
        r is Ok <==> affected != 0,
        r matches Err(e) ==> (e matches AppError::Conflict(m) && m@
            == "optimistic lock conflict: memory was modified by another process"@),
{
    if affected == 0 {
        Err(
            AppError::Conflict(
                "optimistic lock conflict: memory was modified by another process".to_owned(),
            ),
        )
    } else {
        Ok(())
    }
}

} // verus!
