//! `history`: the stored versions of a memory.
use vstd::prelude::*;
use crate::timestamps::{epoch_to_iso_or_empty, has_rfc3339_utc_shape, in_four_digit_years, rfc3339_utc, text_or};

verus! {

/// Arguments of `history`.
pub struct HistoryArgs {
    pub name: String,
    pub namespace: Option<String>,
    pub db: Option<String>,
}

/// The RFC 3339 UTC form of a version's creation time, or the empty text
/// when the timestamp is out of range.
pub fn created_at_iso(created_at: i64) -> (s: String)
    ensures
        s@ == text_or(rfc3339_utc(created_at), Seq::empty()),
        in_four_digit_years(created_at) ==> has_rfc3339_utc_shape(s@),
{
    epoch_to_iso_or_empty(created_at)
}

} // verus!
