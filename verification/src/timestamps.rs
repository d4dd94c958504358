//! Rendering of Unix timestamps as RFC 3339 UTC text, and reading of a
//! timestamp given either as Unix seconds or as RFC 3339 text.
use vstd::prelude::*;
use vstd::string::*;

use crate::errors::AppError;

verus! {

/// The RFC 3339 form, in whole seconds and with the `Z` suffix, of the
/// UTC instant `epoch` seconds after 1970-01-01T00:00:00Z, as chrono's
/// `DateTime::<Utc>::from_timestamp(epoch, 0)` and
/// `to_rfc3339_opts(SecondsFormat::Secs, true)` give it; `None` where
/// `from_timestamp` finds the instant out of range.
pub uninterp spec fn rfc3339_utc(epoch: i64) -> Option<Seq<char>>;

/// The instants of the years 0 to 9999: from 0000-01-01T00:00:00Z to
/// 9999-12-31T23:59:59Z.
pub open spec fn in_four_digit_years(epoch: i64) -> bool {
    -62167219200 <= epoch <= 253402300799
}

/// `s` has the shape `YYYY-MM-DDTHH:MM:SSZ`: 20 characters with the
/// separators in place.
pub open spec fn has_rfc3339_utc_shape(s: Seq<char>) -> bool {
    &&& s.len() == 20
    &&& s[4] == '-'
    &&& s[7] == '-'
    &&& s[10] == 'T'
    &&& s[13] == ':'
    &&& s[16] == ':'
    &&& s[19] == 'Z'
}

/// Calls chrono's `DateTime::<Utc>::from_timestamp(epoch, 0)` and, on
/// success, `to_rfc3339_opts(SecondsFormat::Secs, true)`. The result is
/// claimed to be a function of `epoch` alone, named `rfc3339_utc`. Of the
/// text, only its shape for the years 0 to 9999 is claimed (chrono's
/// `write_rfc3339` writes four-digit years there, no fraction for
/// `Secs`, and `Z` for UTC); nothing is claimed of the digits, nor of the
/// range beyond those years that `from_timestamp` accepts.
#[verifier::external_body]
fn format_rfc3339_utc(epoch: i64) -> (r: Option<String>)
    ensures
        match r {
            Some(s) => rfc3339_utc(epoch) == Some(s@),
            None => rfc3339_utc(epoch) is None,
        },
        r is None ==> !in_four_digit_years(epoch),
        r matches Some(s) ==> (in_four_digit_years(epoch) ==> has_rfc3339_utc_shape(s@)),
{
    match chrono::DateTime::<chrono::Utc>::from_timestamp(epoch, 0) {
        Some(dt) => Some(dt.to_rfc3339_opts(chrono::SecondsFormat::Secs, true)),
        None => None,
    }
}

/// The formatted instant, or `fallback` when there is none.
pub open spec fn text_or(formatted: Option<Seq<char>>, fallback: Seq<char>) -> Seq<char> {
    match formatted {
        Some(s) => s,
        None => fallback,
    }
}

/// The formatted instant when there is one, else `fallback`.
pub fn iso_or_fallback(formatted: Option<String>, fallback: &str) -> (s: String)
    ensures
        s@ == text_or(
            match formatted {
                Some(t) => Some(t@),
                None => None,
            },
            fallback@,
        ),
{
    match formatted {
        Some(t) => t,
        None => fallback.to_owned(),
    }
}

/// The RFC 3339 UTC form of `epoch`, or the Unix epoch's own,
/// `1970-01-01T00:00:00Z`, when the instant is out of range.
pub fn epoch_to_iso(epoch: i64) -> (s: String)
    ensures
        s@ == text_or(rfc3339_utc(epoch), "1970-01-01T00:00:00Z"@),
        in_four_digit_years(epoch) ==> has_rfc3339_utc_shape(s@),
{
    iso_or_fallback(format_rfc3339_utc(epoch), "1970-01-01T00:00:00Z")
}

/// The RFC 3339 UTC form of `epoch`, or the empty text when the instant is
/// out of range.
pub fn epoch_to_iso_or_empty(epoch: i64) -> (s: String)
    ensures
        s@ == text_or(rfc3339_utc(epoch), Seq::empty()),
        in_four_digit_years(epoch) ==> has_rfc3339_utc_shape(s@),
{
    let r = iso_or_fallback(format_rfc3339_utc(epoch), "");
    proof {
        reveal_strlit("");
    }
    r
}

/// A decimal digit.
pub open spec fn is_digit_char(c: char) -> bool {
    '0' <= c <= '9'
}

/// `s` is one or more decimal digits.
pub open spec fn all_digits(s: Seq<char>) -> bool {
    s.len() >= 1 && forall|i: int| 0 <= i < s.len() ==> is_digit_char(#[trigger] s[i])
}

/// The number that the decimal digits `s` write.
pub open spec fn digits_value(s: Seq<char>) -> int
    decreases s.len(),
{
    if s.len() == 0 {
        0
    } else {
        digits_value(s.drop_last()) * 10 + (s.last() as int - '0' as int)
    }
}

/// The integer that `s` writes as `i64::from_str` reads it: an optional
/// `+` or `-`, then one or more decimal digits, and nothing else.
pub open spec fn signed_decimal(s: Seq<char>) -> Option<int> {
    if s.len() >= 1 && (s[0] == '+' || s[0] == '-') && all_digits(s.skip(1)) {
        Some(
            if s[0] == '-' {
                -digits_value(s.skip(1))
            } else {
                digits_value(s.skip(1))
            },
        )
    } else if all_digits(s) {
        Some(digits_value(s))
    } else {
        None
    }
}

/// The Unix seconds that `s` writes in decimal, when they fit an `i64`.
pub open spec fn epoch_seconds_value(s: Seq<char>) -> Option<i64> {
    match signed_decimal(s) {
        Some(v) => if i64::MIN <= v <= i64::MAX {
            Some(v as i64)
        } else {
            None
        },
        None => None,
    }
}

proof fn lemma_digits_value_nonneg(s: Seq<char>)
    requires
        forall|i: int| 0 <= i < s.len() ==> is_digit_char(#[trigger] s[i]),
    ensures
        digits_value(s) >= 0,
    decreases s.len(),
{
    if s.len() > 0 {
        lemma_digits_value_nonneg(s.drop_last());
    }
}

/// Digits after a prefix never make the number smaller.
proof fn lemma_digits_prefix_le(s: Seq<char>, k: int)
    requires
        0 <= k <= s.len(),
        forall|i: int| 0 <= i < s.len() ==> is_digit_char(#[trigger] s[i]),
    ensures
        digits_value(s.subrange(0, k)) <= digits_value(s),
    decreases s.len(),
{
    if k < s.len() {
        let t = s.drop_last();
        assert(t.subrange(0, k) =~= s.subrange(0, k));
        lemma_digits_prefix_le(t, k);
        lemma_digits_value_nonneg(t);
    } else {
        assert(s.subrange(0, k) =~= s);
    }
}

/// `signed_decimal` in terms of the digits after the optional sign.
proof fn lemma_signed_decimal_parts(s: Seq<char>, start: int)
    requires
        start < s.len(),
        start == (if s[0] == '+' || s[0] == '-' {
            1int
        } else {
            0int
        }),
    ensures
        signed_decimal(s) == (if all_digits(s.skip(start)) {
            Some(
                if s[0] == '-' {
                    -digits_value(s.skip(start))
                } else {
                    digits_value(s.skip(start))
                },
            )
        } else {
            None
        }),
{
    if start == 0 {
        assert(s.skip(0) =~= s);
    } else {
        assert(!is_digit_char(s[0]));
    }
}

/// The Unix seconds that `text` writes in decimal, as `str::parse::<i64>`
/// reads them; `None` where `text` is not such a number or it does not fit.
pub fn parse_epoch_seconds(text: &str) -> (r: Option<i64>)
    ensures
        r == epoch_seconds_value(text@),
{
    let n = text.unicode_len();
    if n == 0 {
        return None;
    }
    let first = text.get_char(0);
    let negative = first == '-';
    let start: usize = if first == '+' || first == '-' {
        1
    } else {
        0
    };
    if start == n {
        return None;
    }
    let ghost s = text@;
    let ghost digits = s.skip(start as int);
    proof {
        lemma_signed_decimal_parts(s, start as int);
    }
    let mut magnitude: u64 = 0;
    let mut i: usize = start;
    while i < n
        invariant
            s == text@,
            n == s.len(),
            start <= i <= n,
            start < n,
            digits == s.skip(start as int),
            signed_decimal(s) == (if all_digits(digits) {
                Some(
                    if negative {
                        -digits_value(digits)
                    } else {
                        digits_value(digits)
                    },
                )
            } else {
                None
            }),
            forall|k: int| start <= k < i ==> is_digit_char(#[trigger] s[k]),
            magnitude == digits_value(s.subrange(start as int, i as int)),
            magnitude <= 9223372036854775808u64,
        decreases n - i,
    {
        let c = text.get_char(i);
        if !('0' <= c && c <= '9') {
            proof {
                assert(digits[i - start] == c);
            }
            return None;
        }
        let d: u64 = (c as u32 - '0' as u32) as u64;
        proof {
            assert(s.subrange(start as int, i + 1).drop_last() =~= s.subrange(start as int, i as int));
        }
        if magnitude > (9223372036854775808u64 - d) / 10 {
            proof {
                assert(digits_value(s.subrange(start as int, i + 1)) > 9223372036854775808);
                if all_digits(digits) {
                    assert(digits.subrange(0, i + 1 - start) =~= s.subrange(start as int, i + 1));
                    lemma_digits_prefix_le(digits, i + 1 - start);
                }
            }
            return None;
        }
        magnitude = magnitude * 10 + d;
        i = i + 1;
    }
    proof {
        assert(s.subrange(start as int, n as int) =~= digits);
        assert(all_digits(digits));
    }
    if negative {
        if magnitude == 9223372036854775808u64 {
            Some(i64::MIN)
        } else {
            Some(-(magnitude as i64))
        }
    } else if magnitude > 9223372036854775807u64 {
        None
    } else {
        Some(magnitude as i64)
    }
}

/// The Unix seconds of the instant that the RFC 3339 text `text` writes,
/// as chrono's `DateTime::parse_from_rfc3339` and then `timestamp` give
/// them; `None` where `parse_from_rfc3339` refuses the text.
pub uninterp spec fn rfc3339_seconds(text: Seq<char>) -> Option<i64>;

/// Calls chrono's `DateTime::parse_from_rfc3339` and, on success,
/// `DateTime::timestamp`. The result is claimed to be a function of the
/// text alone, named `rfc3339_seconds`; nothing more is claimed of it.
#[verifier::external_body]
fn parse_rfc3339_seconds(text: &str) -> (r: Option<i64>)
    ensures
        r == rfc3339_seconds(text@),
{
    match chrono::DateTime::parse_from_rfc3339(text) {
        Ok(dt) => Some(dt.timestamp()),
        Err(_) => None,
    }
}

/// The instant that a timestamp argument names: its decimal Unix seconds,
/// else what reading it as RFC 3339 gave (`rfc3339`).
pub open spec fn timestamp_arg_value(text: Seq<char>, rfc3339: Option<i64>) -> Option<i64> {
    match epoch_seconds_value(text) {
        Some(v) => Some(v),
        None => rfc3339,
    }
}

/// The detail of the error for a timestamp argument that is neither.
pub open spec fn bad_timestamp_text(text: Seq<char>) -> Seq<char> {
    "expected Unix seconds or an RFC 3339 timestamp, got '"@ + text + "'"@
}

/// The instant that the timestamp argument `text` names, given what
/// reading it as RFC 3339 gave; a `Validation` error where it names none.
pub fn timestamp_arg_from(text: &str, rfc3339: Option<i64>) -> (r: Result<i64, AppError>)
    ensures
        match timestamp_arg_value(text@, rfc3339) {
            Some(v) => r matches Ok(x) && x == v,
            None => r matches Err(AppError::Validation(m)) && m@ == bad_timestamp_text(text@),
        },
{
    match parse_epoch_seconds(text) {
        Some(v) => Ok(v),
        None => match rfc3339 {
            Some(v) => Ok(v),
            None => {
                let mut m = "expected Unix seconds or an RFC 3339 timestamp, got '".to_owned();
                m.append(text);
                m.append("'");
                Err(AppError::Validation(m))
            },
        },
    }
}

/// The instant that a timestamp argument such as `--expected-updated-at`
/// names: decimal Unix seconds, or an RFC 3339 date and time; a
/// `Validation` error where it is neither.
pub fn parse_timestamp_arg(text: &str) -> (r: Result<i64, AppError>)
    ensures
        match timestamp_arg_value(text@, rfc3339_seconds(text@)) {
            Some(v) => r matches Ok(x) && x == v,
            None => r matches Err(AppError::Validation(m)) && m@ == bad_timestamp_text(text@),
        },
{
    match parse_epoch_seconds(text) {
        Some(v) => Ok(v),
        None => timestamp_arg_from(text, parse_rfc3339_seconds(text)),
    }
}

} // verus!
