//! `rename`: gives a memory a new name.
use vstd::prelude::*;
use vstd::string::*;
use vstd::utf8::{encode_utf8, is_ascii_chars, is_ascii_chars_encode_utf8};
use crate::constants::MAX_MEMORY_NAME_LEN;
use crate::errors::AppError;
use crate::render::{concat3, decimal, i64_to_decimal};

verus! {

/// Arguments of `rename`.
pub struct RenameArgs {
    pub name: String,
    pub new_name: String,
    pub expected_updated_at: Option<i64>,
    pub namespace: Option<String>,
    pub db: Option<String>,
}

/// A lowercase ASCII letter.
pub open spec fn is_lower_letter(c: char) -> bool {
    'a' <= c <= 'z'
}

/// A lowercase ASCII letter or a decimal digit.
pub open spec fn is_slug_char(c: char) -> bool {
    is_lower_letter(c) || ('0' <= c <= '9')
}

/// `s` matches `NAME_SLUG_REGEX`, `^[a-z][a-z0-9-]{0,78}[a-z0-9]$|^[a-z0-9]$`:
/// either one lowercase letter or digit, or 2 to 80 characters that start
/// with a lowercase letter, end with a lowercase letter or digit, and hold
/// only lowercase letters, digits and hyphens in between.
pub open spec fn is_name_slug(s: Seq<char>) -> bool {
    ||| (s.len() == 1 && is_slug_char(s[0]))
    ||| {
        &&& 2 <= s.len() <= 80
        &&& is_lower_letter(s[0])
        &&& is_slug_char(s[s.len() - 1])
        &&& forall|i: int| 0 < i < s.len() - 1 ==> is_slug_char(#[trigger] s[i]) || s[i] == '-'
    }
}

/// Whether `s` matches `NAME_SLUG_REGEX`.
pub fn is_name_slug_text(s: &str) -> (r: bool)
    ensures
        r == is_name_slug(s@),
{
    let n = s.unicode_len();
    if n == 0 || n > 80 {
        return false;
    }
    let first = s.get_char(0);
    let first_ok = ('a' <= first && first <= 'z') || ('0' <= first && first <= '9');
    if n == 1 {
        return first_ok;
    }
    if !('a' <= first && first <= 'z') {
        return false;
    }
    let last = s.get_char(n - 1);
    if !(('a' <= last && last <= 'z') || ('0' <= last && last <= '9')) {
        return false;
    }
    let mut i: usize = 1;
    while i < n - 1
        invariant
            n == s@.len(),
            2 <= n <= 80,
            1 <= i <= n - 1,
            forall|k: int| 0 < k < i ==> is_slug_char(#[trigger] s@[k]) || s@[k] == '-',
        decreases n - i,
    {
        let c = s.get_char(i);
        if !(('a' <= c && c <= 'z') || ('0' <= c && c <= '9') || c == '-') {
            return false;
        }
        i = i + 1;
    }
    true
}

/// Which new names `validate_new_name` accepts, stated over their
/// characters: exactly one character that is a lowercase ASCII letter or a
/// decimal digit; or 2 to 80 characters whose first is in `a`..`z`, whose
/// last is in `a`..`z` or `0`..`9`, and whose other characters are each in
/// `a`..`z`, `0`..`9` or `-`.
pub proof fn lemma_accepted_names(s: Seq<char>)
    ensures
        (0 < encode_utf8(s).len() <= MAX_MEMORY_NAME_LEN && is_name_slug(s)) <==> ({
            ||| (s.len() == 1 && (('a' <= s[0] && s[0] <= 'z') || ('0' <= s[0] && s[0] <= '9')))
            ||| {
                &&& 2 <= s.len() <= 80
                &&& 'a' <= s[0] && s[0] <= 'z'
                &&& ('a' <= s[s.len() - 1] && s[s.len() - 1] <= 'z') || ('0' <= s[s.len() - 1]
                    && s[s.len() - 1] <= '9')
                &&& forall|i: int|
                    0 < i < s.len() - 1 ==> ('a' <= #[trigger] s[i] && s[i] <= 'z') || ('0' <= s[i]
                        && s[i] <= '9') || s[i] == '-'
            }
        }),
{
    if is_name_slug(s) {
        assert(is_ascii_chars(s));
        is_ascii_chars_encode_utf8(s);
    }
    let c = ({
        ||| (s.len() == 1 && (('a' <= s[0] && s[0] <= 'z') || ('0' <= s[0] && s[0] <= '9')))
        ||| {
            &&& 2 <= s.len() <= 80
            &&& 'a' <= s[0] && s[0] <= 'z'
            &&& ('a' <= s[s.len() - 1] && s[s.len() - 1] <= 'z') || ('0' <= s[s.len() - 1] && s[s.len()
                - 1] <= '9')
            &&& forall|i: int|
                0 < i < s.len() - 1 ==> ('a' <= #[trigger] s[i] && s[i] <= 'z') || ('0' <= s[i] && s[i]
                    <= '9') || s[i] == '-'
        }
    });
    if c {
        assert(is_name_slug(s));
        assert(is_ascii_chars(s));
        is_ascii_chars_encode_utf8(s);
    }
}

/// A decimal digit anywhere but first never makes an accepted name
/// rejected: writing a digit in place of any character after the first of
/// an accepted name gives an accepted name again.
pub proof fn lemma_digits_after_the_first_are_accepted(s: Seq<char>, i: int, d: char)
    requires
        0 < encode_utf8(s).len() <= MAX_MEMORY_NAME_LEN && is_name_slug(s),
        0 < i < s.len(),
        '0' <= d <= '9',
    ensures
        0 < encode_utf8(s.update(i, d)).len() <= MAX_MEMORY_NAME_LEN && is_name_slug(s.update(i, d)),
{
    lemma_accepted_names(s);
    lemma_accepted_names(s.update(i, d));
    let t = s.update(i, d);
    assert forall|k: int| 0 < k < t.len() - 1 implies ('a' <= #[trigger] t[k] && t[k] <= 'z') || (
    '0' <= t[k] && t[k] <= '9') || t[k] == '-' by {
        if k != i {
            assert(t[k] == s[k]);
        }
    }
}

/// The detail of the error for a new name of the wrong length.
pub open spec fn name_length_text() -> Seq<char> {
    "new-name must be 1-"@ + decimal(MAX_MEMORY_NAME_LEN as int) + " chars"@
}

/// The detail of the error for a new name that does not match
/// `NAME_SLUG_REGEX`.
pub open spec fn not_slug_text(new_name: Seq<char>) -> Seq<char> {
    "new-name must be kebab-case slug (lowercase letters, digits, hyphens): '"@ + new_name + "'"@
}

/// Checks a new name: it must hold 1 to `MAX_MEMORY_NAME_LEN` bytes and
/// match `NAME_SLUG_REGEX`; otherwise `Validation`, the length checked
/// first.
pub fn validate_new_name(new_name: &str) -> (r: Result<(), AppError>)
    ensures
        r is Ok <==> (0 < new_name.spec_bytes().len() <= MAX_MEMORY_NAME_LEN && is_name_slug(
            new_name@,
        )),
        r matches Err(e) ==> (e matches AppError::Validation(m) && m@ == if 0
            < new_name.spec_bytes().len() <= MAX_MEMORY_NAME_LEN {
            not_slug_text(new_name@)
        } else {
            name_length_text()
        }),
{
    let len = new_name.as_bytes().len();
    if len == 0 || len > MAX_MEMORY_NAME_LEN {
        let limit = i64_to_decimal(MAX_MEMORY_NAME_LEN as i64);
        return Err(AppError::Validation(concat3("new-name must be 1-", limit.as_str(), " chars")));
    }
    if !is_name_slug_text(new_name) {
        return Err(
            AppError::Validation(
                concat3(
                    "new-name must be kebab-case slug (lowercase letters, digits, hyphens): '",
                    new_name,
                    "'",
                ),
            ),
        );
    }
    Ok(())
}

} // verus!
