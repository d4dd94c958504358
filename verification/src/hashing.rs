//! Content hashes of memory bodies.
use vstd::prelude::*;
use vstd::string::*;

verus! {

/// The lowercase hexadecimal BLAKE3 digest of a byte string, as
/// `blake3::hash(..).to_hex()` writes it.
pub uninterp spec fn blake3_hex(bytes: Seq<u8>) -> Seq<char>;

/// A lowercase hexadecimal digit.
pub open spec fn is_lower_hex_digit(c: char) -> bool {
    ('0' <= c <= '9') || ('a' <= c <= 'f')
}

/// Calls `blake3::hash` and renders the digest with `Hash::to_hex`. The
/// digest is claimed to be a function of the bytes alone, named
/// `blake3_hex`, written as 64 lowercase hexadecimal digits (two per
/// byte of the 32-byte digest, from the table in `to_hex`); nothing is
/// claimed of which digits.
#[verifier::external_body]
fn blake3_hex_digest(input: &[u8]) -> (r: String)
    ensures
        r@ == blake3_hex(input@),
        r@.len() == 64,
        forall|i: int| 0 <= i < r@.len() ==> is_lower_hex_digit(#[trigger] r@[i]),
{
    blake3::hash(input).to_hex().to_string()
}

/// The hash stored beside a memory body: the BLAKE3 digest of its UTF-8
/// bytes, in lowercase hexadecimal.
pub fn body_hash(body: &str) -> (h: String)
    ensures
        h@ == blake3_hex(body.spec_bytes()),
        h@.len() == 64,
        forall|i: int| 0 <= i < h@.len() ==> is_lower_hex_digit(#[trigger] h@[i]),
{
    blake3_hex_digest(body.as_bytes())
}

} // verus!
