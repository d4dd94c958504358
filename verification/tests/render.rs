use neurographrag::hashing::body_hash;
use neurographrag::render::{char_prefix, concat2, i64_to_decimal, str_equal};

#[test]
fn decimal_notation() {
    for n in [0i64, 7, 10, 99, 100, -1, -10, 1234567890, i64::MAX, i64::MIN] {
        assert_eq!(i64_to_decimal(n), n.to_string());
    }
}

#[test]
fn text_helpers() {
    assert_eq!(concat2("ab", "cd"), "abcd");
    assert!(str_equal("ção", "ção"));
    assert!(!str_equal("ção", "cao"));
    assert!(!str_equal("a", "ab"));
    assert_eq!(char_prefix("ação", 2), "aç");
    assert_eq!(char_prefix("ab", 5), "ab");
}

#[test]
fn body_hash_is_the_blake3_hex_digest() {
    assert_eq!(body_hash(""), "af1349b9f5f9a1a6a0404dea36dcc9499bcb25c9adc112b7cc9a93cae41f3262");
    let h = body_hash("hello");
    assert_eq!(h.len(), 64);
    assert!(h.chars().all(|c| c.is_ascii_hexdigit() && !c.is_ascii_uppercase()));
    assert_ne!(h, "hello");
    assert_eq!(h, body_hash("hello"));
}

#[test]
fn unsigned_decimal_rendering() {
    assert_eq!(neurographrag::render::u64_to_decimal(0), "0");
    assert_eq!(neurographrag::render::u64_to_decimal(1234), "1234");
    assert_eq!(neurographrag::render::u64_to_decimal(u64::MAX), u64::MAX.to_string());
}
