use fortress::codec::{decimal, hex_encode, hex_encode_upper, sha256, sha256_text, sha256_upper_prefix};
use fortress::text::{join, prefix_each, text_le, text_lt};

#[test]
fn hex_encoding_is_lowercase_two_digits_per_byte() {
    assert_eq!(hex_encode(&[0x00, 0x0f, 0xa5, 0xff]), "000fa5ff");
    assert_eq!(hex_encode(&[]), "");
}

#[test]
fn upper_hex_encoding_uses_capital_digits() {
    assert_eq!(hex_encode_upper(&[0x00, 0x0f, 0xa5, 0xff]), "000FA5FF");
}

#[test]
fn sha256_identity_of_known_inputs() {
    assert_eq!(
        sha256(b""),
        "sha256:e3b0c44298fc1c149afbf4c8996fb92427ae41e4649b934ca495991b7852b855"
    );
    assert_eq!(
        sha256_text("abc"),
        "sha256:ba7816bf8f01cfea414140de5dae2223b00361a396177a9cb410ff61f20015ad"
    );
}

#[test]
fn sha256_upper_prefix_takes_eight_digest_bytes() {
    assert_eq!(sha256_upper_prefix("abc"), "BA7816BF8F01CFEA");
}

#[test]
fn decimal_rendering_has_no_leading_zeros() {
    assert_eq!(decimal(0), "0");
    assert_eq!(decimal(7), "7");
    assert_eq!(decimal(1040), "1040");
    assert_eq!(decimal(u64::MAX), "18446744073709551615");
}

#[test]
fn text_order_is_lexicographic_by_characters() {
    assert!(text_lt("a", "b"));
    assert!(text_lt("ab", "abc"));
    assert!(!text_lt("b", "ab"));
    assert!(text_le("same", "same"));
}

#[test]
fn join_and_prefix_each() {
    let items = vec!["a".to_string(), "b".to_string(), "c".to_string()];
    assert_eq!(join(&items, ", "), "a, b, c");
    assert_eq!(join(&[], ", "), "");
    assert_eq!(prefix_each(&items, "x-"), vec!["x-a", "x-b", "x-c"]);
}
