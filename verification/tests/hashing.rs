use minichain::digest::sha256_hex;
use minichain::encoding::{has_leading_zeros, push_decimal, push_text, same_text};

#[test]
fn sha256_of_the_empty_string() {
    assert_eq!(
        sha256_hex(b""),
        "e3b0c44298fc1c149afbf4c8996fb92427ae41e4649b934ca495991b7852b855"
    );
}

#[test]
fn sha256_of_abc() {
    assert_eq!(
        sha256_hex(b"abc"),
        "ba7816bf8f01cfea414140de5dae2223b00361a396177a9cb410ff61f20015ad"
    );
}

#[test]
fn hash_strings_are_64_lowercase_hex_characters() {
    let hash = sha256_hex(b"any input at all");
    assert_eq!(hash.len(), 64);
    assert!(hash.chars().all(|c| c.is_ascii_digit() || ('a'..='f').contains(&c)));
}

#[test]
fn decimal_of_zero_is_one_digit() {
    let mut buf = Vec::new();
    push_decimal(&mut buf, 0);
    assert_eq!(buf, b"0");
}

#[test]
fn decimal_has_no_padding() {
    let mut buf = Vec::new();
    push_decimal(&mut buf, 7);
    push_decimal(&mut buf, 10);
    push_decimal(&mut buf, 12345);
    assert_eq!(buf, b"71012345");
}

#[test]
fn decimal_of_the_largest_u64() {
    let mut buf = b"n=".to_vec();
    push_decimal(&mut buf, u64::MAX);
    assert_eq!(buf, b"n=18446744073709551615");
}

#[test]
fn text_is_appended_as_utf8() {
    let mut buf = b"<".to_vec();
    push_text(&mut buf, "Bøb");
    push_text(&mut buf, "");
    push_text(&mut buf, ">");
    assert_eq!(buf, "<Bøb>".as_bytes());
}

#[test]
fn same_text_compares_whole_strings() {
    assert!(same_text("Alice", "Alice"));
    assert!(same_text("", ""));
    assert!(!same_text("Alice", "Alicf"));
    assert!(!same_text("Alice", "Alic"));
    assert!(!same_text("", "A"));
}

#[test]
fn difficulty_zero_is_met_by_every_hash() {
    assert!(has_leading_zeros("abc", 0));
    assert!(has_leading_zeros("", 0));
}

#[test]
fn leading_zeros_are_counted_from_the_front() {
    assert!(has_leading_zeros("00ab", 1));
    assert!(has_leading_zeros("00ab", 2));
    assert!(!has_leading_zeros("00ab", 3));
    assert!(!has_leading_zeros("a000", 1));
    assert!(!has_leading_zeros("0a00", 2));
}

#[test]
fn a_hash_shorter_than_the_difficulty_fails() {
    assert!(has_leading_zeros("000", 3));
    assert!(!has_leading_zeros("000", 4));
    assert!(!has_leading_zeros("", 1));
}
