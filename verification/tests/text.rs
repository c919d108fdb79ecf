use ceres::identity::series_key;
use ceres::text::{
    bytes_eq, bytes_le, decimal_string, digit_text, hex_string, signed_decimal_string, str_eq,
    str_le,
};

#[test]
fn decimal_of_naturals() {
    assert_eq!(decimal_string(0), "0");
    assert_eq!(decimal_string(7), "7");
    assert_eq!(decimal_string(10), "10");
    assert_eq!(decimal_string(2022), "2022");
    assert_eq!(decimal_string(u64::MAX), "18446744073709551615");
}

#[test]
fn decimal_of_integers() {
    assert_eq!(signed_decimal_string(0), "0");
    assert_eq!(signed_decimal_string(-1), "-1");
    assert_eq!(signed_decimal_string(32767), "32767");
    assert_eq!(signed_decimal_string(-32768), "-32768");
    assert_eq!(signed_decimal_string(i32::MIN), "-2147483648");
    assert_eq!(signed_decimal_string(i32::MAX), "2147483647");
}

#[test]
fn hex_has_two_lower_case_digits_per_byte() {
    assert_eq!(hex_string(&[]), "");
    assert_eq!(hex_string(&[0x00, 0x0f, 0xa0, 0xff]), "000fa0ff");
    assert_eq!(hex_string(&[0x09, 0x8f, 0x6b]), "098f6b");
    assert_eq!(digit_text(0), "0");
    assert_eq!(digit_text(9), "9");
    assert_eq!(digit_text(10), "a");
    assert_eq!(digit_text(15), "f");
}

#[test]
fn bytes_order_lexicographically() {
    assert!(bytes_le(b"", b""));
    assert!(bytes_le(b"", b"a"));
    assert!(!bytes_le(b"a", b""));
    assert!(bytes_le(b"ab", b"abc"));
    assert!(!bytes_le(b"abc", b"ab"));
    assert!(bytes_le(b"abc", b"abd"));
    assert!(!bytes_le(b"abd", b"abc"));
    assert!(bytes_le(b"Z", b"a"));
    assert!(bytes_le(b"same", b"same"));
}

#[test]
fn strings_order_as_std_orders_them() {
    let words = ["", "a", "A", "ab", "b", "é", "z", "日本", "Zoo", "zoo", "a b", "a-b"];
    for x in words {
        for y in words {
            assert_eq!(str_le(x, y), x <= y);
            assert_eq!(str_eq(x, y), x == y);
        }
    }
}

#[test]
fn bytes_equality() {
    assert!(bytes_eq(b"", b""));
    assert!(bytes_eq(b"abc", b"abc"));
    assert!(!bytes_eq(b"abc", b"abd"));
    assert!(!bytes_eq(b"abc", b"ab"));
}

#[test]
fn key_is_the_hex_digest_of_the_slug() {
    assert_eq!(series_key("test"), "098f6bcd4621d373cade4e832627b4f6");
    assert_eq!(series_key("Test"), "098f6bcd4621d373cade4e832627b4f6");
    assert_eq!(series_key("  test!! "), "098f6bcd4621d373cade4e832627b4f6");
}

#[test]
fn key_of_the_empty_name_is_well_defined() {
    assert_eq!(series_key(""), "d41d8cd98f00b204e9800998ecf8427e");
    assert_eq!(series_key("!!!"), "d41d8cd98f00b204e9800998ecf8427e");
}

#[test]
fn names_with_one_slug_share_a_key() {
    let a = series_key("My Test String!!!1!1");
    let b = series_key("my-test-string-1-1");
    let c = series_key("MY TEST   STRING 1 1");
    assert_eq!(a, b);
    assert_eq!(a, c);
    assert_eq!(a.len(), 32);
    assert_ne!(a, series_key("my-test-string-1-2"));
    assert!(a.chars().all(|ch| ch.is_ascii_digit() || ('a'..='f').contains(&ch)));
}
