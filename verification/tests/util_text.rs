use ferrite_nn::text::{bytes_eq, str_eq};
use ferrite_nn::{parse_usize, usize_to_string};

#[test]
fn usize_to_string_renders_decimal() {
    assert_eq!(usize_to_string(0), "0");
    assert_eq!(usize_to_string(7), "7");
    assert_eq!(usize_to_string(204), "204");
    assert_eq!(usize_to_string(10_000), "10000");
}

#[test]
fn parse_usize_accepts_plain_digits() {
    assert_eq!(parse_usize("0"), Some(0));
    assert_eq!(parse_usize("42"), Some(42));
    assert_eq!(parse_usize("007"), Some(7));
}

#[test]
fn parse_usize_accepts_leading_plus() {
    assert_eq!(parse_usize("+12"), Some(12));
}

#[test]
fn parse_usize_rejects_junk() {
    assert_eq!(parse_usize(""), None);
    assert_eq!(parse_usize("+"), None);
    assert_eq!(parse_usize("-3"), None);
    assert_eq!(parse_usize("1.5"), None);
    assert_eq!(parse_usize("abc"), None);
    assert_eq!(parse_usize(" 3"), None);
}

#[test]
fn parse_usize_rejects_overflow() {
    assert_eq!(parse_usize("99999999999999999999999999"), None);
    assert_eq!(parse_usize(&usize::MAX.to_string()), Some(usize::MAX));
}

#[test]
fn byte_and_str_equality() {
    assert!(bytes_eq(b"abc", b"abc"));
    assert!(!bytes_eq(b"abc", b"abd"));
    assert!(!bytes_eq(b"abc", b"ab"));
    assert!(str_eq("hé", "hé"));
    assert!(!str_eq("hé", "he"));
}
