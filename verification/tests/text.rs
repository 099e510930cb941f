use syllibot::text::{ascii_bytes_to_string, str_eq, u64_to_string};

#[test]
fn decimal_rendering() {
    assert_eq!(u64_to_string(0), "0");
    assert_eq!(u64_to_string(7), "7");
    assert_eq!(u64_to_string(120), "120");
    assert_eq!(u64_to_string(500), "500");
    assert_eq!(u64_to_string(u64::MAX), "18446744073709551615");
}

#[test]
fn ascii_conversion() {
    assert_eq!(ascii_bytes_to_string(b"hello".to_vec()), "hello");
    assert_eq!(ascii_bytes_to_string(Vec::new()), "");
}

#[test]
fn string_equality_over_views() {
    assert!(str_eq("", ""));
    assert!(str_eq("abc", "abc"));
    assert!(str_eq("čas 音", "čas 音"));
    assert!(!str_eq("abc", "abd"));
    assert!(!str_eq("abc", "abcd"));
    assert!(!str_eq("\u{1f1eb}\u{1f1f7}", "\u{1f1eb}\u{1f1ee}"));
}
