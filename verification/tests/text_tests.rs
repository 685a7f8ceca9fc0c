use parlan::text::{bytes_eq, i64_to_string, str_eq, substr, usize_to_string};

#[test]
fn signed_decimal() {
    assert_eq!(i64_to_string(0), "0");
    assert_eq!(i64_to_string(9), "9");
    assert_eq!(i64_to_string(10), "10");
    assert_eq!(i64_to_string(-10), "-10");
    assert_eq!(i64_to_string(i64::MIN), i64::MIN.to_string());
    assert_eq!(i64_to_string(i64::MAX), i64::MAX.to_string());
}

#[test]
fn unsigned_decimal() {
    assert_eq!(usize_to_string(0), "0");
    assert_eq!(usize_to_string(100), "100");
    assert_eq!(usize_to_string(usize::MAX), usize::MAX.to_string());
}

#[test]
fn byte_ranges_of_text() {
    assert_eq!(substr("hello world", 6, 11), "world");
    assert_eq!(substr("hello", 2, 2), "");
    assert_eq!(substr("añb", 1, 3), "ñ");
}

#[test]
fn equality_of_text() {
    assert!(str_eq("abc", "abc"));
    assert!(!str_eq("abc", "abd"));
    assert!(!str_eq("abc", "ab"));
    assert!(bytes_eq(&[1, 2], &[1, 2]));
    assert!(!bytes_eq(&[1, 2], &[2, 1]));
}
