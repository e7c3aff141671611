use multi_thread_web_server::text::ascii_lower;
use multi_thread_web_server::text::bytes_eq;
use multi_thread_web_server::text::parse_decimal;
use multi_thread_web_server::text::trim_bytes;
use multi_thread_web_server::text::usize_to_string;

#[test]
fn decimal_rendering() {
    assert_eq!(usize_to_string(0), "0");
    assert_eq!(usize_to_string(7), "7");
    assert_eq!(usize_to_string(42), "42");
    assert_eq!(usize_to_string(1203), "1203");
    assert_eq!(usize_to_string(1000000), "1000000");
}

#[test]
fn decimal_parsing() {
    assert_eq!(parse_decimal(&b"0".to_vec()), Some(0));
    assert_eq!(parse_decimal(&b"42".to_vec()), Some(42));
    assert_eq!(parse_decimal(&b"007".to_vec()), Some(7));
    assert_eq!(parse_decimal(&b"".to_vec()), None);
    assert_eq!(parse_decimal(&b"4x2".to_vec()), None);
    assert_eq!(parse_decimal(&b"-1".to_vec()), None);
    assert_eq!(parse_decimal(&b"99999999999999999999999999".to_vec()), None);
}

#[test]
fn trimming_and_lower_casing() {
    assert_eq!(trim_bytes(&b"  hi \r\n".to_vec()), b"hi".to_vec());
    assert_eq!(trim_bytes(&b"".to_vec()), b"".to_vec());
    assert_eq!(trim_bytes(&b" \t ".to_vec()), b"".to_vec());
    assert_eq!(ascii_lower(&b"X-Token".to_vec()), b"x-token".to_vec());
    assert_eq!(ascii_lower(&b"abc123".to_vec()), b"abc123".to_vec());
}

#[test]
fn byte_string_comparison() {
    assert!(bytes_eq(&b"abc".to_vec(), &b"abc".to_vec()));
    assert!(!bytes_eq(&b"abc".to_vec(), &b"abd".to_vec()));
    assert!(!bytes_eq(&b"abc".to_vec(), &b"ab".to_vec()));
}
