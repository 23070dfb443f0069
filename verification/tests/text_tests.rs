use tiny_web::text::{
    parse_unsigned_bytes, percent_decode_utf8, push_bytes, push_char, push_decimal, push_signed_decimal, push_str,
    string_from_utf8,
};

#[test]
fn percent_decoding_decodes_escapes() {
    assert_eq!(percent_decode_utf8("a%20b").as_deref(), Some("a b"));
    assert_eq!(percent_decode_utf8("%D0%B0").as_deref(), Some("а"));
    assert_eq!(percent_decode_utf8("100%").as_deref(), Some("100%"));
    assert_eq!(percent_decode_utf8("%zz").as_deref(), Some("%zz"));
}

#[test]
fn percent_decoding_refuses_invalid_utf8() {
    assert_eq!(percent_decode_utf8("%ff"), None);
}

#[test]
fn unsigned_parse_matches_std() {
    assert_eq!(parse_unsigned_bytes(b"8080", 65535), Some(8080));
    assert_eq!(parse_unsigned_bytes(b"+12", 65535), Some(12));
    assert_eq!(parse_unsigned_bytes(b"+", 65535), None);
    assert_eq!(parse_unsigned_bytes(b"", 65535), None);
    assert_eq!(parse_unsigned_bytes(b"65536", 65535), None);
    assert_eq!(parse_unsigned_bytes(b"65535", 65535), Some(65535));
    assert_eq!(parse_unsigned_bytes(b"12a", 65535), None);
    assert_eq!(parse_unsigned_bytes(b"-1", 65535), None);
    assert_eq!(parse_unsigned_bytes(b"007", 255), Some(7));
}

#[test]
fn decimal_text() {
    let mut v = b"x".to_vec();
    push_decimal(&mut v, 0);
    push_decimal(&mut v, 1234567890);
    assert_eq!(v, b"x01234567890".to_vec());
    let mut w = Vec::new();
    push_signed_decimal(&mut w, -42);
    push_signed_decimal(&mut w, 7);
    assert_eq!(w, b"-427".to_vec());
    let mut m = Vec::new();
    push_signed_decimal(&mut m, i64::MIN);
    assert_eq!(m, b"-9223372036854775808".to_vec());
}

#[test]
fn byte_and_char_helpers() {
    let mut v = Vec::new();
    push_bytes(&mut v, b"ab");
    push_str(&mut v, "cя");
    assert_eq!(v, "abcя".as_bytes().to_vec());
    let mut s = String::from("a");
    push_char(&mut s, 'я');
    assert_eq!(s, "aя");
    assert_eq!(string_from_utf8(b"ok".to_vec()).as_deref(), Some("ok"));
    assert_eq!(string_from_utf8(vec![0xff]), None);
}
