use toi_server::request::{classify_request, is_valid_utf8, request_payload, RequestClass};

#[test]
fn plain_request_is_dispatched() {
    assert!(matches!(classify_request(b"ping"), RequestClass::Dispatch));
    assert!(matches!(classify_request(b"SHOW DATABASES;"), RequestClass::Dispatch));
}

#[test]
fn close_keyword_any_case_anywhere() {
    assert!(matches!(classify_request(b"exit"), RequestClass::Close));
    assert!(matches!(classify_request(b"EXIT"), RequestClass::Close));
    assert!(matches!(classify_request(b"ExIt\r\n"), RequestClass::Close));
    assert!(matches!(classify_request(b"please exit now"), RequestClass::Close));
    assert!(matches!(classify_request(b"exi t"), RequestClass::Dispatch));
    assert!(matches!(classify_request(b"exi"), RequestClass::Dispatch));
}

#[test]
fn non_utf8_is_invalid() {
    assert!(matches!(classify_request(&[0xff, 0xfe]), RequestClass::Invalid));
    // A lone continuation byte.
    assert!(matches!(classify_request(&[0x80]), RequestClass::Invalid));
    // A truncated two-byte sequence.
    assert!(matches!(classify_request(&[0xc3]), RequestClass::Invalid));
}

#[test]
fn utf8_validation() {
    assert!(is_valid_utf8(b"plain ascii"));
    // Two-byte sequence.
    assert!(is_valid_utf8(&[0xc3, 0xa9]));
    // Three-byte sequence.
    assert!(is_valid_utf8(&[0xe2, 0x82, 0xac]));
    // Four-byte sequence.
    assert!(is_valid_utf8(&[0xf0, 0x9f, 0x92, 0x96]));
    assert!(is_valid_utf8(b""));

    // Overlong encoding.
    assert!(!is_valid_utf8(&[0xc0, 0x80]));
    assert!(!is_valid_utf8(&[0xe0, 0x80, 0x80]));
    // Surrogate half.
    assert!(!is_valid_utf8(&[0xed, 0xa0, 0x80]));
    // Beyond the last code point.
    assert!(!is_valid_utf8(&[0xf4, 0x90, 0x80, 0x80]));
    // Truncated sequences.
    assert!(!is_valid_utf8(&[0xe2, 0x82]));
    assert!(!is_valid_utf8(&[0xf0, 0x9f, 0x92]));
}

#[test]
fn payload_is_trimmed_at_the_end() {
    assert_eq!(request_payload(b"ping \r\n"), b"ping".to_vec());
    assert_eq!(request_payload(b"ping"), b"ping".to_vec());
    assert_eq!(request_payload(b"  ping"), b"  ping".to_vec());
    assert_eq!(request_payload(b" \t\r\n"), Vec::<u8>::new());
    assert_eq!(request_payload(b""), Vec::<u8>::new());
}
