use baseperm::{Base32, Base64, Base64Urlsafe, DecodeContext};

#[test]
fn base64_alphabet_table() {
    let ctx = Base64 {};
    assert_eq!(
        ctx.alphabet(),
        b"ABCDEFGHIJKLMNOPQRSTUVWXYZabcdefghijklmnopqrstuvwxyz0123456789+/".to_vec()
    );
    assert_eq!(ctx.bitness(), 6);
}

#[test]
fn base64_urlsafe_alphabet_table() {
    let ctx = Base64Urlsafe {};
    assert_eq!(
        ctx.alphabet(),
        b"ABCDEFGHIJKLMNOPQRSTUVWXYZabcdefghijklmnopqrstuvwxyz0123456789-_".to_vec()
    );
    assert_eq!(ctx.bitness(), 6);
}

#[test]
fn base32_alphabet_table() {
    let ctx = Base32 {};
    assert_eq!(ctx.alphabet(), b"ABCDEFGHIJKLMNOPQRSTUVWXYZ234567".to_vec());
    assert_eq!(ctx.bitness(), 5);
}

#[test]
fn valid_byte_membership() {
    assert!(Base64 {}.is_valid_byte(b'+'));
    assert!(Base64 {}.is_valid_byte(b'/'));
    assert!(!Base64 {}.is_valid_byte(b'-'));
    assert!(!Base64 {}.is_valid_byte(b'='));
    assert!(Base64Urlsafe {}.is_valid_byte(b'-'));
    assert!(Base64Urlsafe {}.is_valid_byte(b'_'));
    assert!(!Base64Urlsafe {}.is_valid_byte(b'+'));
    assert!(Base32 {}.is_valid_byte(b'2'));
    assert!(Base32 {}.is_valid_byte(b'7'));
    assert!(!Base32 {}.is_valid_byte(b'0'));
    assert!(!Base32 {}.is_valid_byte(b'1'));
    assert!(!Base32 {}.is_valid_byte(b'a'));
}

#[test]
fn decode_against_known_bytes() {
    assert_eq!(Base64 {}.decode("Zm9v"), Some(b"foo".to_vec()));
    assert_eq!(Base64 {}.decode("Zg=="), Some(b"f".to_vec()));
    assert_eq!(Base64 {}.decode("A"), None);
    // Nonzero trailing bits are rejected by this decoder.
    assert_eq!(Base64 {}.decode("Zh=="), None);
    assert_eq!(Base64Urlsafe {}.decode("_w=="), Some(vec![0xff]));
    assert_eq!(Base64Urlsafe {}.decode("/w=="), None);
    assert_eq!(Base32 {}.decode("MZXW6==="), Some(b"foo".to_vec()));
    assert_eq!(Base32 {}.decode("1"), None);
}
