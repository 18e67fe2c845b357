use kiro_rs::auth::{constant_time_eq, extract_api_key, lower_hex_string, verify_api_key};

#[test]
fn x_api_key_takes_precedence() {
    assert_eq!(extract_api_key(Some("k1"), Some("Bearer k2")), Some("k1".to_string()));
}

#[test]
fn bearer_token_is_used_without_x_api_key() {
    assert_eq!(extract_api_key(None, Some("Bearer abc def")), Some("abc def".to_string()));
    assert_eq!(extract_api_key(None, Some("Bearer ")), Some(String::new()));
}

#[test]
fn no_key_without_bearer_prefix() {
    assert_eq!(extract_api_key(None, Some("Basic abc")), None);
    assert_eq!(extract_api_key(None, Some("bearer abc")), None);
    assert_eq!(extract_api_key(None, None), None);
}

#[test]
fn constant_time_eq_compares_texts() {
    assert!(constant_time_eq("secret", "secret"));
    assert!(!constant_time_eq("secret", "secreT"));
    assert!(!constant_time_eq("secret", "secret1"));
    assert!(constant_time_eq("", ""));
}

#[test]
fn lower_hex_of_bytes() {
    assert_eq!(lower_hex_string(&[0x00, 0x0f, 0xa5, 0xff]), "000fa5ff");
}

#[test]
fn plain_key_verification() {
    assert!(verify_api_key("my-key", "my-key"));
    assert!(!verify_api_key("my-key", "other-key"));
}

#[test]
fn md5_key_verification() {
    // MD5("abc") = 900150983cd24fb0d6963f7d28e17f72
    assert!(verify_api_key("900150983cd24fb0d6963f7d28e17f72", "abc"));
    assert!(verify_api_key("900150983CD24FB0D6963F7D28E17F72", "abc") == false);
    assert!(!verify_api_key("900150983cd24fb0d6963f7d28e17f73", "abc"));
}

#[test]
fn hex_key_equal_to_server_key_is_read_as_digest() {
    let key = "0123456789abcdef0123456789abcdef";
    assert!(!verify_api_key(key, key));
}
