use concord_protocol::guard::{
    check_key_decrypt, check_key_encrypt, check_passphrase_decrypt, check_passphrase_encrypt,
    has_leading_zeros, MAX_MESSAGE_SIZE,
};

#[test]
fn encrypt_input_checks() {
    assert_eq!(check_key_encrypt(0, "age1x"), Some("Data cannot be empty".to_string()));
    assert_eq!(
        check_key_encrypt(MAX_MESSAGE_SIZE + 1, "age1x"),
        Some("Data too large (max 64MB)".to_string())
    );
    assert_eq!(check_key_encrypt(MAX_MESSAGE_SIZE, "age1x"), None);
    assert_eq!(check_key_encrypt(5, " \t\n"), Some("Public key cannot be empty".to_string()));
    assert_eq!(check_key_encrypt(5, "  age1x  "), None);
    assert_eq!(check_passphrase_encrypt(5, ""), Some("Passphrase cannot be empty".to_string()));
    assert_eq!(check_passphrase_encrypt(5, " "), None);
    assert_eq!(check_passphrase_encrypt(0, "pw"), Some("Data cannot be empty".to_string()));
}

#[test]
fn decrypt_input_checks() {
    assert_eq!(check_key_decrypt(0, "AGE-SECRET-KEY-1"), Some("Encrypted data cannot be empty".to_string()));
    assert_eq!(check_key_decrypt(3, "   "), Some("Private key cannot be empty".to_string()));
    assert_eq!(check_key_decrypt(3, "AGE-SECRET-KEY-1"), None);
    assert_eq!(check_passphrase_decrypt(3, ""), Some("Passphrase cannot be empty".to_string()));
    assert_eq!(check_passphrase_decrypt(0, ""), Some("Encrypted data cannot be empty".to_string()));
    assert_eq!(check_passphrase_decrypt(3, "pw"), None);
}

#[test]
fn leading_zeros() {
    assert!(has_leading_zeros("00ab", 2));
    assert!(!has_leading_zeros("00ab", 3));
    assert!(has_leading_zeros("abc", 0));
    assert!(!has_leading_zeros("0", 2));
    assert!(has_leading_zeros("00", 2));
}

#[test]
fn unicode_blank_keys_refused() {
    assert_eq!(
        check_key_encrypt(5, "\u{3000}\u{a0}\u{85}\u{2028}"),
        Some("Public key cannot be empty".to_string())
    );
    assert_eq!(check_key_decrypt(5, "\u{200b}"), None);
    assert_eq!(check_key_decrypt(5, ""), Some("Private key cannot be empty".to_string()));
    assert!(concord_protocol::guard::blank(" \t\r\n\u{b}\u{c}"));
    assert!(!concord_protocol::guard::blank(" x "));
}
