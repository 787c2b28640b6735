use gac::crypto::{decrypt, encrypt, seal_text, CryptoError};

#[test]
fn encrypt_then_decrypt_gives_the_plaintext_back() {
    let sealed = encrypt("correct horse", "sk-secret-ß").unwrap();
    assert_ne!(sealed, "sk-secret-ß");
    assert_eq!(decrypt("correct horse", &sealed), Ok("sk-secret-ß".to_string()));
}

#[test]
fn decrypt_with_another_password_fails() {
    let sealed = encrypt("pw-one", "key").unwrap();
    assert_eq!(decrypt("pw-two", &sealed), Err(CryptoError::Decryption));
}

#[test]
fn decrypt_rejects_malformed_text() {
    assert_eq!(decrypt("pw", "not base64!"), Err(CryptoError::Base64));
    assert_eq!(decrypt("pw", "AAAA"), Err(CryptoError::TooShort));
    assert_eq!(CryptoError::Decryption.message(), "failed to decrypt - wrong key or corrupted data");
    assert_eq!(CryptoError::TooShort.message(), "ciphertext too short");
}

#[test]
fn sealing_with_given_salt_and_nonce_opens_back() {
    let salt = [7u8; 16];
    let nonce = [3u8; 12];
    let sealed = seal_text("pw", "key-1", &salt, &nonce).unwrap();
    assert_eq!(decrypt("pw", &sealed), Ok("key-1".to_string()));
}

#[test]
fn different_nonces_give_different_texts() {
    let salt = [1u8; 16];
    let a = seal_text("pw", "k", &salt, &[0u8; 12]).unwrap();
    let b = seal_text("pw", "k", &salt, &[9u8; 12]).unwrap();
    assert_ne!(a, b);
    assert!(a.len() > 0 && b.len() == a.len());
}
