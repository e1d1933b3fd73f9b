use base64::engine::general_purpose::URL_SAFE_NO_PAD;
use base64::Engine;
use waterfall::{decrypt, encrypt, encrypt_with_nonce, ErrorKind};

#[test]
fn test_encryption_decryption() {
    let key = "super_secret_key";
    let original_text = "Hello, World!";

    let encrypted = encrypt(original_text, key).unwrap();
    let decrypted = decrypt(&encrypted, key).unwrap();

    assert_eq!(original_text, decrypted);
}

#[test]
fn test_decryption_with_wrong_key() {
    let key1 = "key1";
    let key2 = "key2";
    let original_text = "Hello, World!";

    let encrypted = encrypt(original_text, key1).unwrap();
    assert!(decrypt(&encrypted, key2).is_err());
}

#[test]
fn encrypted_form_is_nonce_then_tagged_ciphertext() {
    let nonce = [7u8; 24];
    let e = encrypt_with_nonce("abc", "k", nonce).unwrap();
    let raw = URL_SAFE_NO_PAD.decode(&e).unwrap();
    assert_eq!(&raw[..24], &nonce[..]);
    assert_eq!(raw.len(), 24 + 16 + 3);
    assert_ne!(&raw[24..], b"abc");
    assert_eq!(encrypt_with_nonce("abc", "k", nonce).unwrap(), e);
    assert_eq!(decrypt(&e, "k"), Ok("abc".to_string()));
}

#[test]
fn fresh_nonces_give_different_forms() {
    let a = encrypt("same", "k").unwrap();
    let b = encrypt("same", "k").unwrap();
    assert_ne!(a, b);
}

#[test]
fn decrypt_rejects_malformed_input() {
    assert_eq!(decrypt("not base64 !!", "k"), Err(ErrorKind::Crypto));
    assert_eq!(decrypt(&URL_SAFE_NO_PAD.encode([1u8; 10]), "k"), Err(ErrorKind::Crypto));
    let e = encrypt_with_nonce("abc", "k", [0u8; 24]).unwrap();
    let mut raw = URL_SAFE_NO_PAD.decode(&e).unwrap();
    let last = raw.len() - 1;
    raw[last] ^= 1;
    assert_eq!(decrypt(&URL_SAFE_NO_PAD.encode(&raw), "k"), Err(ErrorKind::Crypto));
}

#[test]
fn empty_text_round_trips() {
    let e = encrypt("", "k").unwrap();
    assert_eq!(decrypt(&e, "k"), Ok(String::new()));
}
