use bitchy::irc::encrypt::{
    aes_gcm_decrypt, aes_gcm_encrypt, blowfish_decrypt, blowfish_encrypt, decode_from_irc,
    encode_for_irc, pkcs7_pad, pkcs7_unpad, CipherType, KeyStore,
};
#[test]
fn test_blowfish_roundtrip() {
    let key = b"secret_key";
    let plaintext = b"Hello, IRC!";
    let encrypted = blowfish_encrypt(key, plaintext).unwrap();
    let decrypted = blowfish_decrypt(key, &encrypted).unwrap();
    assert_eq!(decrypted, plaintext);
}

#[test]
fn test_blowfish_wrong_key() {
    let key = b"correct_key";
    let wrong_key = b"wrong_key!!";
    let plaintext = b"secret message";
    let encrypted = blowfish_encrypt(key, plaintext).unwrap();
    let result = blowfish_decrypt(wrong_key, &encrypted);
    assert!(result.is_err() || result.unwrap() != plaintext);
}

#[test]
fn test_blowfish_empty() {
    let key = b"test_key";
    let encrypted = blowfish_encrypt(key, b"").unwrap();
    let decrypted = blowfish_decrypt(key, &encrypted).unwrap();
    assert!(decrypted.is_empty());
}

#[test]
fn test_blowfish_exact_block_size() {
    let key = b"testkey1";
    let plaintext = b"12345678"; // exactly 8 bytes
    let encrypted = blowfish_encrypt(key, plaintext).unwrap();
    let decrypted = blowfish_decrypt(key, &encrypted).unwrap();
    assert_eq!(decrypted, plaintext);
}

#[test]
fn test_aes_gcm_roundtrip() {
    let key = b"my_secret_key";
    let plaintext = b"Hello, secure IRC!";
    let encrypted = aes_gcm_encrypt(key, plaintext).unwrap();
    let decrypted = aes_gcm_decrypt(key, &encrypted).unwrap();
    assert_eq!(decrypted, plaintext);
}

#[test]
fn test_aes_gcm_wrong_key() {
    let key = b"correct_key";
    let wrong_key = b"wrong_key!!";
    let plaintext = b"secret message";
    let encrypted = aes_gcm_encrypt(key, plaintext).unwrap();
    let result = aes_gcm_decrypt(wrong_key, &encrypted);
    assert!(result.is_err());
}

#[test]
fn test_aes_gcm_tampered_ciphertext() {
    let key = b"my_key";
    let plaintext = b"message";
    let mut encrypted = aes_gcm_encrypt(key, plaintext).unwrap();
    if let Some(last) = encrypted.last_mut() {
        *last ^= 0xFF;
    }
    assert!(aes_gcm_decrypt(key, &encrypted).is_err());
}

#[test]
fn test_aes_gcm_short_ciphertext() {
    let key = b"key";
    assert!(aes_gcm_decrypt(key, &[0u8; 5]).is_err());
}

#[test]
fn test_base64_roundtrip() {
    let data = b"Hello World!";
    let encoded = encode_for_irc(data);
    let decoded = decode_from_irc(&encoded).unwrap();
    assert_eq!(decoded, data);
}

#[test]
fn test_base64_invalid() {
    assert!(decode_from_irc("!!!not-valid-base64!!!").is_err());
}

#[test]
fn test_keystore_add_and_get() {
    let mut ks = KeyStore::new();
    ks.add_key("#channel", b"secret", CipherType::Blowfish);
    assert!(ks.get_key("#channel").is_some());
    assert!(ks.get_key("#CHANNEL").is_some());
}

#[test]
fn test_keystore_remove() {
    let mut ks = KeyStore::new();
    ks.add_key("#channel", b"secret", CipherType::Blowfish);
    let removed = ks.remove_key("#CHANNEL");
    assert!(removed.is_some());
    assert!(ks.get_key("#channel").is_none());
}

#[test]
fn test_keystore_is_encrypted() {
    let mut ks = KeyStore::new();
    assert!(!ks.is_encrypted("#channel"));
    ks.add_key("#channel", b"key", CipherType::AesGcm);
    assert!(ks.is_encrypted("#channel"));
    assert!(ks.is_encrypted("#CHANNEL"));
}

#[test]
fn test_keystore_list_keys() {
    let mut ks = KeyStore::new();
    ks.add_key("#a", b"k1", CipherType::Blowfish);
    ks.add_key("#b", b"k2", CipherType::AesGcm);
    let keys = ks.list_keys();
    assert_eq!(keys.len(), 2);
    assert!(keys.contains(&"#a"));
    assert!(keys.contains(&"#b"));
}

#[test]
fn test_keystore_encrypt_decrypt_blowfish() {
    let mut ks = KeyStore::new();
    ks.add_key("#secret", b"password123", CipherType::Blowfish);
    let encrypted = ks.encrypt_message("#secret", "Hello!").unwrap();
    let decrypted = ks.decrypt_message("#secret", &encrypted).unwrap();
    assert_eq!(decrypted, "Hello!");
}

#[test]
fn test_keystore_encrypt_decrypt_aes() {
    let mut ks = KeyStore::new();
    ks.add_key("Alice", b"shared_secret", CipherType::AesGcm);
    let encrypted = ks.encrypt_message("Alice", "Top secret!").unwrap();
    let decrypted = ks.decrypt_message("Alice", &encrypted).unwrap();
    assert_eq!(decrypted, "Top secret!");
}

#[test]
fn test_keystore_encrypt_unknown_target() {
    let ks = KeyStore::new();
    assert!(ks.encrypt_message("#unknown", "test").is_none());
}

#[test]
fn test_keystore_decrypt_unknown_target() {
    let ks = KeyStore::new();
    assert!(ks.decrypt_message("#unknown", "dGVzdA==").is_none());
}

#[test]
fn test_keystore_default() {
    let ks = KeyStore::default();
    assert!(!ks.is_encrypted("anything"));
}

#[test]
fn test_pkcs7_pad_unpad() {
    let data = b"Hello";
    let padded = pkcs7_pad(data, 8);
    assert_eq!(padded.len(), 8);
    assert_eq!(padded[5], 3);
    assert_eq!(padded[6], 3);
    assert_eq!(padded[7], 3);
    let unpadded = pkcs7_unpad(&padded).unwrap();
    assert_eq!(unpadded, data);
}

#[test]
fn test_pkcs7_pad_exact_block() {
    let data = b"12345678";
    let padded = pkcs7_pad(data, 8);
    assert_eq!(padded.len(), 16);
    let unpadded = pkcs7_unpad(&padded).unwrap();
    assert_eq!(unpadded, data);
}

#[test]
fn test_pkcs7_unpad_invalid() {
    assert!(pkcs7_unpad(&[]).is_err());
    assert!(pkcs7_unpad(&[0]).is_err());
    assert!(pkcs7_unpad(&[9, 9, 9, 9, 9, 9, 9, 9]).is_err());
}
