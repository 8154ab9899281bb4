use enthropic::store::{
    decrypt_data, encrypt_data, encrypt_data_with_nonce, key_from_bytes, load_or_create_key, open_secrets,
    seal_secrets, seal_secrets_with_nonce, SecretMap, StoreError,
};

fn sample() -> SecretMap {
    let mut m = SecretMap::new();
    m.insert("API_KEY", "abc123");
    m.insert("DB_URL", "postgres://localhost/db");
    m
}

#[test]
fn secret_map_insert_get_remove() {
    let mut m = SecretMap::new();
    assert_eq!(m.len(), 0);
    m.insert("A", "1");
    m.insert("B", "2");
    m.insert("A", "3");
    assert_eq!(m.len(), 2);
    assert_eq!(m.get("A"), Some("3".to_string()));
    assert_eq!(m.get("B"), Some("2".to_string()));
    assert_eq!(m.get("C"), None);
    assert!(m.contains_key("B"));
    assert_eq!(m.keys(), vec!["A".to_string(), "B".to_string()]);
    assert!(m.remove("A"));
    assert!(!m.remove("A"));
    assert_eq!(m.get("A"), None);
    assert_eq!(m.keys(), vec!["B".to_string()]);
}

#[test]
fn sealed_secrets_open_to_the_same_entries() {
    let key = load_or_create_key(None).unwrap();
    let m = sample();
    let sealed = seal_secrets(&key, &m).unwrap();
    let opened = open_secrets(&key, &sealed).unwrap();
    assert_eq!(opened.len(), 2);
    assert_eq!(opened.get("API_KEY"), Some("abc123".to_string()));
    assert_eq!(opened.get("DB_URL"), Some("postgres://localhost/db".to_string()));
}

#[test]
fn sealed_bytes_are_not_the_plain_json() {
    let key = [7u8; 32];
    let nonce = [1u8; 12];
    let m = sample();
    let sealed = seal_secrets_with_nonce(&key, &nonce, &m).unwrap();
    assert_eq!(&sealed[..12], &nonce[..]);
    let json_len = "{\"API_KEY\":\"abc123\",\"DB_URL\":\"postgres://localhost/db\"}".len();
    assert_eq!(sealed.len(), 12 + json_len + 16);
    let text = String::from_utf8_lossy(&sealed);
    assert!(!text.contains("abc123"));
    let plain = decrypt_data(&key, &sealed).unwrap();
    assert_eq!(
        String::from_utf8(plain).unwrap(),
        "{\"API_KEY\":\"abc123\",\"DB_URL\":\"postgres://localhost/db\"}"
    );
}

#[test]
fn two_seals_use_different_nonces() {
    let key = load_or_create_key(None).unwrap();
    let m = sample();
    let a = seal_secrets(&key, &m).unwrap();
    let b = seal_secrets(&key, &m).unwrap();
    assert_ne!(a, b);
}

#[test]
fn encrypt_then_decrypt_round_trips() {
    let key = [3u8; 32];
    let data = b"hello vault".to_vec();
    let enc = encrypt_data(&key, &data).unwrap();
    assert_eq!(enc.len(), 12 + data.len() + 16);
    assert_ne!(&enc[12..12 + data.len()], &data[..]);
    assert_eq!(decrypt_data(&key, &enc).unwrap(), data);
    let empty = encrypt_data(&key, b"").unwrap();
    assert_eq!(empty.len(), 28);
    assert_eq!(decrypt_data(&key, &empty).unwrap(), Vec::<u8>::new());
    assert!(matches!(decrypt_data(&key, &empty[..27]), Err(StoreError::DecryptionFailed(_))));
}

#[test]
fn encryption_with_a_fixed_nonce_is_deterministic() {
    let key = [9u8; 32];
    let nonce = [4u8; 12];
    let a = encrypt_data_with_nonce(&key, &nonce, b"same").unwrap();
    let b = encrypt_data_with_nonce(&key, &nonce, b"same").unwrap();
    assert_eq!(a, b);
    assert_eq!(&a[..12], &nonce[..]);
}

#[test]
fn short_ciphertext_is_refused() {
    let key = [0u8; 32];
    assert!(matches!(decrypt_data(&key, &[1, 2, 3]), Err(StoreError::CiphertextTooShort)));
    assert!(matches!(open_secrets(&key, &[0u8; 11]), Err(StoreError::CiphertextTooShort)));
}

#[test]
fn tampered_ciphertext_fails_to_decrypt() {
    let key = [5u8; 32];
    let mut enc = encrypt_data(&key, b"secret").unwrap();
    let last = enc.len() - 1;
    enc[last] ^= 1;
    assert!(matches!(decrypt_data(&key, &enc), Err(StoreError::DecryptionFailed(_))));
}

#[test]
fn wrong_key_fails_to_open() {
    let sealed = seal_secrets(&[1u8; 32], &sample()).unwrap();
    assert!(matches!(open_secrets(&[2u8; 32], &sealed), Err(StoreError::DecryptionFailed(_))));
}

#[test]
fn non_json_plaintext_is_a_json_error() {
    let key = [6u8; 32];
    let enc = encrypt_data(&key, b"not json").unwrap();
    assert!(matches!(open_secrets(&key, &enc), Err(StoreError::Json(_))));
}

#[test]
fn key_file_must_hold_32_bytes() {
    let bytes: Vec<u8> = (0u8..32).collect();
    let k = key_from_bytes(&bytes).unwrap();
    assert_eq!(k.to_vec(), bytes);
    assert!(matches!(key_from_bytes(&[0u8; 31]), Err(StoreError::KeyFileCorrupted(31))));
    assert!(matches!(key_from_bytes(&[0u8; 33]), Err(StoreError::KeyFileCorrupted(33))));
}

#[test]
fn existing_key_file_is_used_and_fresh_keys_differ() {
    let bytes = [42u8; 32];
    assert_eq!(load_or_create_key(Some(&bytes)).unwrap(), bytes);
    assert!(matches!(load_or_create_key(Some(&[1u8; 5])), Err(StoreError::KeyFileCorrupted(5))));
    let a = load_or_create_key(None).unwrap();
    let b = load_or_create_key(None).unwrap();
    assert_ne!(a, b);
}

#[test]
fn store_error_messages() {
    let key = [8u8; 32];
    assert_eq!(decrypt_data(&key, &[0u8; 3]).unwrap_err().message(), "Ciphertext too short");
    let mut enc = encrypt_data(&key, b"x").unwrap();
    enc[20] ^= 1;
    assert_eq!(decrypt_data(&key, &enc).unwrap_err().message(), "Decryption failed: aead::Error");
    assert_eq!(
        key_from_bytes(&[0u8; 7]).unwrap_err().message(),
        "Key file corrupted: expected 32 bytes, got 7"
    );
    let bad = encrypt_data(&key, b"[1]").unwrap();
    match open_secrets(&key, &bad) {
        Err(e) => assert!(!e.message().is_empty()),
        Ok(_) => panic!("expected a JSON error"),
    }
}
