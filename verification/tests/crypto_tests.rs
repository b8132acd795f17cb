use device_notifier::config::Config;
use device_notifier::crypto::{CryptoError, SecurityManager};

#[test]
fn test_security_manager() {
    let config = Config::default();
    let mut security = SecurityManager::new(config);

    security.initialize_encryption().unwrap();

    let test_data = b"Hello, World!";
    let encrypted = security.encrypt_data(test_data).unwrap();
    let decrypted = security.decrypt_data(&encrypted).unwrap();

    assert_eq!(test_data, decrypted.as_slice());
}

#[test]
fn test_hmac_verification() {
    let config = Config::default();
    let security = SecurityManager::new(config);

    let data = "test_data";
    let secret = "test_secret";

    let hmac = security.generate_hmac(data, secret);
    let is_valid = security.verify_hmac(data, secret, &hmac);

    assert!(is_valid);
}

#[test]
fn encrypt_before_key_fails() {
    let security = SecurityManager::new(Config::default());
    assert_eq!(
        security.encrypt_data(b"data").unwrap_err(),
        CryptoError::KeyNotInitialized
    );
    assert_eq!(
        security.decrypt_data(&[0u8; 40]).unwrap_err(),
        CryptoError::KeyNotInitialized
    );
}

#[test]
fn decrypt_rejects_short_blob() {
    let mut security = SecurityManager::new(Config::default());
    security.initialize_encryption().unwrap();
    assert_eq!(
        security.decrypt_data(&[0u8; 27]).unwrap_err(),
        CryptoError::MalformedCiphertext
    );
}

#[test]
fn decrypt_rejects_tampered_blob() {
    let mut security = SecurityManager::new(Config::default());
    security.initialize_encryption().unwrap();
    let mut blob = security.encrypt_data(b"secret payload").unwrap();
    let last = blob.len() - 1;
    blob[last] ^= 0x01;
    assert_eq!(
        security.decrypt_data(&blob).unwrap_err(),
        CryptoError::AuthenticationFailure
    );
}

#[test]
fn encrypt_twice_uses_fresh_nonces() {
    let mut security = SecurityManager::new(Config::default());
    security.initialize_encryption().unwrap();
    let a = security.encrypt_data(b"same plaintext").unwrap();
    let b = security.encrypt_data(b"same plaintext").unwrap();
    assert_ne!(&a[..12], &b[..12]);
}

#[test]
fn encrypt_blob_has_nonce_and_tag_overhead() {
    let mut security = SecurityManager::new(Config::default());
    security.initialize_encryption().unwrap();
    let blob = security.encrypt_data(b"xyz").unwrap();
    assert_eq!(blob.len(), 3 + 28);
}

#[test]
fn initialize_encryption_is_idempotent() {
    let mut security = SecurityManager::new(Config::default());
    security.initialize_encryption().unwrap();
    let blob = security.encrypt_data(b"kept").unwrap();
    security.initialize_encryption().unwrap();
    assert_eq!(security.decrypt_data(&blob).unwrap(), b"kept".to_vec());
}

#[test]
fn hmac_mutation_fails_verification() {
    let security = SecurityManager::new(Config::default());
    let sig = security.generate_hmac("payload", "secret");
    assert!(!security.verify_hmac("payloae", "secret", &sig));
    assert!(!security.verify_hmac("payload", "secres", &sig));
    let mut bad = sig.clone().into_bytes();
    bad[0] = if bad[0] == b'A' { b'B' } else { b'A' };
    let bad = String::from_utf8(bad).unwrap();
    assert!(!security.verify_hmac("payload", "secret", &bad));
}

#[test]
fn password_hash_round_trip() {
    let security = SecurityManager::new(Config::default());
    let salt = security.generate_salt().unwrap();
    assert_eq!(salt.len(), 32);
    let hash = security.hash_password("hunter2", &salt);
    assert!(security.verify_password("hunter2", &salt, &hash));
    assert!(!security.verify_password("hunter3", &salt, &hash));
    assert!(!security.verify_password("hunter2", &[1, 2, 3], &hash));
}

#[test]
fn secure_random_string_has_requested_length() {
    let security = SecurityManager::new(Config::default());
    let s = security.generate_secure_random_string(17).unwrap();
    assert_eq!(s.chars().count(), 17);
}

#[test]
fn file_integrity_matches_digest() {
    let security = SecurityManager::new(Config::default());
    // The digest of a byte string equals the salted hash of the same text
    // with an empty salt, so one can produce the expected value.
    let expected = security.hash_password("abc", &[]);
    assert!(security.validate_file_integrity(b"abc", &expected));
    assert!(!security.validate_file_integrity(b"abd", &expected));
}

#[test]
fn device_id_hash_is_sha256_hex() {
    let hashed = device_notifier::crypto::hash_device_id("test");
    assert_eq!(
        hashed,
        "9f86d081884c7d659a2feaa0c55ad015a3bf4f1b2b0b822cd15d6c15b0f00a08"
    );
}

#[test]
fn security_status_reports_opt_outs() {
    let mut config = Config::default();
    config.user_consent.remote_commands_enabled = true;
    let mut security = SecurityManager::new(config);
    let before = security.get_security_status();
    assert!(!before.encryption_initialized);
    assert!(!before.hmac_secret_configured);
    assert!(before.remote_commands_enabled);
    assert!(before.audit_logging_enabled);
    security.initialize_encryption().unwrap();
    assert!(security.get_security_status().encryption_initialized);
}

#[test]
fn test_jwt_token() {
    let config = Config::default();
    let security = SecurityManager::new(config);

    let payload = "{\"user_id\":\"123\",\"exp\":3600}";
    let secret = "test_secret";
    let token = security.generate_jwt_token(payload, secret);
    let decoded = security.verify_jwt_token(&token, secret).unwrap();

    assert_eq!(decoded, payload);
    assert!(decoded.contains("\"user_id\":\"123\""));
}

#[test]
fn jwt_rejects_tampering() {
    let security = SecurityManager::new(Config::default());
    let token = security.generate_jwt_token("{\"k\":1}", "secret");
    assert!(security.verify_jwt_token(&token, "wrong").is_err());
    assert!(security.verify_jwt_token("not-a-token", "secret").is_err());
    assert!(security.verify_jwt_token("a.b", "secret").is_err());
    let mut tampered = token.clone();
    tampered.push('A');
    assert!(security.verify_jwt_token(&tampered, "secret").is_err());
}
