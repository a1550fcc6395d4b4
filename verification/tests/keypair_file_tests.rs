use moltchain_core::account::Keypair;
use moltchain_core::keypair_file::{
    decrypt_aes_gcm, encrypt_aes_gcm, is_truthy, keypair_password_from,
    plaintext_compat_allowed_from, require_runtime_keypair_password, seal_with_nonce, KeypairFile,
    KEYPAIR_ENCRYPTION_VERSION_AES_GCM, KEYPAIR_PASSWORD_ENV,
};

fn keypair() -> Keypair {
    Keypair::from_seed(&[7u8; 32])
}

#[test]
fn test_save_requires_password_when_encryption_is_required() {
    let err = KeypairFile::from_keypair(&keypair())
        .storage_form(None, true)
        .unwrap_err();
    assert!(err.contains(KEYPAIR_PASSWORD_ENV));
}

#[test]
fn test_encrypted_keypair_roundtrip() {
    let kp = keypair();
    let stored = KeypairFile::from_keypair(&kp)
        .storage_form(Some("correct horse battery staple"), true)
        .unwrap();
    assert_eq!(stored.encrypted, Some(true));
    assert_eq!(stored.encryption_version, Some(KEYPAIR_ENCRYPTION_VERSION_AES_GCM));
    assert_eq!(stored.salt.as_ref().unwrap().len(), 16);
    assert_ne!(stored.private_key, kp.to_seed().to_vec());

    let loaded = stored
        .open_loaded("mem.json", Some("correct horse battery staple"), false)
        .unwrap();
    assert_eq!(loaded.to_keypair().unwrap().pubkey(), kp.pubkey());
    assert_eq!(loaded.encrypted, None);
}

#[test]
fn test_wrong_password_fails() {
    let stored = KeypairFile::from_keypair(&keypair())
        .storage_form(Some("correct"), true)
        .unwrap();
    let err = stored.open_loaded("mem.json", Some("wrong"), false).unwrap_err();
    assert!(err.contains("decryption failed"));
}

#[test]
fn test_plaintext_policy() {
    let f = KeypairFile::from_keypair(&keypair());
    assert!(f.clone().open_loaded("id.json", None, false).unwrap_err().contains("not allowed"));
    let opened = f.clone().open_loaded("id.json", None, true).unwrap();
    assert_eq!(opened.public_key_base58, keypair().pubkey().to_base58());
    let stored = f.storage_form(Some("pw"), false).unwrap();
    assert!(stored.clone().open_loaded("id.json", None, true).unwrap_err().contains("requires"));
    assert!(stored.open_loaded("id.json", Some(""), true).unwrap_err().contains("non-empty"));
    let empty = KeypairFile::from_keypair(&keypair()).storage_form(Some(""), false).unwrap_err();
    assert!(empty.contains("is set but empty"));
}

#[test]
fn test_to_keypair_checks() {
    let mut f = KeypairFile::from_keypair(&keypair());
    assert_eq!(f.to_keypair().unwrap().to_seed(), [7u8; 32]);
    f.public_key_base58 = String::new();
    f.public_key = vec![];
    assert!(f.to_keypair().is_ok());
    f.public_key = vec![1u8; 32];
    assert!(f.to_keypair().err().unwrap().contains("publicKey does not match"));
    f.public_key = vec![];
    f.public_key_base58 = "abc".to_string();
    assert!(f.to_keypair().err().unwrap().contains("publicKeyBase58"));
    f.private_key = vec![1, 2, 3];
    assert_eq!(
        f.to_keypair().err().unwrap(),
        "Invalid privateKey length: expected 32 bytes, got 3"
    );
}

#[test]
fn test_aes_gcm_payload_roundtrip() {
    let key = [9u8; 32];
    let payload = encrypt_aes_gcm(b"secret seed", &key).unwrap();
    assert_eq!(payload.len(), 12 + 11 + 16);
    assert_eq!(decrypt_aes_gcm(&payload, &key).unwrap(), b"secret seed".to_vec());
    assert!(decrypt_aes_gcm(&payload, &[8u8; 32]).unwrap_err().contains("decryption failed"));
    assert!(decrypt_aes_gcm(&payload[..20], &key).unwrap_err().contains("too short"));
}

#[test]
fn test_password_policy_helpers() {
    assert!(is_truthy(" yes "));
    assert!(is_truthy("1"));
    assert!(!is_truthy("0"));
    assert!(!is_truthy("Yes"));
    assert_eq!(keypair_password_from(Some(String::new())), None);
    assert_eq!(keypair_password_from(Some("pw".to_string())), Some("pw".to_string()));
    assert!(plaintext_compat_allowed_from(None, Some("on")));
    assert!(!plaintext_compat_allowed_from(Some("off"), None));
    assert_eq!(require_runtime_keypair_password("validator", None, true), Ok(None));
    let err = require_runtime_keypair_password("validator", None, false).unwrap_err();
    assert_eq!(
        err,
        "validator requires LICHEN_KEYPAIR_PASSWORD to be set. Plaintext keypairs are only allowed with LICHEN_ALLOW_PLAINTEXT_KEYPAIRS=1 or LICHEN_LOCAL_DEV=1."
    );
}

#[test]
fn test_seal_with_nonce_and_encrypted_form() {
    let key = [3u8; 32];
    let nonce = [5u8; 12];
    let sealed = seal_with_nonce(b"seed bytes", &key, nonce).unwrap();
    assert_eq!(&sealed[..12], &nonce);
    assert_eq!(sealed.len(), 12 + 10 + 16);
    assert_eq!(decrypt_aes_gcm(&sealed, &key).unwrap(), b"seed bytes".to_vec());
    // The same nonce gives the same payload.
    assert_eq!(seal_with_nonce(b"seed bytes", &key, nonce).unwrap(), sealed);

    let plain = KeypairFile::from_keypair(&keypair());
    let salt = [9u8; 16];
    let f = plain.encrypted_form("pw", salt, nonce).unwrap();
    assert_eq!(f.encrypted, Some(true));
    assert_eq!(f.salt, Some(salt.to_vec()));
    assert_eq!(f.encryption_version, Some(KEYPAIR_ENCRYPTION_VERSION_AES_GCM));
    assert_eq!(&f.private_key[..12], &nonce);
    let opened = f.open_loaded("k.json", Some("pw"), false).unwrap();
    assert_eq!(opened.private_key, plain.private_key);
}

#[test]
fn test_trim_unicode_white_space() {
    assert!(is_truthy("\u{3000}yes\u{85}\t"));
    assert!(!is_truthy("y es"));
}
