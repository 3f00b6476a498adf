use evfs::{EncUtils, FileSystemError, MAX_ENC_KEY_SIZE};

#[test]
fn test_enc_utils() {
    let key = EncUtils::generate_random_key();
    let enc_utils = EncUtils::new(key.clone()).expect("Failed to create EncUtils");
    let content = b"Hello, World!".to_vec();
    let encrypted = enc_utils.encrypt(content.clone()).expect("Encryption failed");
    let decrypted = enc_utils.decrypt(encrypted).expect("Decryption failed");
    assert_eq!(content, decrypted);
}

#[test]
fn test_invalid_key() {
    let invalid_key = vec![0u8; MAX_ENC_KEY_SIZE + 1];
    let result = EncUtils::new(invalid_key);
    assert!(result.is_err(), "Expected error for invalid key size");

    let empty_key = vec![];
    let result = EncUtils::new(empty_key);
    assert!(result.is_err(), "Expected error for empty key");

    let valid_key = vec![0u8; MAX_ENC_KEY_SIZE];
    let result = EncUtils::new(valid_key);
    assert!(result.is_ok(), "Expected success for valid key size");
}

#[test]
fn test_key_get_set() {
    let key = EncUtils::generate_random_key();
    let mut enc_utils = EncUtils::new(key.clone()).expect("Failed to create EncUtils");

    assert_eq!(enc_utils.get_key(), &key);

    let new_key = EncUtils::generate_random_key();
    enc_utils.set_key(new_key.clone()).expect("Failed to set new key");
    assert_eq!(enc_utils.get_key(), &new_key);

    let invalid_key = vec![0u8; MAX_ENC_KEY_SIZE + 1];
    let result = enc_utils.set_key(invalid_key);
    assert!(result.is_err(), "Expected error for invalid key size");
}

#[test]
fn test_key_exact_length_required() {
    // Every length other than the exact 32 bytes is rejected, shorter ones included.
    assert_eq!(
        EncUtils::new(vec![0u8; 0]).err(),
        Some(FileSystemError::InvalidKeySize)
    );
    assert_eq!(
        EncUtils::new(vec![0u8; MAX_ENC_KEY_SIZE - 1]).err(),
        Some(FileSystemError::InvalidKeySize)
    );
    assert_eq!(
        EncUtils::new(vec![0u8; 16]).err(),
        Some(FileSystemError::InvalidKeySize)
    );
    assert_eq!(
        EncUtils::new(vec![0u8; MAX_ENC_KEY_SIZE + 1]).err(),
        Some(FileSystemError::InvalidKeySize)
    );
    assert!(EncUtils::new(vec![0u8; MAX_ENC_KEY_SIZE]).is_ok());
}

#[test]
fn test_encrypt_output_shape() {
    // The blob is nonce + ciphertext + tag, never the plaintext handed back.
    let enc = EncUtils::new(vec![7u8; MAX_ENC_KEY_SIZE]).unwrap();
    let content = b"payload".to_vec();
    let blob = enc.encrypt(content.clone()).unwrap();
    assert_eq!(blob.len(), content.len() + 28);
    assert_ne!(&blob[12..12 + content.len()], content.as_slice());
}

#[test]
fn test_decrypt_truncated() {
    let enc = EncUtils::new(vec![7u8; MAX_ENC_KEY_SIZE]).unwrap();
    assert_eq!(
        enc.decrypt(vec![0u8; 5]).err(),
        Some(FileSystemError::TruncatedCiphertext)
    );
    assert_eq!(
        enc.decrypt(vec![]).err(),
        Some(FileSystemError::TruncatedCiphertext)
    );
}

#[test]
fn test_fresh_nonce_per_call() {
    // Two encryptions of the same plaintext draw different nonces, so the
    // blobs differ, and each still decrypts to the plaintext.
    let enc = EncUtils::new(vec![9u8; MAX_ENC_KEY_SIZE]).unwrap();
    let content = b"same plaintext".to_vec();
    let blob1 = enc.encrypt(content.clone()).unwrap();
    let blob2 = enc.encrypt(content.clone()).unwrap();
    assert_ne!(blob1, blob2);
    assert_eq!(enc.decrypt(blob1).unwrap(), content);
    assert_eq!(enc.decrypt(blob2).unwrap(), content);
}

#[test]
fn test_decrypt_wrong_key_fails_loudly() {
    let enc1 = EncUtils::new(vec![1u8; MAX_ENC_KEY_SIZE]).unwrap();
    let enc2 = EncUtils::new(vec![2u8; MAX_ENC_KEY_SIZE]).unwrap();
    let blob = enc1.encrypt(b"secret".to_vec()).unwrap();
    assert_eq!(
        enc2.decrypt(blob).err(),
        Some(FileSystemError::AuthenticationFailed)
    );
}
