use password_manager_backend::crypto::{Cryptographer, EncryptionKey, SecureData};

#[test]
fn test_encryption_key_zeroize() {
    let mut encryption_key = EncryptionKey { key: vec![1, 2, 3] };
    encryption_key.zeroize();

    assert_eq!(encryption_key.key, Vec::<u8>::new());
}

#[test]
fn test_secure_data_default() {
    let secure_data = SecureData::default();

    assert_eq!(secure_data.encrypted_data, Vec::<u8>::new());
    assert_eq!(secure_data.nonce, [0u8; 12]);
    assert_eq!(secure_data.salt, Vec::<u8>::new());
}

#[test]
fn test_cryptographer_new() {
    let cryptographer = Cryptographer::new(Some(1000));

    assert_eq!(cryptographer.iterations.get(), 1000);
}

#[test]
fn test_cryptographer_generate_salt() {
    let salt = Cryptographer::generate_salt();

    assert!(salt.is_ok());
    assert_eq!(salt.unwrap().len(), 16);
}

#[test]
fn test_cryptographer_generate_nonce() {
    let nonce = Cryptographer::generate_nonce();

    assert!(nonce.is_ok());
    assert_eq!(nonce.unwrap().len(), 12);
}

#[test]
fn test_cryptographer_encrypt_decrypt() {
    let cryptographer = Cryptographer::new(Some(100_000));
    let data = b"Test Data";
    let password = b"Test Password";

    let secure_data = cryptographer.encrypt(data, password).unwrap();
    let decrypted_data = cryptographer.decrypt(secure_data, password).unwrap();

    assert_eq!(decrypted_data, data);
}

#[test]
fn test_decrypt_with_incorrect_password() {
    let cryptographer = Cryptographer::new(None);
    let password = b"my_master_password";
    let wrong_password = b"wrong_password";
    let data = b"Sensitive data here";

    let encrypted_data = cryptographer.encrypt(data, password).unwrap();
    let decrypted_result = cryptographer.decrypt(encrypted_data, wrong_password);

    assert!(decrypted_result.is_err());
}
