use password_manager_backend::crypto::Cryptographer;
use password_manager_backend::error_handling::CryptoError;
use password_manager_backend::mek::MekData;
use password_manager_backend::storage::ApplicationData;

#[test]
fn test_mek_data_new_1() {
    let master_password = b"Test Master Password";
    let mek_data = MekData::new(master_password);

    assert!(mek_data.is_ok());
}

#[test]
fn test_mek_data_decrypt_mek() {
    let master_password = b"Test Master Password";
    let mek_data = MekData::new(master_password).unwrap();
    let decrypted_mek = mek_data.decrypt_mek(master_password);

    assert!(decrypted_mek.is_ok());
}

#[test]
fn test_mek_data_derive_mek_key() {
    let master_password = b"Test Master Password";
    let salt = vec![1, 2, 3];
    let derived_key = MekData::derive_mek_key(master_password, &salt);

    assert_eq!(derived_key.len(), 32);
}

#[test]
fn test_mek_data_new() {
    let master_password = "password".as_bytes();
    let mek_data = MekData::new(master_password)
        .map_err(|e| println!("{}", e.to_string()))
        .unwrap();
    println!("{:?}", mek_data);
    assert_eq!(mek_data.mek_salt.len(), 16);
    assert_ne!(mek_data.encrypted_mek.encrypted_data, master_password);
}

#[test]
fn test_decrypt_mek() {
    let master_password = "password".as_bytes();
    let mek_data = MekData::new(master_password).unwrap();
    let decrypted_mek = mek_data.decrypt_mek(master_password).unwrap();

    println!("Decrypted mek: {:?}", decrypted_mek);

    // Create a new Cryptographer and use it to encrypt the decrypted MEK
    let cryptographer = Cryptographer::new(None);
    let derived_key = MekData::derive_mek_key(master_password, &mek_data.mek_salt);
    let re_encrypted_mek = cryptographer.encrypt(&decrypted_mek, &derived_key).unwrap();
    let decrypted_mek_2 = cryptographer
        .decrypt(re_encrypted_mek.clone(), &derived_key)
        .unwrap();

    println!("Decrypted mek: {:?}", decrypted_mek_2);

    let derived_key_2 = MekData::derive_mek_key(master_password, &mek_data.mek_salt);
    let re_encrypted_mek_2 = cryptographer
        .encrypt(&decrypted_mek_2, &derived_key_2)
        .unwrap();
    let decrypted_mek_3 = cryptographer
        .decrypt(re_encrypted_mek_2.clone(), &derived_key_2)
        .unwrap();

    println!("Decrypted mek: {:?}", decrypted_mek_3);

    assert_eq!(decrypted_mek, decrypted_mek_2);

    assert_eq!(decrypted_mek_2, decrypted_mek_3);
}

#[test]
fn test_decrypt_reencrypt_mek() {
    let master_password = "password".as_bytes();

    // Generate a new MEK and encrypt it
    let mek_data = MekData::new(master_password).unwrap();

    // Decrypt the MEK
    let decrypted_mek = mek_data.decrypt_mek(master_password).unwrap();
    println!("Decrypted MEK: {:?}", decrypted_mek);

    // Re-encrypt the decrypted MEK using the same master password
    let re_encrypted_mek_data = mek_data
        .reencrypt_mek(master_password, &decrypted_mek)
        .unwrap();

    // Decrypt the re-encrypted MEK to verify it matches the original decryption
    let cryptographer = Cryptographer::new(None);
    let derived_key = MekData::derive_mek_key(master_password, &mek_data.mek_salt);
    let decrypted_re_encrypted_mek = cryptographer
        .decrypt(re_encrypted_mek_data.encrypted_mek, &derived_key)
        .unwrap();
    println!("Decrypted re-encrypted MEK: {:?}", decrypted_re_encrypted_mek);

    // Assert that the original decrypted MEK matches the decrypted re-encrypted MEK
    assert_eq!(
        decrypted_mek, decrypted_re_encrypted_mek,
        "The decrypted MEK should match the decrypted re-encrypted MEK."
    );
}

#[test]
fn test_update_mek() {
    let old_master_password = b"old_password";
    let new_master_password = b"new_password";
    let mut mek_data = MekData::new(old_master_password).unwrap();

    let original_decrypted_mek = mek_data.decrypt_mek(old_master_password).unwrap();
    // Update the MEK
    let _ = mek_data
        .update_mek(old_master_password, new_master_password)
        .unwrap();

    // Try to decrypt the MEK with the old password (should fail)
    assert!(mek_data.decrypt_mek(old_master_password).is_err());

    // Decrypt the MEK with the new password (should succeed)
    let decrypted_mek = mek_data.decrypt_mek(new_master_password).unwrap();

    println!("Decrypted MEK: {:?}", original_decrypted_mek);
    println!("Decrypted MEK: {:?}", decrypted_mek);

    assert_eq!(
        original_decrypted_mek, decrypted_mek,
        "The decrypted MEK should match the original decrypted MEK."
    );

    // assert that the decrypt with the new password works

    // Create a new Cryptographer and use it to encrypt the decrypted MEK
    let cryptographer = Cryptographer::new(None);
    let derived_key = MekData::derive_mek_key(new_master_password, &mek_data.mek_salt);
    let re_encrypted_mek = cryptographer.encrypt(&decrypted_mek, &derived_key).unwrap();
    let decrypted_mek_2 = cryptographer
        .decrypt(re_encrypted_mek.clone(), &derived_key)
        .unwrap();

    assert_eq!(decrypted_mek, decrypted_mek_2);
}

#[test]
fn test_update_mek_data() {
    let old_master_password = b"old_password";
    let new_master_password = b"new_password";
    let wrong_password = b"wrong_password";
    let mut storage = ApplicationData::new();

    let _ = storage.add_master_password_data(old_master_password);

    // Attempt to update the MEK with a wrong password (should fail)
    assert!(storage
        .update_mek_data(wrong_password, new_master_password)
        .is_err());

    // Update the MEK with the correct old password (should succeed)
    assert!(storage
        .update_master_password_data(old_master_password, new_master_password)
        .is_ok());
}

#[test]
fn test_mek_operations_2() {
    let password1 = b"password1";
    let password2 = b"password2";
    let password3 = b"password3";

    let mut app_data = ApplicationData::new();
    app_data.add_master_password_data(password1).unwrap();

    let mek_data_password1 = app_data.decrypt_mek_data(password1).unwrap();
    println!("MEK data: {:?}", mek_data_password1);

    app_data
        .update_master_password_data(password1, password2)
        .unwrap();

    println!("{}", app_data.verify_master_password(password1));
    println!("{}", app_data.verify_master_password(password2));

    let mek_data_password2 = app_data
        .decrypt_mek_data(password1)
        .map_err(|e: CryptoError| println!("{}", e.to_string()));
    println!("MEK data: {:?}", mek_data_password2);
    let mek_data_password3 = app_data
        .decrypt_mek_data(password2)
        .map_err(|e| println!("{}", e.to_string()))
        .unwrap();
    println!("MEK data: {:?}", mek_data_password3);

    let _ = app_data
        .update_master_password_data(password2, password3)
        .map_err(|e| println!("{}", e.to_string()));
    println!("{}", app_data.verify_master_password(password2));
    println!("{}", app_data.verify_master_password(password3));

    let mek_data_password4 = app_data
        .decrypt_mek_data(password2)
        .map_err(|e| println!("{}", e.to_string()));
    println!("MEK data: {:?}", mek_data_password4);
    let mek_data_password5 = app_data
        .decrypt_mek_data(password3)
        .map_err(|e| println!("{}", e.to_string()))
        .unwrap();
    println!("MEK data: {:?}", mek_data_password5);
}
