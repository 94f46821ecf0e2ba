use password_manager_backend::crypto::Cryptographer;
use password_manager_backend::error_handling::CryptoError;
use password_manager_backend::master_password::MasterPasswordData;
use password_manager_backend::mek::MekData;
use password_manager_backend::password_entry::{DecryptedPasswordEntry, PasswordEntry};
use password_manager_backend::storage::ApplicationData;

fn record_with_secret(title: &str, secret: &str, mek: &[u8]) -> PasswordEntry {
    PasswordEntry::new(
        title.to_string(),
        None,
        Some(secret.as_bytes()),
        None,
        None,
        None,
        None,
        Some(mek),
    )
    .unwrap()
}

#[test]
fn a_record_accepts_its_secret_and_no_other() {
    for secret in [&b""[..], b"a", b"correct horse", &[0u8; 200]] {
        let record = MasterPasswordData::set_new_master_password(secret).unwrap();
        assert!(record.verify_master_password(secret));
        assert!(!record.verify_master_password(b"another secret"));
        assert_eq!(record.salt.len(), 16);
        assert_eq!(record.password_hash.len(), 32);
    }
}

#[test]
fn decrypt_inverts_encrypt() {
    let cryptographer = Cryptographer::new(Some(10));
    for data in [&b""[..], b"x", b"some bytes \x00\xff", &[7u8; 1000]] {
        for key in [&b""[..], b"k", &[1u8; 32]] {
            let sealed = cryptographer.encrypt(data, key).unwrap();
            assert_eq!(sealed.encrypted_data.len(), data.len() + 16);
            assert_eq!(cryptographer.decrypt(sealed, key).unwrap(), data);
        }
    }
}

#[test]
fn two_envelopes_share_neither_salt_nor_nonce() {
    let cryptographer = Cryptographer::new(Some(10));
    let first = cryptographer.encrypt(b"same", b"key").unwrap();
    let second = cryptographer.encrypt(b"same", b"key").unwrap();

    assert_ne!(first.nonce, second.nonce);
    assert_ne!(first.salt, second.salt);
    assert_ne!(first.encrypted_data, second.encrypted_data);
}

#[test]
fn rotation_keeps_the_root_key_and_the_salt() {
    let mut record = MekData::new(b"old secret").unwrap();
    let salt = record.mek_salt.clone();
    let envelope_salt = record.encrypted_mek.salt.clone();
    let mek = record.decrypt_mek(b"old secret").unwrap();
    assert_eq!(mek.len(), 32);

    let rotated = record.update_mek(b"old secret", b"new secret").unwrap();

    assert_eq!(record.decrypt_mek(b"new secret").unwrap(), mek);
    assert_eq!(rotated.decrypt_mek(b"new secret").unwrap(), mek);
    assert_eq!(record.mek_salt, salt);
    assert_ne!(record.encrypted_mek.salt, envelope_salt);
}

#[test]
fn rotation_shuts_out_the_old_secret() {
    let mut record = MekData::new(b"old secret").unwrap();
    record.update_mek(b"old secret", b"new secret").unwrap();

    assert!(matches!(
        record.decrypt_mek(b"old secret"),
        Err(CryptoError::KeyDerivationFailed)
    ));
}

#[test]
fn a_failed_rotation_changes_nothing() {
    let mut record = MekData::new(b"old secret").unwrap();
    let before = record.clone();

    assert!(matches!(
        record.update_mek(b"wrong secret", b"new secret"),
        Err(CryptoError::KeyDerivationFailed)
    ));

    assert_eq!(record.mek_salt, before.mek_salt);
    assert_eq!(
        record.encrypted_mek.encrypted_data,
        before.encrypted_mek.encrypted_data
    );
    assert!(record.decrypt_mek(b"old secret").is_ok());
}

#[test]
fn a_second_record_with_an_id_is_refused() {
    let mut vault = ApplicationData::new();
    let entry = PasswordEntry::default();
    let mut twin = PasswordEntry::default();
    twin.id = entry.id.clone();
    twin.title = "another title".to_string();

    vault.add_password_entry(entry).unwrap();
    let digest = vault.password_entries_hash.clone();

    assert!(matches!(
        vault.add_password_entry(twin),
        Err(CryptoError::PasswordEntryAlreadyExists)
    ));
    assert_eq!(vault.password_entries.len(), 1);
    assert_eq!(vault.password_entries_hash, digest);
}

#[test]
fn a_record_that_is_not_there_cannot_be_removed_or_updated() {
    let mut vault = ApplicationData::new();
    vault.add_password_entry(PasswordEntry::default()).unwrap();
    let digest = vault.password_entries_hash.clone();

    assert!(matches!(
        vault.remove_password_entry(PasswordEntry::default()),
        Err(CryptoError::PasswordEntryNotFound)
    ));
    assert!(matches!(
        vault.update_password_entry(&PasswordEntry::default()),
        Err(CryptoError::PasswordEntryNotFound)
    ));
    assert!(matches!(
        vault.find_password_entry(&PasswordEntry::default()),
        Err(CryptoError::PasswordEntryNotFound)
    ));
    assert_eq!(vault.password_entries.len(), 1);
    assert_eq!(vault.password_entries_hash, digest);
}

#[test]
fn a_change_moves_the_digests_of_what_it_touches_and_no_others() {
    let mut vault = ApplicationData::new();
    vault.add_master_password_data(b"correct horse").unwrap();
    assert!(vault.verify_hashes());
    let auth = vault.master_password_data_hash.clone();
    let key_wrap = vault.mek_data_hash.clone();
    let records = vault.password_entries_hash.clone();

    // Reading changes nothing.
    assert!(vault.verify_master_password(b"correct horse"));
    let mek = vault.decrypt_mek_data(b"correct horse").unwrap();
    let _ = vault.search_password_entries("e");
    let _ = vault.get_user_settings();
    let _ = vault.generate_password();
    assert_eq!(vault.master_password_data_hash, auth);
    assert_eq!(vault.mek_data_hash, key_wrap);
    assert_eq!(vault.password_entries_hash, records);

    // A new record moves the digest of the records alone.
    let entry = record_with_secret("email", "p@ss1", &mek);
    vault.add_password_entry(entry.clone()).unwrap();
    assert_eq!(vault.master_password_data_hash, auth);
    assert_eq!(vault.mek_data_hash, key_wrap);
    assert_ne!(vault.password_entries_hash, records);
    assert!(vault.verify_hashes());
    let records = vault.password_entries_hash.clone();

    // A new master secret moves the other two.
    vault
        .update_master_password_data(b"correct horse", b"new battery")
        .unwrap();
    assert_ne!(vault.master_password_data_hash, auth);
    assert_ne!(vault.mek_data_hash, key_wrap);
    assert_eq!(vault.password_entries_hash, records);
    assert!(vault.verify_hashes());
    let auth = vault.master_password_data_hash.clone();
    let key_wrap = vault.mek_data_hash.clone();

    // An updated record and a removed record move the records' alone.
    let mut updated = entry.clone();
    updated.title = "e-mail".to_string();
    vault.update_password_entry(&updated).unwrap();
    assert_eq!(vault.password_entries[0].title, "e-mail");
    assert_ne!(vault.password_entries_hash, records);
    let records = vault.password_entries_hash.clone();
    vault.remove_password_entry(updated).unwrap();
    assert!(vault.password_entries.is_empty());
    assert_ne!(vault.password_entries_hash, records);
    assert_eq!(vault.master_password_data_hash, auth);
    assert_eq!(vault.mek_data_hash, key_wrap);

    // New settings move none.
    let records = vault.password_entries_hash.clone();
    let mut settings = vault.get_user_settings().clone();
    settings.password_length = 20;
    vault.update_user_settings(settings).unwrap();
    assert_eq!(vault.get_user_settings().password_length, 20);
    assert_eq!(vault.master_password_data_hash, auth);
    assert_eq!(vault.mek_data_hash, key_wrap);
    assert_eq!(vault.password_entries_hash, records);
    assert!(vault.verify_hashes());
}

#[test]
fn a_vault_lives_through_a_change_of_its_master_secret() {
    let mut vault = ApplicationData::new();
    vault.add_master_password_data(b"correct horse").unwrap();

    assert!(vault.verify_master_password(b"correct horse"));
    assert!(!vault.verify_master_password(b"wrong"));

    let mek = vault.decrypt_mek_data(b"correct horse").unwrap();
    let entry = record_with_secret("email", "p@ss1", &mek);
    let sealed_before = entry.password.clone().unwrap().encrypted_data;
    vault.add_password_entry(entry).unwrap();
    let revealed = vault.password_entries[0].to_decrypted(&mek).unwrap();
    assert_eq!(revealed.title, "email");
    assert_eq!(revealed.password.as_deref(), Some("p@ss1"));

    vault
        .update_master_password_data(b"correct horse", b"new battery")
        .unwrap();

    assert!(!vault.verify_master_password(b"correct horse"));
    assert!(vault.verify_master_password(b"new battery"));
    assert!(matches!(
        vault.decrypt_mek_data(b"correct horse"),
        Err(CryptoError::AuthenticationFailed)
    ));
    let mek_after = vault.decrypt_mek_data(b"new battery").unwrap();
    assert_eq!(mek_after, mek);
    assert_eq!(
        vault.password_entries[0]
            .password
            .as_ref()
            .unwrap()
            .encrypted_data,
        sealed_before
    );
    let revealed = vault.password_entries[0].to_decrypted(&mek_after).unwrap();
    assert_eq!(revealed.password.as_deref(), Some("p@ss1"));
    assert!(vault.verify_hashes());
}

#[test]
fn a_damaged_record_is_noticed_and_does_not_open() {
    let mut vault = ApplicationData::new();
    vault.add_master_password_data(b"correct horse").unwrap();
    let mek = vault.decrypt_mek_data(b"correct horse").unwrap();
    vault
        .add_password_entry(record_with_secret("email", "p@ss1", &mek))
        .unwrap();
    assert!(vault.verify_hashes());

    vault.password_entries[0]
        .password
        .as_mut()
        .unwrap()
        .encrypted_data[0] ^= 0x01;

    assert!(!vault.verify_hashes());
    assert!(matches!(
        vault.password_entries[0].to_decrypted(&mek),
        Err(CryptoError::DecryptionFailed)
    ));
    assert!(matches!(
        DecryptedPasswordEntry::new_from_password_entry(vault.password_entries[0].clone(), &mek),
        Err(CryptoError::DecryptionFailed)
    ));
}

#[test]
fn a_damaged_digest_or_record_of_any_kind_is_noticed() {
    let mut vault = ApplicationData::new();
    vault.add_master_password_data(b"correct horse").unwrap();
    assert!(vault.verify_hashes());

    let digest = vault.mek_data_hash.clone();
    vault.mek_data_hash = Some("00".to_string());
    assert!(!vault.verify_hashes());
    vault.mek_data_hash = digest;
    assert!(vault.verify_hashes());

    vault.master_password_data.as_mut().unwrap().salt[3] ^= 0x80;
    assert!(!vault.verify_hashes());
    vault.master_password_data.as_mut().unwrap().salt[3] ^= 0x80;
    assert!(vault.verify_hashes());

    vault.mek_data.as_mut().unwrap().encrypted_mek.nonce[0] ^= 0x01;
    assert!(!vault.verify_hashes());
    assert!(matches!(
        vault.decrypt_mek_data(b"correct horse"),
        Err(CryptoError::KeyDerivationFailed)
    ));
}
