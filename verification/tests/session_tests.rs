use password_manager_backend::config::UserSettings;
use password_manager_backend::error_handling::CryptoError;
use password_manager_backend::password_entry::{DecryptedPasswordEntry, PasswordEntry};
use password_manager_backend::session::SessionState;
use password_manager_backend::storage::ApplicationData;

fn plain(title: &str, secret: &str, category: Option<&str>, favorite: bool) -> DecryptedPasswordEntry {
    DecryptedPasswordEntry::new(
        title.to_string(),
        None,
        Some(secret.to_string()),
        None,
        None,
        category.map(|c| c.to_string()),
        Some(favorite),
    )
    .unwrap()
}

fn vault_with(entries: &[DecryptedPasswordEntry]) -> ApplicationData {
    let mut vault = ApplicationData::new();
    vault.add_master_password_data(b"correct horse").unwrap();
    let mek = vault.decrypt_mek_data(b"correct horse").unwrap();
    for entry in entries {
        vault
            .add_password_entry(entry.convert_to_encrypted(&mek).unwrap())
            .unwrap();
    }
    vault
}

#[test]
fn a_session_opens_with_the_master_secret() {
    let entries = [
        plain("mail", "p@ss1", Some("work"), true),
        plain("bank", "p@ss2", None, false),
    ];
    let vault = vault_with(&entries);
    let mek = vault.decrypt_mek_data(b"correct horse").unwrap();

    let session = SessionState::new(vault, b"correct horse").unwrap();

    assert_eq!(session.mek, mek);
    assert_eq!(session.password_entries.len(), 2);
    assert_eq!(session.password_entries[0].id, entries[0].id);
    assert_eq!(session.password_entries[0].password.as_deref(), Some("p@ss1"));
    assert_eq!(session.password_entries[1].password.as_deref(), Some("p@ss2"));
    assert!(session.user_settings == UserSettings::default());
}

#[test]
fn a_session_does_not_open_with_another_secret() {
    let vault = vault_with(&[plain("mail", "p@ss1", None, false)]);
    assert!(matches!(
        SessionState::new(vault, b"wrong"),
        Err(CryptoError::AuthenticationFailed)
    ));

    assert!(matches!(
        SessionState::new(ApplicationData::new(), b"any"),
        Err(CryptoError::AuthenticationFailed)
    ));
}

#[test]
fn a_session_does_not_open_over_a_damaged_record() {
    let mut vault = vault_with(&[
        plain("mail", "p@ss1", None, false),
        plain("bank", "p@ss2", None, false),
    ]);
    vault.password_entries[1]
        .password
        .as_mut()
        .unwrap()
        .encrypted_data[0] ^= 1;

    assert!(matches!(
        SessionState::new(vault, b"correct horse"),
        Err(CryptoError::DecryptionFailed)
    ));
}

#[test]
fn adding_a_record_with_a_known_id_replaces_it() {
    let first = plain("mail", "p@ss1", None, false);
    let second = plain("bank", "p@ss2", None, false);
    let mut session = SessionState::default();

    session.add_decrypted_password_entry(first.clone());
    session.add_decrypted_password_entry(second.clone());
    assert_eq!(session.password_entries.len(), 2);

    let mut changed = first.clone();
    changed.title = "e-mail".to_string();
    session.add_decrypted_password_entry(changed);

    assert_eq!(session.password_entries.len(), 2);
    assert_eq!(session.password_entries[0].title, "e-mail");
    assert_eq!(session.password_entries[0].id, first.id);
    assert_eq!(session.password_entries[1].id, second.id);
}

#[test]
fn finding_and_removing_go_by_id() {
    let first = plain("mail", "p@ss1", None, false);
    let second = plain("bank", "p@ss2", None, false);
    let third = plain("shop", "p@ss3", None, false);
    let mut session = SessionState::default();
    for entry in [&first, &second, &third] {
        session.add_decrypted_password_entry(entry.clone());
    }

    assert_eq!(session.get_password_entry(&second.id).unwrap().title, "bank");
    assert!(session.get_password_entry("no such id").is_none());

    session.remove_password_entry(&second.id);
    assert_eq!(session.password_entries.len(), 2);
    assert_eq!(session.password_entries[0].id, first.id);
    assert_eq!(session.password_entries[1].id, third.id);
    assert!(session.get_password_entry(&second.id).is_none());

    session.remove_password_entry("no such id");
    assert_eq!(session.password_entries.len(), 2);
    session.remove_password_entry(&first.id);
    session.remove_password_entry(&third.id);
    assert!(session.password_entries.is_empty());
}

#[test]
fn favorites_and_categories() {
    let mut session = SessionState::default();
    let entries = [
        plain("a", "1", Some("work"), true),
        plain("b", "2", Some("home"), false),
        plain("c", "3", None, true),
        plain("d", "4", Some("work"), false),
    ];
    for entry in &entries {
        session.add_decrypted_password_entry(entry.clone());
    }

    let favorites = session.get_favorites();
    assert_eq!(favorites.len(), 2);
    assert_eq!(favorites[0].id, entries[0].id);
    assert_eq!(favorites[1].id, entries[2].id);

    let mut categories = session.get_categories();
    categories.sort();
    assert_eq!(categories, vec!["home".to_string(), "work".to_string()]);
    assert!(SessionState::default().get_categories().is_empty());
}

#[test]
fn a_session_is_stored_as_it_stands() {
    let entries = [plain("mail", "p@ss1", None, false)];
    let mut vault = vault_with(&entries);
    let auth_digest = vault.master_password_data_hash.clone();
    let mut session = SessionState::new(
        ApplicationData {
            master_password_data: vault.master_password_data.clone(),
            mek_data: vault.mek_data.clone(),
            password_entries: vault.password_entries.clone(),
            user_settings: vault.user_settings.clone(),
            master_password_data_hash: None,
            mek_data_hash: None,
            password_entries_hash: None,
        },
        b"correct horse",
    )
    .unwrap();

    session.add_decrypted_password_entry(plain("bank", "p@ss2", None, true));
    let mut settings = UserSettings::default();
    settings.password_length = 30;
    session.update_user_settings(settings);
    session.save_to(&mut vault).unwrap();

    assert_eq!(vault.password_entries.len(), 2);
    assert_eq!(vault.user_settings.password_length, 30);
    assert_eq!(vault.master_password_data_hash, auth_digest);
    assert!(vault.verify_hashes());
    let reopened = SessionState::new(vault, b"correct horse").unwrap();
    assert_eq!(reopened.password_entries[0].password.as_deref(), Some("p@ss1"));
    assert_eq!(reopened.password_entries[1].password.as_deref(), Some("p@ss2"));
    assert_eq!(reopened.password_entries[1].title, "bank");
}

#[test]
fn closing_a_session_lets_go_of_its_secrets() {
    let mut session =
        SessionState::new(vault_with(&[plain("mail", "p@ss1", None, false)]), b"correct horse")
            .unwrap();
    assert_eq!(session.mek.len(), 32);

    session.zeroize();

    assert!(session.mek.is_empty());
    assert!(session.password_entries.is_empty());
    assert!(session.user_settings == UserSettings::default());
}

#[test]
fn a_record_at_rest_is_what_a_session_stores() {
    let entry = plain("mail", "p@ss1", None, false);
    let vault = vault_with(&[entry.clone()]);
    let stored: &PasswordEntry = &vault.password_entries[0];

    assert_eq!(stored.id, entry.id);
    assert!(stored.password.is_some());
}

#[test]
fn a_session_without_secrets_is_stored_with_nothing_sealed() {
    let mut vault = vault_with(&[plain("old", "secret", None, false)]);
    let auth_digest = vault.master_password_data_hash.clone();
    let key_wrap_digest = vault.mek_data_hash.clone();
    let records_digest = vault.password_entries_hash.clone();
    let mut session = SessionState::default();
    let first = DecryptedPasswordEntry::new(
        "mail".to_string(),
        Some("user".to_string()),
        None,
        None,
        Some("notes".to_string()),
        Some("work".to_string()),
        Some(true),
    )
    .unwrap();
    let second = DecryptedPasswordEntry::default();
    session.add_decrypted_password_entry(first.clone());
    session.add_decrypted_password_entry(second.clone());

    session.save_to(&mut vault).unwrap();

    assert_eq!(vault.password_entries.len(), 2);
    assert_eq!(vault.password_entries[0].id, first.id);
    assert_eq!(vault.password_entries[0].title, "mail");
    assert_eq!(vault.password_entries[0].username.as_deref(), Some("user"));
    assert_eq!(vault.password_entries[0].notes.as_deref(), Some("notes"));
    assert_eq!(vault.password_entries[0].category.as_deref(), Some("work"));
    assert_eq!(vault.password_entries[0].creation_date, first.creation_date);
    assert!(vault.password_entries[0].favorite);
    assert!(vault.password_entries[0].password.is_none());
    assert_eq!(vault.password_entries[1].id, second.id);
    assert!(vault.password_entries[1].password.is_none());
    assert!(vault.user_settings == UserSettings::default());
    assert_eq!(vault.master_password_data_hash, auth_digest);
    assert_eq!(vault.mek_data_hash, key_wrap_digest);
    assert_ne!(vault.password_entries_hash, records_digest);
    assert!(vault.verify_hashes());
}

#[test]
fn an_empty_session_empties_the_records_of_a_vault() {
    let mut vault = vault_with(&[plain("old", "secret", None, false)]);

    SessionState::default().save_to(&mut vault).unwrap();

    assert!(vault.password_entries.is_empty());
    assert_eq!(
        vault.password_entries_hash.as_deref(),
        Some("4f53cda18c2baa0c0354bb5f9a3ecbe5ed12ab4d8e11ba873c2f11161202b945")
    );
    assert!(vault.verify_master_password(b"correct horse"));
    assert!(vault.verify_hashes());
}

#[test]
fn the_working_set_of_a_vault_is_replaced_whole() {
    let mut vault = vault_with(&[plain("old", "secret", None, false)]);
    let auth_digest = vault.master_password_data_hash.clone();
    let first = PasswordEntry::default();
    let second = PasswordEntry::default();
    let mut settings = UserSettings::default();
    settings.min_symbol = 5;

    vault
        .replace_working_set(vec![first.clone(), second.clone()], settings)
        .unwrap();

    assert_eq!(vault.password_entries.len(), 2);
    assert_eq!(vault.password_entries[0].id, first.id);
    assert_eq!(vault.password_entries[1].id, second.id);
    assert_eq!(vault.user_settings.min_symbol, 5);
    assert_eq!(vault.master_password_data_hash, auth_digest);
    assert!(vault.verify_hashes());
}
