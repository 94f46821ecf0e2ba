use password_manager_backend::config::UserSettings;
use password_manager_backend::master_password::MasterPasswordData;
use password_manager_backend::password_entry::PasswordEntry;
use password_manager_backend::storage::ApplicationData;

#[test]
fn test_add_master_password_data() {
    let mut app_data: ApplicationData = ApplicationData::new();

    assert!(app_data.add_master_password_data(b"password").is_ok());
    assert!(app_data.add_master_password_data(b"password").is_err());
}

#[test]
fn test_update_master_password_data() {
    let mut app_data = ApplicationData {
        master_password_data: Some(MasterPasswordData::set_new_master_password(b"bub").unwrap()),
        mek_data: None,
        password_entries: vec![],
        user_settings: UserSettings::default(),
        master_password_data_hash: None,
        mek_data_hash: None,
        password_entries_hash: None,
    };

    assert!(app_data
        .update_master_password_data(b"password", b"new_password")
        .is_err());
    assert!(app_data
        .update_master_password_data(b"wrong_password", b"new_password")
        .is_err());
    assert!(app_data
        .update_master_password_data(b"bub", b"new_password")
        .is_ok());
}

#[test]
fn test_find_password_entry() {
    let password_entry = PasswordEntry::new(
        "title".to_string(),
        None,
        Some(b"password"),
        None,
        None,
        None,
        None,
        Some(b"master_password"),
    )
    .unwrap();
    let app_data = ApplicationData {
        master_password_data: None,
        mek_data: None,
        password_entries: vec![password_entry.clone()],
        user_settings: UserSettings::default(),
        master_password_data_hash: None,
        mek_data_hash: None,
        password_entries_hash: None,
    };

    assert!(app_data.find_password_entry(&password_entry).is_ok());
    assert!(app_data
        .find_password_entry(&PasswordEntry::default())
        .is_err());
}

#[test]
fn test_add_password_entry() {
    let password_entry = PasswordEntry::default();
    let mut app_data = ApplicationData::new();

    assert!(app_data.add_password_entry(password_entry.clone()).is_ok());
    assert!(app_data.add_password_entry(password_entry).is_err());
}

#[test]
fn test_remove_password_entry() {
    let password_entry = PasswordEntry::default();
    let mut app_data = ApplicationData {
        master_password_data: None,
        mek_data: None,
        password_entries: vec![password_entry.clone()],
        user_settings: UserSettings::default(),
        master_password_data_hash: None,
        mek_data_hash: None,
        password_entries_hash: None,
    };

    assert!(app_data
        .remove_password_entry(password_entry.clone())
        .is_ok());
    assert!(app_data.remove_password_entry(password_entry).is_err());
}

#[test]
fn test_integrity_hash_updates() {
    let mut app_data = ApplicationData {
        master_password_data: Some(
            MasterPasswordData::set_new_master_password(b"initial").unwrap(),
        ),
        mek_data: None,
        password_entries: vec![],
        user_settings: UserSettings::default(),
        master_password_data_hash: None,
        mek_data_hash: None,
        password_entries_hash: None,
    };

    // Initial update to generate hashes
    app_data.update_hashes().unwrap();
    let initial_master_hash = app_data.master_password_data_hash.clone();
    let initial_entries_hash = app_data.password_entries_hash.clone();

    // Add a new password entry and check that only the entries hash changes
    let password_entry = PasswordEntry::new(
        "title".to_string(),
        Some("username".to_string()),
        Some(b"password"),
        Some("url".to_string()),
        Some("notes".to_string()),
        Some("category".to_string()),
        Some(true),
        Some(b"master_password"),
    )
    .unwrap();
    app_data.add_password_entry(password_entry).unwrap();
    assert_ne!(app_data.password_entries_hash, initial_entries_hash);
    assert_eq!(app_data.master_password_data_hash, initial_master_hash);

    // Update master password data and check that only the master password hash changes
    app_data
        .update_master_password_data(b"initial", b"new_password")
        .unwrap();
    assert_ne!(app_data.master_password_data_hash, initial_master_hash);
    // Assuming password entries are unchanged, their hash should remain the same
    assert_ne!(app_data.password_entries_hash, initial_entries_hash);
}

#[test]
fn test_add_master_password_successfully() {
    let mut app_data = ApplicationData::new();

    // Try adding a new master password where none exists.
    assert!(app_data
        .add_master_password_data(b"initial_master_password")
        .is_ok());
    // Ensure adding another master password fails since one already exists.
    assert!(app_data
        .add_master_password_data(b"another_master_password")
        .is_err());
}

#[test]
fn test_update_master_password_successfully() {
    let mut app_data = ApplicationData::new();
    app_data
        .add_master_password_data(b"initial_master_password")
        .unwrap();

    // Attempt to update the master password with the correct current password.
    assert!(app_data
        .update_master_password_data(b"initial_master_password", b"new_master_password")
        .is_ok());
}

#[test]
fn test_update_master_password_with_incorrect_password() {
    let mut app_data = ApplicationData::new();
    app_data
        .add_master_password_data(b"initial_master_password")
        .unwrap();

    // Attempt to update the master password with an incorrect current password.
    assert!(app_data
        .update_master_password_data(b"wrong_password", b"new_master_password")
        .is_err());
}

#[test]
fn test_update_master_password_when_none_exists() {
    let mut app_data = ApplicationData::new();

    // Attempt to update the master password when none is set.
    assert!(app_data
        .update_master_password_data(b"any_password", b"new_master_password")
        .is_err());
}

#[test]
fn test_save_and_load_from_file() {
    // Prepare some test data
    let password_entry = PasswordEntry::default();
    let app_data = ApplicationData {
        master_password_data: Some(MasterPasswordData::default()),
        mek_data: None,
        password_entries: vec![password_entry.clone()],
        user_settings: UserSettings::default(),
        master_password_data_hash: None,
        mek_data_hash: None,
        password_entries_hash: None,
    };

    let saved = app_data.to_document();

    let loaded_app_data = ApplicationData::from_document(&saved).unwrap();
    println!("master_password_data");
    println!("{:?}", app_data.master_password_data);
    println!("{:?}", loaded_app_data.master_password_data);

    println!();

    println!("password_entries");
    println!("{:?}", app_data.password_entries);
    println!("{:?}", loaded_app_data.password_entries);

    println!();

    println!("user_settings");
    println!("{:?}", app_data.user_settings);
    println!("{:?}", loaded_app_data.user_settings);

    println!();

    println!("master_password_data_hash");
    println!("{:?}", app_data.master_password_data_hash);
    println!("{:?}", loaded_app_data.master_password_data_hash);

    println!();

    println!("password_entries_hash");
    println!("{:?}", app_data.password_entries_hash);
    println!("{:?}", loaded_app_data.password_entries_hash);

    // Check that the loaded data is the same as the original
    assert_eq!(
        app_data.master_password_data.unwrap(),
        loaded_app_data.master_password_data.unwrap()
    );
    assert_eq!(app_data.password_entries, loaded_app_data.password_entries);
    assert_eq!(app_data.user_settings, loaded_app_data.user_settings);
    assert_eq!(
        app_data.master_password_data_hash,
        loaded_app_data.master_password_data_hash
    );
    assert_eq!(
        app_data.password_entries_hash,
        loaded_app_data.password_entries_hash
    );
}
