use password_manager_backend::config::UserSettings;
use password_manager_backend::password_entry::{DecryptedPasswordEntry, PasswordEntry};

#[test]
fn test_password_entry_new() {
    let title = "Test Title".to_string();
    let username = Some("Test User".to_string());
    let password = Some("Test Password".as_bytes());
    let url = Some("https://test.com".to_string());
    let notes = Some("Test Notes".to_string());
    let category = Some("Test Category".to_string());
    let favorite = Some(true);
    let master_pass = Some("Master Password".as_bytes());

    let password_entry = PasswordEntry::new(
        title.clone(),
        username.clone(),
        password,
        url.clone(),
        notes.clone(),
        category.clone(),
        favorite,
        master_pass,
    )
    .unwrap();

    assert_eq!(password_entry.title, title);
    assert_eq!(password_entry.username, username);
    assert_eq!(password_entry.url, url);
    assert_eq!(password_entry.notes, notes);
    assert_eq!(password_entry.category, category);
    assert_eq!(password_entry.favorite, favorite.unwrap());
}

#[test]
fn test_user_settings_generate_password() {
    let user_settings = UserSettings::default();
    let password = user_settings.generate_password();

    println!("password: {}", password);

    assert_eq!(password.len(), user_settings.password_length as usize);
}

#[test]
fn test_encrypt_to_decrypt() {
    let example_pass = "password".to_string();
    let password_entry = PasswordEntry::new(
        "title".to_string(),
        Some("username".to_string()),
        Some(example_pass.as_bytes()),
        Some("url".to_string()),
        Some("notes".to_string()),
        Some("category".to_string()),
        Some(true),
        Some(example_pass.as_bytes()),
    )
    .unwrap();

    let decrypted_password_entry =
        DecryptedPasswordEntry::new_from_password_entry(password_entry, example_pass.as_bytes())
            .ok()
            .unwrap();
    assert!(decrypted_password_entry.password.is_some());
    assert_eq!(decrypted_password_entry.password.as_ref().unwrap(), "password");
}
