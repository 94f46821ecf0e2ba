use password_manager_backend::config::UserSettings;
use password_manager_backend::password_entry::{DecryptedPasswordEntry, PasswordEntry};
use password_manager_backend::storage::ApplicationData;

fn entry(title: &str, url: Option<&str>) -> PasswordEntry {
    PasswordEntry::new(
        title.to_string(),
        Some("user".to_string()),
        None,
        url.map(|u| u.to_string()),
        None,
        None,
        None,
        None,
    )
    .unwrap()
}

#[test]
fn a_new_record_has_a_fresh_id_and_what_it_was_given() {
    let first = PasswordEntry::new(
        "title".to_string(),
        None,
        Some(b"secret"),
        None,
        None,
        None,
        None,
        None,
    )
    .unwrap();
    let second = PasswordEntry::new(
        "title".to_string(),
        None,
        None,
        None,
        None,
        None,
        Some(false),
        Some(b"root key"),
    )
    .unwrap();

    assert_eq!(first.id.len(), 36);
    assert_eq!(first.id.matches('-').count(), 4);
    assert_ne!(first.id, second.id);
    assert!(first.password.is_none());
    assert!(second.password.is_none());
    assert!(!first.favorite);
    assert!(!second.favorite);
    assert!(!first.creation_date.is_empty());
    assert!(first != second);
}

#[test]
fn records_are_the_same_when_their_ids_are() {
    let first = PasswordEntry::default();
    let mut second = first.clone();
    second.title = "changed".to_string();
    let third = PasswordEntry::default();

    assert!(first == second);
    assert!(first != third);

    let plain = DecryptedPasswordEntry::default();
    let mut twin = plain.clone();
    twin.notes = Some("changed".to_string());
    assert!(plain == twin);
    assert!(plain != DecryptedPasswordEntry::default());
}

#[test]
fn display_name_has_title_user_and_address() {
    let with_all = entry("title", Some("https://example.com"));
    assert_eq!(
        with_all.display_name(),
        [
            "title".to_string(),
            "user".to_string(),
            "https://example.com".to_string()
        ]
    );

    let bare = PasswordEntry::default();
    assert_eq!(
        bare.display_name(),
        [String::new(), String::new(), String::new()]
    );

    let plain = with_all.to_decrypted(b"root key").unwrap();
    assert_eq!(plain.display_name(), with_all.display_name());
}

#[test]
fn protecting_and_revealing_are_inverse() {
    let plain = DecryptedPasswordEntry::new(
        "title".to_string(),
        Some("user".to_string()),
        Some("p\u{e4}ssw\u{f6}rd \u{1f511}".to_string()),
        Some("url".to_string()),
        Some("notes".to_string()),
        Some("category".to_string()),
        Some(true),
    )
    .unwrap();

    let sealed = plain.convert_to_encrypted(b"root key").unwrap();
    assert_eq!(sealed.id, plain.id);
    assert_eq!(sealed.title, plain.title);
    assert_eq!(sealed.username, plain.username);
    assert_eq!(sealed.url, plain.url);
    assert_eq!(sealed.notes, plain.notes);
    assert_eq!(sealed.creation_date, plain.creation_date);
    assert_eq!(sealed.category, plain.category);
    assert_eq!(sealed.favorite, plain.favorite);
    assert!(sealed.password.is_some());

    let revealed = sealed.to_decrypted(b"root key").unwrap();
    assert_eq!(revealed.password, plain.password);
    assert_eq!(revealed.id, plain.id);
    assert_eq!(revealed.title, plain.title);
    assert_eq!(revealed.username, plain.username);
    assert_eq!(revealed.url, plain.url);
    assert_eq!(revealed.notes, plain.notes);
    assert_eq!(revealed.creation_date, plain.creation_date);
    assert_eq!(revealed.category, plain.category);
    assert_eq!(revealed.favorite, plain.favorite);
}

#[test]
fn a_record_without_a_secret_field_has_none_on_either_side() {
    let plain = DecryptedPasswordEntry::default();
    let sealed = plain.convert_to_encrypted(b"root key").unwrap();
    assert!(sealed.password.is_none());
    assert!(sealed.to_decrypted(b"any key").unwrap().password.is_none());
}

#[test]
fn a_secret_that_is_no_text_is_revealed_as_empty() {
    let sealed = PasswordEntry::new(
        "title".to_string(),
        None,
        Some(&[0xff, 0xfe, 0x00]),
        None,
        None,
        None,
        None,
        Some(b"root key"),
    )
    .unwrap();

    assert_eq!(
        sealed.to_decrypted(b"root key").unwrap().password.as_deref(),
        Some("")
    );
}

#[test]
fn zeroizing_a_record_removes_its_secret() {
    let mut plain = DecryptedPasswordEntry::new(
        "title".to_string(),
        None,
        Some("secret".to_string()),
        None,
        None,
        None,
        None,
    )
    .unwrap();

    plain.zeroize();

    assert!(plain.password.is_none());
    assert_eq!(plain.title, "title");
}

#[test]
fn searching_looks_at_titles_and_addresses() {
    let mut vault = ApplicationData::new();
    let mail = entry("Mail", Some("https://mail.example.com"));
    let bank = entry("Bank", Some("https://bank.example.org"));
    let notes = entry("example notes", None);
    let other = entry("Other", None);
    for e in [&mail, &bank, &notes, &other] {
        vault.add_password_entry(e.clone()).unwrap();
    }

    let found = vault.search_password_entries("example");
    assert_eq!(found.len(), 3);
    assert_eq!(found[0].id, mail.id);
    assert_eq!(found[1].id, bank.id);
    assert_eq!(found[2].id, notes.id);

    assert_eq!(vault.search_password_entries("Bank").len(), 1);
    assert_eq!(vault.search_password_entries("bank").len(), 1);
    assert_eq!(vault.search_password_entries("user").len(), 0);
    assert_eq!(vault.search_password_entries("").len(), 4);
    assert_eq!(vault.search_password_entries("nowhere").len(), 0);
}

#[test]
fn finding_gives_the_place_of_the_first_record_with_the_id() {
    let first = PasswordEntry::default();
    let second = PasswordEntry::default();
    let mut twin = second.clone();
    twin.title = "twin".to_string();
    let mut vault = ApplicationData::new();
    vault.password_entries = vec![first.clone(), second.clone(), twin];

    assert_eq!(vault.find_password_entry(&first).unwrap(), 0);
    assert_eq!(vault.find_password_entry(&second).unwrap(), 1);

    // Updating and removing work on the first record with the id.
    let mut updated = second.clone();
    updated.title = "updated".to_string();
    vault.update_password_entry(&updated).unwrap();
    assert_eq!(vault.password_entries[1].title, "updated");
    assert_eq!(vault.password_entries[2].title, "twin");
    vault.remove_password_entry(second).unwrap();
    assert_eq!(vault.password_entries.len(), 2);
    assert_eq!(vault.password_entries[0].id, first.id);
    assert_eq!(vault.password_entries[1].title, "twin");
}

#[test]
fn default_settings() {
    let settings = UserSettings::default();

    assert_eq!(settings.password_length, 14);
    assert_eq!(settings.min_password_length, 10);
    assert!(settings.use_num);
    assert_eq!(settings.min_num, 2);
    assert!(settings.use_symbol);
    assert_eq!(settings.min_symbol, 2);
    assert!(settings.use_lower);
    assert!(settings.use_upper);
    assert!(settings == settings.clone());
    assert!(ApplicationData::new().get_user_settings() == &settings);
}

fn settings(length: u8, num: Option<u8>, symbol: Option<u8>, lower: bool, upper: bool) -> UserSettings {
    UserSettings {
        password_length: length,
        min_password_length: 0,
        use_num: num.is_some(),
        min_num: num.unwrap_or(0),
        use_symbol: symbol.is_some(),
        min_symbol: symbol.unwrap_or(0),
        use_lower: lower,
        use_upper: upper,
    }
}

#[test]
fn generated_passwords_follow_the_settings() {
    for _ in 0..20 {
        let password = UserSettings::default().generate_password();
        assert_eq!(password.chars().count(), 14);
        assert!(password.chars().filter(|c| c.is_ascii_digit()).count() >= 2);
        assert!(password.chars().filter(|c| "!@#$%^&*".contains(*c)).count() >= 2);
        assert!(password.chars().any(|c| c.is_ascii_lowercase()));
        assert!(password.chars().any(|c| c.is_ascii_uppercase()));
        assert!(password
            .chars()
            .all(|c| c.is_ascii_alphanumeric() || "!@#$%^&*".contains(c)));
    }

    let digits = settings(6, Some(0), None, false, false).generate_password();
    assert_eq!(digits.len(), 6);
    assert!(digits.chars().all(|c| c.is_ascii_digit()));

    // More digits than there are: all ten, each once, and nothing else.
    let all_digits = settings(4, Some(200), None, false, false).generate_password();
    assert_eq!(all_digits.len(), 10);
    let mut sorted: Vec<char> = all_digits.chars().collect();
    sorted.sort();
    assert_eq!(sorted, vec!['0', '1', '2', '3', '4', '5', '6', '7', '8', '9']);

    // The kinds ask for more than the length.
    let long = settings(3, Some(2), Some(2), true, true).generate_password();
    assert_eq!(long.len(), 6);

    assert_eq!(settings(0, None, None, false, false).generate_password(), "");
    assert_eq!(settings(0, None, None, true, false).generate_password().len(), 1);

    let mut vault = ApplicationData::new();
    assert_eq!(vault.generate_password().len(), 14);
}
