use password_manager_backend::config::UserSettings;
use password_manager_backend::crypto::SecureData;
use password_manager_backend::error_handling::CryptoError;
use password_manager_backend::master_password::MasterPasswordData;
use password_manager_backend::mek::MekData;
use password_manager_backend::password_entry::PasswordEntry;
use password_manager_backend::storage::ApplicationData;

const EMPTY: &str = "{\"masterPasswordData\":null,\"mekData\":null,\"passwordEntries\":[],\"userSettings\":{\"passwordLength\":14,\"minPasswordLength\":10,\"useNum\":true,\"minNum\":2,\"useSymbol\":true,\"minSymbol\":2,\"useLower\":true,\"useUpper\":true},\"masterPasswordDataHash\":null,\"mekDataHash\":null,\"passwordEntriesHash\":null}";

fn known_vault() -> ApplicationData {
    let envelope = SecureData {
        encrypted_data: vec![1, 2, 3],
        nonce: [0u8; 12],
        salt: vec![255, 0, 10],
    };
    let first = PasswordEntry {
        id: "id-1".to_string(),
        title: "say \"hi\"\\\n\t\u{1}\u{e9}".to_string(),
        username: None,
        password: None,
        url: Some("https://example.com".to_string()),
        notes: None,
        creation_date: "2024-01-01 00:00:00 UTC".to_string(),
        category: Some("mail".to_string()),
        favorite: true,
    };
    let second = PasswordEntry {
        id: "id-2".to_string(),
        title: String::new(),
        username: Some("bob".to_string()),
        password: Some(envelope.clone()),
        url: None,
        notes: Some("n".to_string()),
        creation_date: String::new(),
        category: None,
        favorite: false,
    };
    ApplicationData {
        master_password_data: Some(MasterPasswordData {
            salt: vec![0, 9, 10, 99, 100, 255],
            password_hash: vec![],
        }),
        mek_data: Some(MekData {
            encrypted_mek: envelope,
            mek_salt: vec![9, 99, 199],
        }),
        password_entries: vec![first, second],
        user_settings: UserSettings {
            password_length: 255,
            min_password_length: 0,
            use_num: false,
            min_num: 100,
            use_symbol: true,
            min_symbol: 9,
            use_lower: false,
            use_upper: true,
        },
        master_password_data_hash: Some("abc".to_string()),
        mek_data_hash: None,
        password_entries_hash: Some(String::new()),
    }
}

const KNOWN: &str = "{\"masterPasswordData\":{\"salt\":[0,9,10,99,100,255],\"password_hash\":[]},\"mekData\":{\"encrypted_mek\":{\"encrypted_data\":[1,2,3],\"nonce\":[0,0,0,0,0,0,0,0,0,0,0,0],\"salt\":[255,0,10]},\"mek_salt\":[9,99,199]},\"passwordEntries\":[{\"id\":\"id-1\",\"title\":\"say \\\"hi\\\"\\\\\\n\\t\\u0001\u{e9}\",\"username\":null,\"password\":null,\"url\":\"https://example.com\",\"notes\":null,\"creationDate\":\"2024-01-01 00:00:00 UTC\",\"category\":\"mail\",\"favorite\":true},{\"id\":\"id-2\",\"title\":\"\",\"username\":\"bob\",\"password\":{\"encrypted_data\":[1,2,3],\"nonce\":[0,0,0,0,0,0,0,0,0,0,0,0],\"salt\":[255,0,10]},\"url\":null,\"notes\":\"n\",\"creationDate\":\"\",\"category\":null,\"favorite\":false}],\"userSettings\":{\"passwordLength\":255,\"minPasswordLength\":0,\"useNum\":false,\"minNum\":100,\"useSymbol\":true,\"minSymbol\":9,\"useLower\":false,\"useUpper\":true},\"masterPasswordDataHash\":\"abc\",\"mekDataHash\":null,\"passwordEntriesHash\":\"\"}";

fn refused(document: &str) -> bool {
    matches!(
        ApplicationData::from_document(document.as_bytes()),
        Err(CryptoError::Serde(_))
    )
}

#[test]
fn the_document_of_an_empty_vault() {
    let document = ApplicationData::new().to_document();

    assert_eq!(String::from_utf8(document).unwrap(), EMPTY);
}

#[test]
fn the_document_of_a_known_vault() {
    let document = known_vault().to_document();

    assert_eq!(String::from_utf8(document).unwrap(), KNOWN);
}

#[test]
fn the_document_is_json() {
    let value: serde_json::Value = serde_json::from_slice(&known_vault().to_document()).unwrap();

    assert_eq!(value["masterPasswordData"]["salt"][5], 255);
    assert_eq!(value["mekData"]["encrypted_mek"]["nonce"].as_array().unwrap().len(), 12);
    assert_eq!(value["passwordEntries"][0]["title"], "say \"hi\"\\\n\t\u{1}\u{e9}");
    assert_eq!(value["passwordEntries"][1]["username"], "bob");
    assert!(value["passwordEntries"][1]["url"].is_null());
    assert_eq!(value["userSettings"]["minNum"], 100);
    assert_eq!(value["userSettings"]["useUpper"], true);
    assert_eq!(value["masterPasswordDataHash"], "abc");
    assert!(value["mekDataHash"].is_null());
    assert_eq!(value.as_object().unwrap().len(), 7);
}

#[test]
fn a_known_document_is_read_as_the_known_vault() {
    let vault = ApplicationData::from_document(KNOWN.as_bytes()).unwrap();
    let known = known_vault();

    assert!(vault.master_password_data == known.master_password_data);
    assert_eq!(vault.mek_data.as_ref().unwrap().mek_salt, vec![9, 99, 199]);
    assert_eq!(
        vault.mek_data.as_ref().unwrap().encrypted_mek.encrypted_data,
        vec![1, 2, 3]
    );
    assert_eq!(vault.password_entries.len(), 2);
    assert_eq!(vault.password_entries[0].title, "say \"hi\"\\\n\t\u{1}\u{e9}");
    assert_eq!(vault.password_entries[0].category.as_deref(), Some("mail"));
    assert!(vault.password_entries[0].favorite);
    assert_eq!(
        vault.password_entries[1].password.as_ref().unwrap().salt,
        vec![255, 0, 10]
    );
    assert_eq!(vault.password_entries[1].notes.as_deref(), Some("n"));
    assert!(vault.user_settings == known.user_settings);
    assert_eq!(vault.master_password_data_hash.as_deref(), Some("abc"));
    assert_eq!(vault.mek_data_hash, None);
    assert_eq!(vault.password_entries_hash.as_deref(), Some(""));
    assert_eq!(String::from_utf8(vault.to_document()).unwrap(), KNOWN);
}

#[test]
fn an_empty_document_is_read_as_an_empty_vault() {
    let vault = ApplicationData::from_document(EMPTY.as_bytes()).unwrap();

    assert!(vault.master_password_data.is_none());
    assert!(vault.mek_data.is_none());
    assert!(vault.password_entries.is_empty());
    assert!(vault.user_settings == UserSettings::default());
    assert!(vault.master_password_data_hash.is_none());
}

#[test]
fn a_vault_is_read_back_as_it_was_written() {
    let mut vault = ApplicationData::new();
    vault.add_master_password_data(b"correct horse").unwrap();
    let mek = vault.decrypt_mek_data(b"correct horse").unwrap();
    for (title, secret) in [("email", "p@ss1"), ("b\u{e4}nk \"1\"", "\u{1f511}\n\\")] {
        let entry = PasswordEntry::new(
            title.to_string(),
            Some("user".to_string()),
            Some(secret.as_bytes()),
            None,
            Some("line one\nline two\ttab \u{0}".to_string()),
            None,
            Some(true),
            Some(&mek),
        )
        .unwrap();
        vault.add_password_entry(entry).unwrap();
    }
    let written = vault.to_document();

    let read = ApplicationData::from_document(&written).unwrap();

    assert_eq!(read.to_document(), written);
    assert!(read.verify_hashes());
    assert!(read.verify_master_password(b"correct horse"));
    assert_eq!(read.decrypt_mek_data(b"correct horse").unwrap(), mek);
    assert_eq!(read.password_entries.len(), 2);
    let revealed = read.password_entries[1].to_decrypted(&mek).unwrap();
    assert_eq!(revealed.title, "b\u{e4}nk \"1\"");
    assert_eq!(revealed.password.as_deref(), Some("\u{1f511}\n\\"));
    assert_eq!(revealed.notes.as_deref(), Some("line one\nline two\ttab \u{0}"));
    assert_eq!(revealed.id, vault.password_entries[1].id);
    assert_eq!(revealed.creation_date, vault.password_entries[1].creation_date);
}

#[test]
fn a_damaged_ciphertext_in_the_document_is_noticed_after_reading() {
    let mut vault = ApplicationData::new();
    vault.add_master_password_data(b"correct horse").unwrap();
    let mek = vault.decrypt_mek_data(b"correct horse").unwrap();
    let entry = PasswordEntry::new(
        "email".to_string(),
        None,
        Some(b"p@ss1"),
        None,
        None,
        None,
        None,
        Some(&mek),
    )
    .unwrap();
    vault.add_password_entry(entry).unwrap();
    let first = vault.password_entries[0].password.as_ref().unwrap().encrypted_data[0];
    let written = String::from_utf8(vault.to_document()).unwrap();

    // One byte of the ciphertext of the record, changed where it is stored.
    let marker = "\"password\":{\"encrypted_data\":[";
    let place = written.find(marker).unwrap() + marker.len();
    let end = place + written[place..].find(|c| c == ',' || c == ']').unwrap();
    let damaged = format!("{}{}{}", &written[..place], first ^ 1, &written[end..]);
    assert_ne!(damaged, written);

    let read = ApplicationData::from_document(damaged.as_bytes()).unwrap();

    assert!(!read.verify_hashes());
    assert!(matches!(
        read.password_entries[0].to_decrypted(&mek),
        Err(CryptoError::DecryptionFailed)
    ));
    assert_eq!(read.decrypt_mek_data(b"correct horse").unwrap(), mek);
}

#[test]
fn a_text_that_is_no_document_is_refused() {
    assert!(refused(""));
    assert!(refused("{}"));
    assert!(refused("null"));
    assert!(refused(&EMPTY[..EMPTY.len() - 1]));
    assert!(refused(&format!("{} ", EMPTY)));
    assert!(refused(&format!(" {}", EMPTY)));
    assert!(refused(&format!("{}{}", EMPTY, EMPTY)));
    assert!(refused(&EMPTY.replace("\"passwordLength\":14", "\"passwordLength\":014")));
    assert!(refused(&EMPTY.replace("\"passwordLength\":14", "\"passwordLength\":256")));
    assert!(refused(&EMPTY.replace("\"passwordLength\":14", "\"passwordLength\":-1")));
    assert!(refused(&EMPTY.replace("\"passwordLength\":14", "\"passwordLength\":1e1")));
    assert!(refused(&EMPTY.replace("\"useNum\":true", "\"useNum\":1")));
    assert!(refused(&EMPTY.replace("\"useNum\":true", "\"useNum\": true")));
    assert!(refused(&EMPTY.replace("\"mekData\":null,", "")));
    assert!(refused(&EMPTY.replace("\"mekData\"", "\"mek_data\"")));
    assert!(refused(&EMPTY.replace("\"passwordEntries\":[]", "\"passwordEntries\":[null]")));
    assert!(refused(&EMPTY.replace("\"passwordEntries\":[]", "\"passwordEntries\":[,]")));
    assert!(refused(&KNOWN.replace("[1,2,3]", "[1,2,3,]")));
    assert!(refused(&KNOWN.replace("[1,2,3]", "[1,,3]")));
    assert!(refused(&KNOWN.replace("[1,2,3]", "[1,2,300]")));
    assert!(refused(&KNOWN.replace("[0,0,0,0,0,0,0,0,0,0,0,0]", "[0,0,0,0,0,0,0,0,0,0,0]")));
    assert!(refused(&KNOWN.replace("\"bob\"", "\"bob")));
    assert!(refused(&KNOWN.replace("\"bob\"", "\"b\\ob\"")));
    assert!(refused(&KNOWN.replace("\"bob\"", "\"b\\u006fb\"")));
    assert!(refused(&KNOWN.replace("\"bob\"", "\"b\\u000Ab\"")));
    assert!(refused(&KNOWN.replace("\"bob\"", "\"b\nb\"")));
    assert!(refused(&KNOWN.replace("\"bob\"", "\"b\\/b\"")));
    assert!(refused(&KNOWN.replace("\"favorite\":true", "\"favorite\":True")));
    let mut bytes = KNOWN.as_bytes().to_vec();
    let place = KNOWN.find("bob").unwrap();
    bytes[place] = 0xff;
    assert!(matches!(
        ApplicationData::from_document(&bytes),
        Err(CryptoError::Serde(_))
    ));
}

#[test]
fn a_refused_document_says_so() {
    let error = ApplicationData::from_document(b"{}").unwrap_err();

    assert_eq!(
        error.to_string(),
        "Serialization/deserialization error: the document is not the document of a vault"
    );
}

#[test]
fn small_changes_in_a_document_change_what_is_read() {
    let vault =
        ApplicationData::from_document(KNOWN.replace("\"bob\"", "\"b\\nb\"").as_bytes()).unwrap();
    assert_eq!(vault.password_entries[1].username.as_deref(), Some("b\nb"));

    let vault =
        ApplicationData::from_document(KNOWN.replace("[9,99,199]", "[]").as_bytes()).unwrap();
    assert!(vault.mek_data.unwrap().mek_salt.is_empty());

    let vault = ApplicationData::from_document(
        KNOWN
            .replace("\"mekDataHash\":null", "\"mekDataHash\":\"null\"")
            .as_bytes(),
    )
    .unwrap();
    assert_eq!(vault.mek_data_hash.as_deref(), Some("null"));
}
