use password_manager_backend::canonical::{auth_bytes, entries_bytes, key_wrap_bytes};
use password_manager_backend::config::UserSettings;
use password_manager_backend::crypto::{kdf_accepts, Cryptographer, IterationCount, SecureData};
use password_manager_backend::error_handling::CryptoError;
use password_manager_backend::master_password::MasterPasswordData;
use password_manager_backend::mek::MekData;
use password_manager_backend::password_entry::PasswordEntry;
use password_manager_backend::storage::ApplicationData;

fn fixed_salt() -> Vec<u8> {
    (1u8..=16).collect()
}

fn fixed_nonce() -> [u8; 12] {
    [0, 1, 2, 3, 4, 5, 6, 7, 8, 9, 10, 11]
}

fn fixed_envelope() -> SecureData {
    SecureData {
        encrypted_data: vec![1, 2, 3],
        nonce: [0u8; 12],
        salt: vec![255, 0, 10],
    }
}

fn plain_entry(id: &str, title: &str) -> PasswordEntry {
    PasswordEntry {
        id: id.to_string(),
        title: title.to_string(),
        username: None,
        password: None,
        url: None,
        notes: None,
        creation_date: String::new(),
        category: None,
        favorite: false,
    }
}

#[test]
fn sealing_with_fixed_salt_and_nonce_gives_the_known_ciphertext() {
    let cryptographer = Cryptographer::new(Some(1000));
    let sealed = cryptographer
        .encrypt_with(b"Test Data", b"Test Password", fixed_salt(), fixed_nonce())
        .unwrap();

    assert_eq!(
        sealed.encrypted_data,
        vec![
            35, 47, 26, 76, 240, 186, 185, 35, 203, 11, 180, 160, 222, 176, 255, 253, 131, 183,
            122, 27, 161, 211, 201, 219, 169
        ]
    );
    assert_eq!(sealed.nonce, fixed_nonce());
    assert_eq!(sealed.salt, fixed_salt());
    assert_eq!(
        cryptographer.decrypt(sealed, b"Test Password").unwrap(),
        b"Test Data"
    );
}

#[test]
fn sealing_nothing_gives_the_tag_alone() {
    let cryptographer = Cryptographer::new(Some(1000));
    let sealed = cryptographer
        .encrypt_with(b"", b"Test Password", fixed_salt(), fixed_nonce())
        .unwrap();

    assert_eq!(
        sealed.encrypted_data,
        vec![88, 45, 163, 141, 116, 247, 229, 114, 36, 43, 255, 166, 155, 0, 137, 37]
    );
    assert_eq!(
        cryptographer.decrypt(sealed, b"Test Password").unwrap(),
        Vec::<u8>::new()
    );
}

#[test]
fn sealing_is_a_function_of_its_inputs() {
    let cryptographer = Cryptographer::new(Some(1000));
    let first = cryptographer
        .encrypt_with(b"same", b"key", fixed_salt(), fixed_nonce())
        .unwrap();
    let second = cryptographer
        .encrypt_with(b"same", b"key", fixed_salt(), fixed_nonce())
        .unwrap();
    let other_rounds = Cryptographer::new(Some(1001))
        .encrypt_with(b"same", b"key", fixed_salt(), fixed_nonce())
        .unwrap();

    assert_eq!(first.encrypted_data, second.encrypted_data);
    assert_ne!(first.encrypted_data, other_rounds.encrypted_data);
    assert_eq!(first.encrypted_data.len(), 4 + 16);
}

#[test]
fn a_changed_envelope_does_not_open() {
    let cryptographer = Cryptographer::new(Some(1000));
    let sealed = cryptographer
        .encrypt_with(b"Test Data", b"Test Password", fixed_salt(), fixed_nonce())
        .unwrap();

    let mut changed_text = sealed.clone();
    changed_text.encrypted_data[0] ^= 1;
    assert!(matches!(
        cryptographer.decrypt(changed_text, b"Test Password"),
        Err(CryptoError::DecryptionFailed)
    ));

    let mut changed_nonce = sealed.clone();
    changed_nonce.nonce[11] ^= 1;
    assert!(matches!(
        cryptographer.decrypt(changed_nonce, b"Test Password"),
        Err(CryptoError::DecryptionFailed)
    ));

    let mut changed_salt = sealed.clone();
    changed_salt.salt[0] ^= 1;
    assert!(matches!(
        cryptographer.decrypt(changed_salt, b"Test Password"),
        Err(CryptoError::DecryptionFailed)
    ));

    let too_short = SecureData {
        encrypted_data: vec![1, 2, 3],
        nonce: fixed_nonce(),
        salt: fixed_salt(),
    };
    assert!(matches!(
        cryptographer.decrypt(too_short, b"Test Password"),
        Err(CryptoError::DecryptionFailed)
    ));
}

#[test]
fn iteration_count_is_never_zero() {
    assert!(IterationCount::new(0).is_none());
    assert_eq!(IterationCount::new(7).unwrap().get(), 7);
    assert_eq!(Cryptographer::new(None).iterations.get(), 100_000);
}

#[test]
fn ordinary_inputs_can_be_hashed() {
    assert!(kdf_accepts(&[], &[]));
    assert!(kdf_accepts(&fixed_salt(), b"correct horse"));
}

#[test]
fn random_material_has_its_length() {
    assert_eq!(Cryptographer::generate_random_bytes().unwrap().len(), 32);
    assert_eq!(Cryptographer::generate_salt().unwrap().len(), 16);
    assert_eq!(Cryptographer::generate_nonce().unwrap().len(), 12);
    assert_ne!(
        Cryptographer::generate_random_bytes().unwrap(),
        Cryptographer::generate_random_bytes().unwrap()
    );
}

#[test]
fn authentication_record_holds_the_known_hash() {
    let record = MasterPasswordData::with_salt(b"correct horse", vec![7u8; 16]).unwrap();

    assert_eq!(record.salt, vec![7u8; 16]);
    assert_eq!(
        record.password_hash,
        vec![
            65, 86, 105, 161, 63, 138, 128, 186, 157, 77, 43, 199, 213, 34, 55, 221, 54, 44, 69,
            112, 63, 206, 71, 169, 60, 249, 141, 5, 70, 124, 71, 33
        ]
    );
    assert!(record.verify_master_password(b"correct horse"));
    assert!(!record.verify_master_password(b"correct horsf"));
    assert!(!record.verify_master_password(b""));
}

#[test]
fn a_record_with_a_shorter_hash_checks_the_hash_it_has() {
    let full = MasterPasswordData::with_salt(b"correct horse", vec![7u8; 16]).unwrap();
    let short = MasterPasswordData {
        salt: full.salt.clone(),
        password_hash: full.password_hash[..20].to_vec(),
    };

    assert!(short.verify_master_password(b"correct horse"));
    assert!(!short.verify_master_password(b"wrong"));
    assert!(!MasterPasswordData::default().verify_master_password(b""));
}

#[test]
fn wrap_key_is_the_known_key() {
    let key = MekData::derive_mek_key(b"Test Master Password", &[1, 2, 3]);

    assert_eq!(
        hex_of(&key),
        "4fe0098783e1162e3fbac322097693e7260d990dc7b8687780f52899979ef9df"
    );
}

fn hex_of(bytes: &[u8]) -> String {
    let mut text = String::new();
    for byte in bytes {
        text.push_str(&format!("{:02x}", byte));
    }
    text
}

#[test]
fn canonical_text_of_nothing() {
    assert_eq!(auth_bytes(&None), b"null");
    assert_eq!(key_wrap_bytes(&None), b"null");
    assert_eq!(entries_bytes(&Vec::new()), b"[]");
}

#[test]
fn canonical_text_of_an_authentication_record() {
    let record = MasterPasswordData {
        salt: vec![0, 9, 10, 99, 100, 255],
        password_hash: vec![],
    };

    assert_eq!(
        String::from_utf8(auth_bytes(&Some(record))).unwrap(),
        "{\"salt\":[0,9,10,99,100,255],\"password_hash\":[]}"
    );
}

#[test]
fn canonical_text_of_a_key_wrap_record() {
    let record = MekData {
        encrypted_mek: fixed_envelope(),
        mek_salt: vec![9, 99, 199],
    };

    assert_eq!(
        String::from_utf8(key_wrap_bytes(&Some(record))).unwrap(),
        "{\"encrypted_mek\":{\"encrypted_data\":[1,2,3],\"nonce\":[0,0,0,0,0,0,0,0,0,0,0,0],\"salt\":[255,0,10]},\"mek_salt\":[9,99,199]}"
    );
}

fn two_entries() -> Vec<PasswordEntry> {
    let first = PasswordEntry {
        id: "id-1".to_string(),
        title: "say \"hi\"\\\n\t\u{1}\u{e9}".to_string(),
        username: None,
        password: None,
        url: Some("https://example.com".to_string()),
        notes: None,
        creation_date: "2024-01-01 00:00:00 UTC".to_string(),
        category: Some("mail".to_string()),
        favorite: true,
    };
    let second = PasswordEntry {
        id: "id-2".to_string(),
        title: String::new(),
        username: Some("bob".to_string()),
        password: Some(fixed_envelope()),
        url: None,
        notes: Some("n".to_string()),
        creation_date: String::new(),
        category: None,
        favorite: false,
    };
    vec![first, second]
}

#[test]
fn canonical_text_of_records() {
    let expected = "[{\"id\":\"id-1\",\"title\":\"say \\\"hi\\\"\\\\\\n\\t\\u0001\u{e9}\",\"username\":null,\"password\":null,\"url\":\"https://example.com\",\"notes\":null,\"creationDate\":\"2024-01-01 00:00:00 UTC\",\"category\":\"mail\",\"favorite\":true},{\"id\":\"id-2\",\"title\":\"\",\"username\":\"bob\",\"password\":{\"encrypted_data\":[1,2,3],\"nonce\":[0,0,0,0,0,0,0,0,0,0,0,0],\"salt\":[255,0,10]},\"url\":null,\"notes\":\"n\",\"creationDate\":\"\",\"category\":null,\"favorite\":false}]";

    assert_eq!(
        String::from_utf8(entries_bytes(&two_entries())).unwrap(),
        expected
    );
}

#[test]
fn canonical_text_escapes_every_control_character() {
    let mut title = String::new();
    for code in 0u8..32 {
        title.push(code as char);
    }
    title.push('\u{7f}');
    let text = String::from_utf8(entries_bytes(&vec![plain_entry("i", &title)])).unwrap();

    assert!(text.starts_with(
        "[{\"id\":\"i\",\"title\":\"\\u0000\\u0001\\u0002\\u0003\\u0004\\u0005\\u0006\\u0007\\b\\t\\n\\u000b\\f\\r\\u000e\\u000f\\u0010\\u0011\\u0012\\u0013\\u0014\\u0015\\u0016\\u0017\\u0018\\u0019\\u001a\\u001b\\u001c\\u001d\\u001e\\u001f\u{7f}\",\"username\":null"
    ));
}

#[test]
fn digests_of_an_empty_vault() {
    let mut vault = ApplicationData::new();
    assert!(!vault.verify_hashes());

    vault.update_hashes().unwrap();

    assert_eq!(
        vault.master_password_data_hash.as_deref(),
        Some("74234e98afe7498fb5daf1f36ac2d78acc339464f950703b8c019892f982b90b")
    );
    assert_eq!(
        vault.mek_data_hash.as_deref(),
        Some("74234e98afe7498fb5daf1f36ac2d78acc339464f950703b8c019892f982b90b")
    );
    assert_eq!(
        vault.password_entries_hash.as_deref(),
        Some("4f53cda18c2baa0c0354bb5f9a3ecbe5ed12ab4d8e11ba873c2f11161202b945")
    );
    assert!(vault.verify_hashes());
}

#[test]
fn digests_of_a_known_vault() {
    let mut vault = ApplicationData {
        master_password_data: Some(
            MasterPasswordData::with_salt(b"correct horse", vec![7u8; 16]).unwrap(),
        ),
        mek_data: Some(MekData {
            encrypted_mek: fixed_envelope(),
            mek_salt: vec![9, 99, 199],
        }),
        password_entries: two_entries(),
        user_settings: UserSettings::default(),
        master_password_data_hash: None,
        mek_data_hash: None,
        password_entries_hash: None,
    };

    vault.update_hashes().unwrap();

    assert_eq!(
        vault.master_password_data_hash.as_deref(),
        Some("154e6281e3ff4eeffce13da089281e9c3942de3126371d9291d95b313fb4db9a")
    );
    assert_eq!(
        vault.mek_data_hash.as_deref(),
        Some("c0f6c10b2be26725e4e3999f81c4f8da1c287e2491760eb26b6711314f0d3436")
    );
    assert_eq!(
        vault.password_entries_hash.as_deref(),
        Some("0ae9e1dbb117fb6ae85168f718277a63105b14cc0e6360e168726326dd307b35")
    );
}
