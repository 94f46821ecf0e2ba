use password_manager_backend::master_password::MasterPasswordData;

#[test]
fn test_master_password_data_set_new_master_password() {
    let password = b"Test Password";
    let master_password_data = MasterPasswordData::set_new_master_password(password);

    assert!(master_password_data.is_ok());
}

#[test]
fn test_master_password_data_verify_master_password() {
    let password = b"Test Password";
    let master_password_data = MasterPasswordData::set_new_master_password(password).unwrap();

    assert!(master_password_data.verify_master_password(password));
}

#[test]
fn test_master_password_data_verify_master_password_wrong_password() {
    let password = b"Test Password";
    let wrong_password = b"Wrong Password";
    let master_password_data = MasterPasswordData::set_new_master_password(password).unwrap();

    assert!(!master_password_data.verify_master_password(wrong_password));
}

#[test]
fn test_master_password_data_default() {
    let default_master_password_data = MasterPasswordData::default();

    assert_eq!(default_master_password_data.salt, vec![0u8; 16]);
    assert_eq!(default_master_password_data.password_hash, Vec::<u8>::new());
}
