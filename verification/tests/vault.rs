use pw_vault::codec::encode_db;
use pw_vault::cryptography::{encrypt, encrypt_key, pbkdf2_hmac, random_bytes};
use pw_vault::database::CredentialsDatabase;
use pw_vault::error::Error;
use pw_vault::session::{generate_password, user_db_file, Vault};

#[test]
fn scenario_create_account_then_username_taken() {
    let mut vault = Vault::new();
    let file = vault
        .create_account("alice".to_string(), "pw1".to_string(), false)
        .expect("creating a fresh account succeeds");
    assert!(file.len() >= 77);
    vault.logout().expect("logout always succeeds");
    let err = vault
        .create_account("alice".to_string(), "anything".to_string(), true)
        .expect_err("the file already exists");
    assert_eq!(err, Error::UsernameTaken);
}

#[test]
fn scenario_wrong_password_then_login() {
    let mut vault = Vault::new();
    let file = vault
        .create_account("bob".to_string(), "pw1".to_string(), false)
        .expect("creating a fresh account succeeds");
    vault.logout().expect("logout always succeeds");
    let err = vault
        .login("bob".to_string(), "wrong-password".to_string(), Some(&file))
        .expect_err("a wrong password must not unlock");
    assert_eq!(err, Error::InvalidCredentials);
    vault
        .login("bob".to_string(), "pw1".to_string(), Some(&file))
        .expect("the right password unlocks");
    let names = vault.fetch_credentials().expect("a session is active");
    assert!(names.is_empty());
}

#[test]
fn scenario_add_fetch_remove() {
    let mut vault = Vault::new();
    let file = vault
        .create_account("bob".to_string(), "pw1".to_string(), false)
        .expect("creating a fresh account succeeds");
    vault.logout().expect("logout always succeeds");
    vault
        .login("bob".to_string(), "pw1".to_string(), Some(&file))
        .expect("the right password unlocks");
    let file2 = vault
        .add_credentials("email".to_string(), "bob@x.com".to_string(), "secret".to_string())
        .expect("adding an entry succeeds");
    assert!(file2.len() >= 77);
    let names = vault.fetch_credentials().expect("a session is active");
    assert_eq!(names, ["email".to_string()]);
    let cred = vault.get_credentials_info("email").expect("the entry exists");
    assert_eq!(cred.username, "bob@x.com");
    assert_eq!(cred.password, "secret");
    vault.remove_credentials("email").expect("the entry exists");
    let err = vault.get_credentials_info("email").expect_err("the entry is gone");
    assert_eq!(err, Error::InvalidParameter);
}

#[test]
fn scenario_mutations_survive_relogin() {
    let mut vault = Vault::new();
    let file = vault
        .create_account("carol".to_string(), "pw".to_string(), false)
        .expect("creating a fresh account succeeds");
    vault.logout().expect("logout always succeeds");
    vault.login("carol".to_string(), "pw".to_string(), Some(&file)).expect("unlocks");
    let file = vault
        .add_credentials("site".to_string(), "carol@s".to_string(), "s3cret".to_string())
        .expect("adding an entry succeeds");
    let file = {
        vault.logout().expect("logout always succeeds");
        vault.login("carol".to_string(), "pw".to_string(), Some(&file)).expect("unlocks");
        vault
            .add_credentials("bank".to_string(), "carol".to_string(), "pin".to_string())
            .expect("adding an entry succeeds")
    };
    vault.logout().expect("logout always succeeds");
    vault.login("carol".to_string(), "pw".to_string(), Some(&file)).expect("unlocks");
    let names = vault.fetch_credentials().expect("a session is active");
    assert_eq!(names, ["site".to_string(), "bank".to_string()]);
    let cred = vault.get_credentials_info("site").expect("still stored");
    assert_eq!(cred.username, "carol@s");
    assert_eq!(cred.password, "s3cret");
}

#[test]
fn cross_account_isolation() {
    let mut vault = Vault::new();
    let file_alice = vault
        .create_account("alice".to_string(), "pw1".to_string(), false)
        .expect("creating a fresh account succeeds");
    vault.logout().expect("logout always succeeds");
    let file_bob = vault
        .create_account("bob".to_string(), "pw2".to_string(), false)
        .expect("creating a fresh account succeeds");
    vault.logout().expect("logout always succeeds");
    // decrypting one account's file with another account's derived key
    // must fail outright, never hand back data
    let err = vault
        .login("bob".to_string(), "pw2".to_string(), Some(&file_alice))
        .expect_err("bob's key must not open alice's file");
    assert_eq!(err, Error::InvalidCredentials);
    let err = vault
        .login("alice".to_string(), "pw1".to_string(), Some(&file_bob))
        .expect_err("alice's key must not open bob's file");
    assert_eq!(err, Error::InvalidCredentials);
}

#[test]
fn login_rejects_owner_mismatch() {
    // a file wrapped for bob's credentials but holding alice's database:
    // the envelope opens, and the owner check must still refuse it
    let master_key = pbkdf2_hmac(b"pw", b"bob");
    let data_key = random_bytes(32);
    let (wrapped, nonce) = encrypt_key(&master_key, &data_key).expect("wrapping succeeds");
    let db = CredentialsDatabase::new("alice".to_string());
    let blob = encrypt(&data_key, &encode_db(&db)).expect("sealing succeeds");
    let mut file = nonce.clone();
    file.extend_from_slice(&wrapped);
    file.extend_from_slice(&blob.bytes());

    let mut vault = Vault::new();
    let err = vault
        .login("bob".to_string(), "pw".to_string(), Some(&file))
        .expect_err("a renamed file must not unlock");
    assert_eq!(err, Error::InvalidDatabase);
}

#[test]
fn session_lifecycle_errors() {
    let mut vault = Vault::new();
    // no session: every session-bound call refuses
    assert_eq!(vault.fetch_credentials().expect_err("no session"), Error::InvalidCredentials);
    assert_eq!(vault.get_credentials_info("x").expect_err("no session"), Error::InvalidCredentials);
    assert_eq!(
        vault.add_credentials("a".to_string(), "b".to_string(), "c".to_string()).expect_err(
            "no session",
        ),
        Error::InvalidCredentials,
    );
    assert_eq!(vault.remove_credentials("a").expect_err("no session"), Error::InvalidCredentials);
    // logout from no session is a no-op success
    vault.logout().expect("logout always succeeds");

    // empty credentials are refused outright
    assert_eq!(
        vault.create_account("".to_string(), "pw".to_string(), false).expect_err("empty username"),
        Error::InvalidCredentials,
    );
    assert_eq!(
        vault.login("bob".to_string(), "".to_string(), None).expect_err("empty password"),
        Error::InvalidCredentials,
    );
    // a missing file is indistinguishable from bad credentials
    assert_eq!(
        vault.login("bob".to_string(), "pw".to_string(), None).expect_err("no file"),
        Error::InvalidCredentials,
    );
    // a file shorter than its fixed header is corrupt
    let short = vec![0u8; 48];
    assert_eq!(
        vault.login("bob".to_string(), "pw".to_string(), Some(&short)).expect_err("short file"),
        Error::InvalidDatabase,
    );
    let short = vec![0u8; 76];
    assert_eq!(
        vault.login("bob".to_string(), "pw".to_string(), Some(&short)).expect_err("short file"),
        Error::InvalidDatabase,
    );

    // a second session cannot be opened while one is active
    let file = vault
        .create_account("bob".to_string(), "pw".to_string(), false)
        .expect("creating a fresh account succeeds");
    assert_eq!(
        vault.create_account("carl".to_string(), "pw".to_string(), false).expect_err(
            "a session is active",
        ),
        Error::Unexpected,
    );
    assert_eq!(
        vault.login("bob".to_string(), "pw".to_string(), Some(&file)).expect_err(
            "a session is active",
        ),
        Error::Unexpected,
    );
}

#[test]
fn overwriting_an_entry_keeps_names_unique() {
    let mut vault = Vault::new();
    vault
        .create_account("dora".to_string(), "pw".to_string(), false)
        .expect("creating a fresh account succeeds");
    vault
        .add_credentials("site".to_string(), "old".to_string(), "old-pw".to_string())
        .expect("adding an entry succeeds");
    vault
        .add_credentials("site".to_string(), "new".to_string(), "new-pw".to_string())
        .expect("overwriting is not an error");
    let names = vault.fetch_credentials().expect("a session is active");
    assert_eq!(names, ["site".to_string()]);
    let cred = vault.get_credentials_info("site").expect("the entry exists");
    assert_eq!(cred.username, "new");
    assert_eq!(cred.password, "new-pw");
    assert_eq!(
        vault.remove_credentials("absent").expect_err("nothing to remove"),
        Error::InvalidParameter,
    );
}

#[test]
fn credential_field_selects_one_field() {
    let mut vault = Vault::new();
    vault
        .create_account("erin".to_string(), "pw".to_string(), false)
        .expect("creating a fresh account succeeds");
    vault
        .add_credentials("mail".to_string(), "erin@x".to_string(), "hush".to_string())
        .expect("adding an entry succeeds");
    assert_eq!(vault.credential_field("mail", "username").expect("known field"), "erin@x");
    assert_eq!(vault.credential_field("mail", "password").expect("known field"), "hush");
    assert_eq!(
        vault.credential_field("mail", "color").expect_err("unknown field"),
        Error::InvalidParameter,
    );
    assert_eq!(
        vault.credential_field("absent", "username").expect_err("unknown entry"),
        Error::InvalidParameter,
    );
}

#[test]
fn generate_password_classes_and_bounds() {
    let types = vec!["digits".to_string()];
    let pw = generate_password(16, &types).expect("valid request");
    assert_eq!(pw.len(), 16);
    for c in pw.chars() {
        assert!(c.is_ascii_digit());
    }

    let types = vec!["lowercase".to_string(), "special".to_string(), "lowercase".to_string()];
    let pw = generate_password(128, &types).expect("repeated classes are fine");
    assert_eq!(pw.len(), 128);
    for c in pw.bytes() {
        assert!(b"abcdefghijklmnopqrstuvwxyz!@#$%^&*".contains(&c));
    }

    assert_eq!(
        generate_password(20, &Vec::new()).expect_err("no classes"),
        Error::InvalidParameter,
    );
    let types = vec!["digits".to_string()];
    assert_eq!(generate_password(9, &types).expect_err("too short"), Error::InvalidParameter);
    assert_eq!(generate_password(129, &types).expect_err("too long"), Error::InvalidParameter);
    let types = vec!["digits".to_string(), "hieroglyphs".to_string()];
    assert_eq!(generate_password(20, &types).expect_err("unknown class"), Error::InvalidParameter);
}

#[test]
fn user_db_file_name() {
    assert_eq!(user_db_file("bob"), "bob.pwdb");
    assert_eq!(user_db_file(""), ".pwdb");
}

#[test]
fn error_messages_and_keys() {
    assert_eq!(Error::InvalidCredentials.message(), "invalid credentials");
    assert_eq!(Error::InvalidDatabase.message(), "corrupt key database");
    assert_eq!(Error::InvalidParameter.message(), "invalid parameter");
    assert_eq!(Error::UsernameTaken.message(), "username already registered");
    assert_eq!(Error::Unexpected.message(), "unexpected error occurred");
    assert_eq!(Error::InvalidCredentials.key(), "invalid_credentials");
    assert_eq!(Error::InvalidDatabase.key(), "invalid_database");
    assert_eq!(Error::InvalidParameter.key(), "invalid_parameter");
    assert_eq!(Error::UsernameTaken.key(), "username_taken");
    assert_eq!(Error::Unexpected.key(), "unexpected");
}
