use std::cell::RefCell;
use std::collections::HashMap;

use multiplex::credentials::{
    connection_password_credential_id, delete_from, forget_result, load_from, load_result, profile_password_credential_id,
    secure_store_label, store_to, PasswordError, LEGACY_SERVICE_NAME, SERVICE_NAME,
};
use multiplex::relay_secrets::{
    delete_secret, get_secret, put_secret, relay_error, secret_from_lookup, secret_from_text, secret_text,
    OsRelaySecretStore, RelaySecretStoreError, RELAY_SECRET_LEGACY_SERVICE, RELAY_SECRET_SERVICE,
};
use multiplex::keychain::{
    delete, deletion_result, password, read_answer, removal_answer, secret, secret_exists, CredentialError,
    CredentialStore, ServiceNames,
};

const NAMES: ServiceNames = ServiceNames {
    current: "com.millionrust.multiplex.test",
    legacy: &["com.multiplex.test", "com.termirust.test"],
};

#[derive(Default)]
struct MemoryStore {
    values: RefCell<HashMap<(String, String), Vec<u8>>>,
    /// Service names whose writes fail, standing in for a store that refuses one.
    write_fails: RefCell<Vec<String>>,
    /// Service names whose removals fail, standing in for one left behind.
    delete_fails: RefCell<Vec<String>>,
}

impl MemoryStore {
    fn put(&self, service: &str, account: &str, value: &[u8]) {
        self.values
            .borrow_mut()
            .insert((service.to_owned(), account.to_owned()), value.to_vec());
    }

    fn has(&self, service: &str, account: &str) -> bool {
        self.values
            .borrow()
            .contains_key(&(service.to_owned(), account.to_owned()))
    }

    fn failure() -> CredentialError {
        CredentialError::Invalid("service".to_owned(), "refused".to_owned())
    }
}

impl CredentialStore for MemoryStore {
    fn password(&mut self, service: &str, account: &str) -> Result<Option<String>, CredentialError> {
        match self.secret(service, account)? {
            Some(bytes) => String::from_utf8(bytes)
                .map(Some)
                .map_err(|error| CredentialError::BadEncoding(error.into_bytes())),
            None => Ok(None),
        }
    }

    fn set_password(&mut self, service: &str, account: &str, value: &str) -> Result<(), CredentialError> {
        self.set_secret(service, account, value.as_bytes())
    }

    fn secret(&mut self, service: &str, account: &str) -> Result<Option<Vec<u8>>, CredentialError> {
        Ok(self
            .values
            .borrow()
            .get(&(service.to_owned(), account.to_owned()))
            .cloned())
    }

    fn set_secret(&mut self, service: &str, account: &str, value: &[u8]) -> Result<(), CredentialError> {
        if self.write_fails.borrow().iter().any(|name| name == service) {
            return Err(Self::failure());
        }
        self.put(service, account, value);
        Ok(())
    }

    fn delete(&mut self, service: &str, account: &str) -> Result<bool, CredentialError> {
        if self.delete_fails.borrow().iter().any(|name| name == service) {
            return Err(Self::failure());
        }
        Ok(self
            .values
            .borrow_mut()
            .remove(&(service.to_owned(), account.to_owned()))
            .is_some())
    }
}

#[test]
fn builds_profile_credential_ids() {
    assert_eq!(profile_password_credential_id("abc"), "profile:abc");
}

#[test]
fn normalizes_connection_credential_ids() {
    assert_eq!(
        connection_password_credential_id("Root", "prod.example.com", 22),
        "connection:root@prod.example.com:22"
    );
}

#[test]
fn anything_but_names_and_addresses_becomes_a_dash() {
    assert_eq!(
        connection_password_credential_id("Ann Lee", "[::1]", 65535),
        "connection:ann-lee@---1-:65535"
    );
    assert_eq!(secure_store_label("macos"), "macOS Keychain");
    assert_eq!(secure_store_label("windows"), "Windows Credential Manager");
    assert_eq!(secure_store_label("linux"), "system credential store");
}

#[test]
fn a_password_saved_under_the_previous_name_is_found_and_brought_across() {
    let mut store = MemoryStore::default();
    let id = "connection:migrated@example.test:22";
    store.put(LEGACY_SERVICE_NAME, id, b"hunter2");
    assert_eq!(load_from(&mut store, id).expect("the password"), "hunter2");
    assert_eq!(store.password(SERVICE_NAME, id).expect("a read"), Some("hunter2".to_owned()));
    assert_eq!(store.password(LEGACY_SERVICE_NAME, id).expect("a read"), None);
}

#[test]
fn a_password_saved_now_is_read_without_touching_the_previous_name() {
    let mut store = MemoryStore::default();
    let id = "connection:current@example.test:22";
    store_to(&mut store, id, "correct-horse").expect("the password is stored");
    assert_eq!(store.password(LEGACY_SERVICE_NAME, id).expect("a read"), None);
    assert_eq!(load_from(&mut store, id).expect("the password"), "correct-horse");
    assert!(matches!(load_from(&mut store, "profile:none"), Err(PasswordError::NotFound)));
}

#[test]
fn forgetting_a_password_forgets_the_one_saved_under_the_previous_name_too() {
    let mut store = MemoryStore::default();
    let id = "profile:both";
    store.put(LEGACY_SERVICE_NAME, id, b"old");
    store_to(&mut store, id, "new").expect("the password is stored");
    assert!(delete_from(&mut store, id).expect("the delete runs"));
    assert_eq!(store.password(SERVICE_NAME, id).expect("a read"), None);
    assert_eq!(store.password(LEGACY_SERVICE_NAME, id).expect("a read"), None);
    assert!(!delete_from(&mut store, id).expect("the delete runs"));
}

#[test]
fn a_secret_under_the_current_name_is_read_as_it_is() {
    let mut store = MemoryStore::default();
    store.put(NAMES.current, "account", b"here");
    assert_eq!(password(&mut store, NAMES, "account").unwrap().as_deref(), Some("here"));
    assert!(!store.has("com.termirust.test", "account"));
}

#[test]
fn a_secret_under_an_old_name_is_copied_across_and_the_old_one_removed() {
    for legacy in NAMES.legacy {
        let mut store = MemoryStore::default();
        store.put(legacy, "account", b"moved");
        assert_eq!(password(&mut store, NAMES, "account").unwrap().as_deref(), Some("moved"));
        assert!(store.has(NAMES.current, "account"));
        assert!(!store.has(legacy, "account"));
        // The second read never looks at the old name again.
        assert_eq!(password(&mut store, NAMES, "account").unwrap().as_deref(), Some("moved"));
    }
}

#[test]
fn bytes_move_across_the_same_way() {
    let mut store = MemoryStore::default();
    store.put("com.termirust.test", "account", &[0, 1, 2, 255]);
    assert_eq!(secret(&mut store, NAMES, "account").unwrap(), Some(vec![0, 1, 2, 255]));
    assert!(store.has(NAMES.current, "account"));
    assert!(!store.has("com.termirust.test", "account"));
}

#[test]
fn a_copy_that_cannot_be_written_keeps_the_secret_under_the_old_name() {
    let mut store = MemoryStore::default();
    store.put("com.termirust.test", "account", b"kept");
    store.write_fails.borrow_mut().push(NAMES.current.to_owned());
    assert_eq!(
        password(&mut store, NAMES, "account").unwrap().as_deref(),
        Some("kept"),
        "the secret is still returned"
    );
    assert!(store.has("com.termirust.test", "account"), "and is still readable next time");
}

#[test]
fn nothing_anywhere_reads_as_nothing() {
    let mut store = MemoryStore::default();
    assert_eq!(password(&mut store, NAMES, "account").unwrap(), None);
    assert_eq!(secret(&mut store, NAMES, "account").unwrap(), None);
    assert!(!secret_exists(&mut store, NAMES, "account").unwrap());
}

#[test]
fn a_secret_under_any_name_counts_as_existing() {
    for name in NAMES.all() {
        let mut store = MemoryStore::default();
        store.put(name, "account", b"there");
        assert!(secret_exists(&mut store, NAMES, "account").unwrap());
    }
}

#[test]
fn deleting_takes_every_name_and_reports_a_name_left_behind() {
    let mut store = MemoryStore::default();
    for name in NAMES.all() {
        store.put(name, "account", b"gone");
    }
    assert!(delete(&mut store, NAMES, "account").unwrap());
    for name in NAMES.all() {
        assert!(!store.has(name, "account"));
    }
    assert!(!delete(&mut store, NAMES, "account").unwrap());

    let mut store = MemoryStore::default();
    store.put(NAMES.current, "account", b"gone");
    store.put("com.termirust.test", "account", b"stuck");
    store.delete_fails.borrow_mut().push("com.termirust.test".to_owned());
    assert!(delete(&mut store, NAMES, "account").is_err());
}

#[test]
fn the_last_failure_is_the_answer_to_a_deletion() {
    assert!(matches!(deletion_result(vec![Ok(false), Ok(true)]), Ok(true)));
    assert!(matches!(deletion_result(vec![Ok(false), Ok(false)]), Ok(false)));
    assert!(matches!(deletion_result(vec![]), Ok(false)));
    let answer = deletion_result(vec![
        Err(CredentialError::NoEntry),
        Ok(true),
        Err(CredentialError::TooLong("a".to_owned(), 3)),
    ]);
    assert!(matches!(answer, Err(CredentialError::TooLong(_, 3))));
    assert_eq!(NAMES.all(), vec!["com.millionrust.multiplex.test", "com.multiplex.test", "com.termirust.test"]);
}

fn counting_bytes() -> [u8; 32] {
    let mut bytes = [0u8; 32];
    for (index, byte) in bytes.iter_mut().enumerate() {
        *byte = index as u8;
    }
    bytes
}

#[test]
fn debug_output_never_contains_secret_service_or_endpoint() {
    assert!(!format!("{:?}", OsRelaySecretStore).contains(RELAY_SECRET_SERVICE));
    assert_eq!(relay_error(CredentialError::NoEntry), RelaySecretStoreError::Missing);
}

#[test]
fn a_relay_secret_is_stored_as_unpadded_base64() {
    assert_eq!(secret_text(&counting_bytes()), "AAECAwQFBgcICQoLDA0ODxAREhMUFRYXGBkaGxwdHh8");
    assert_eq!(secret_text(&[0u8; 32]), "A".repeat(43));
}

#[test]
fn stored_text_reads_back_as_the_secret_and_anything_else_is_invalid() {
    let secret = counting_bytes();
    assert_eq!(secret_from_text(&secret_text(&secret)), Ok(secret));
    // Padding, a short secret, and text that is not base64 at all.
    assert_eq!(
        secret_from_text("AAECAwQFBgcICQoLDA0ODxAREhMUFRYXGBkaGxwdHh8="),
        Err(RelaySecretStoreError::Invalid)
    );
    assert_eq!(secret_from_text("AAEC"), Err(RelaySecretStoreError::Invalid));
    assert_eq!(secret_from_text("not base64!"), Err(RelaySecretStoreError::Invalid));
}

#[test]
fn a_store_answer_becomes_the_relay_answer() {
    assert_eq!(secret_from_lookup(Ok(None)), Err(RelaySecretStoreError::Missing));
    assert_eq!(
        secret_from_lookup(Err(CredentialError::BadEncoding(vec![0xff]))),
        Err(RelaySecretStoreError::Invalid)
    );
    assert_eq!(
        secret_from_lookup(Err(CredentialError::TooLong("service".to_owned(), 3))),
        Err(RelaySecretStoreError::Unavailable)
    );
    assert_eq!(
        secret_from_lookup(Ok(Some(secret_text(&counting_bytes())))),
        Ok(counting_bytes())
    );
}

#[test]
fn a_relay_secret_put_is_got_back_and_deleted_everywhere() {
    let mut store = MemoryStore::default();
    let secret = counting_bytes();
    assert_eq!(get_secret(&mut store, "route"), Err(RelaySecretStoreError::Missing));
    put_secret(&mut store, "route", &secret).unwrap();
    assert!(store.has(RELAY_SECRET_SERVICE, "route"));
    assert_eq!(get_secret(&mut store, "route"), Ok(secret));
    assert_eq!(delete_secret(&mut store, "route"), Ok(true));
    assert_eq!(delete_secret(&mut store, "route"), Ok(false));
}

#[test]
fn a_relay_secret_under_the_earlier_name_is_brought_across() {
    let mut store = MemoryStore::default();
    store.put(RELAY_SECRET_LEGACY_SERVICE, "route", secret_text(&[7u8; 32]).as_bytes());
    assert_eq!(get_secret(&mut store, "route"), Ok([7u8; 32]));
    assert!(store.has(RELAY_SECRET_SERVICE, "route"));
    assert!(!store.has(RELAY_SECRET_LEGACY_SERVICE, "route"));
}

#[test]
fn a_platform_answer_becomes_a_store_answer() {
    assert!(matches!(read_answer(Ok::<String, CredentialError>("kept".to_owned())), Ok(Some(ref v)) if v == "kept"));
    assert!(matches!(read_answer::<String>(Err(CredentialError::NoEntry)), Ok(None)));
    assert!(matches!(
        read_answer::<Vec<u8>>(Err(CredentialError::BadEncoding(vec![255]))),
        Err(CredentialError::BadEncoding(ref bytes)) if bytes == &vec![255u8]
    ));
    assert!(matches!(removal_answer(Ok(())), Ok(true)));
    assert!(matches!(removal_answer(Err(CredentialError::NoEntry)), Ok(false)));
    assert!(matches!(
        removal_answer(Err(CredentialError::TooLong("service".to_owned(), 8))),
        Err(CredentialError::TooLong(ref name, 8)) if name == "service"
    ));
}

#[test]
fn the_answers_to_a_read_decide_its_result() {
    let found = |text: &str| Ok::<Option<String>, CredentialError>(Some(text.to_owned()));
    assert!(matches!(load_result(found("now"), None, None), Ok(ref p) if p == "now"));
    assert!(matches!(load_result(Err(CredentialError::NoEntry), None, None), Err(PasswordError::Read(CredentialError::NoEntry))));
    assert!(matches!(load_result(Ok(None), Some(Ok(None)), None), Err(PasswordError::NotFound)));
    assert!(matches!(
        load_result(Ok(None), Some(Err(CredentialError::NoEntry)), None),
        Err(PasswordError::Read(CredentialError::NoEntry))
    ));
    assert!(matches!(load_result(Ok(None), Some(found("old")), Some(Ok(()))), Ok(ref p) if p == "old"));
    assert!(matches!(
        load_result(Ok(None), Some(found("old")), Some(Err(CredentialError::Invalid("service".to_owned(), "refused".to_owned())))),
        Err(PasswordError::Write(CredentialError::Invalid(_, _)))
    ));
}

#[test]
fn the_answers_to_forgetting_decide_its_result() {
    assert!(matches!(forget_result(Ok(false), Some(Ok(true))), Ok(true)));
    assert!(matches!(forget_result(Ok(true), Some(Ok(false))), Ok(true)));
    assert!(matches!(forget_result(Ok(false), Some(Ok(false))), Ok(false)));
    assert!(matches!(forget_result(Err(CredentialError::NoEntry), None), Err(PasswordError::Delete(CredentialError::NoEntry))));
    assert!(matches!(
        forget_result(Ok(true), Some(Err(CredentialError::NoEntry))),
        Err(PasswordError::Delete(CredentialError::NoEntry))
    ));
}

#[test]
fn a_failure_names_the_store_it_happened_in() {
    assert_eq!(PasswordError::NotFound.message("macos"), "No stored password was found in macOS Keychain");
    assert_eq!(
        PasswordError::Read(CredentialError::NoEntry).message("windows"),
        "Unable to read a password from Windows Credential Manager"
    );
    assert_eq!(
        PasswordError::Write(CredentialError::NoEntry).message("linux"),
        "Unable to store password in system credential store"
    );
    assert_eq!(
        PasswordError::Delete(CredentialError::NoEntry).message("freebsd"),
        "Unable to delete password from system credential store"
    );
    let mut store = MemoryStore::default();
    let missing = load_from(&mut store, "profile:none").unwrap_err();
    assert_eq!(missing.message("linux"), "No stored password was found in system credential store");
}

#[test]
fn a_failed_write_is_reported_and_the_old_name_is_left_alone() {
    let mut store = MemoryStore::default();
    store.write_fails.borrow_mut().push(SERVICE_NAME.to_owned());
    store.put(LEGACY_SERVICE_NAME, "profile:kept", b"old");
    assert!(matches!(load_from(&mut store, "profile:kept"), Err(PasswordError::Write(_))));
    assert!(store.has(LEGACY_SERVICE_NAME, "profile:kept"));
    assert!(matches!(store_to(&mut store, "profile:new", "pw"), Err(PasswordError::Write(_))));
}
