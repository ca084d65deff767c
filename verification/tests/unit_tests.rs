use stronghold_session::error::Error;
use stronghold_session::kdf::password_to_key;
use stronghold_session::stronghold::Session;
use stronghold_session::status::{Status, compute_status};
use stronghold_session::table::{bytes_eq, clone_bytes, table_find, table_remove, table_set};

#[test]
fn derived_key_matches_the_raw_key_stretch() {
    // The same stretch done directly against the crypto crate: 100 rounds of
    // PBKDF2-HMAC-SHA512 over the fixed salt, first 32 of 64 bytes.
    let mut block = [0u8; 64];
    crypto::keys::pbkdf::PBKDF2_HMAC_SHA512(
        b"correct horse battery staple",
        b"tauri",
        core::num::NonZeroU32::new(100).unwrap(),
        &mut block,
    );
    let key = password_to_key("correct horse battery staple");
    assert_eq!(key.len(), 32);
    assert_eq!(key.as_slice(), &block[0..32]);
}

#[test]
fn derived_keys_differ_for_different_passphrases() {
    assert_ne!(password_to_key("one passphrase"), password_to_key("another passphrase"));
    assert_eq!(password_to_key("same"), password_to_key("same"));
}

#[test]
fn status_is_locked_without_an_access_record() {
    assert_eq!(compute_status(500, None, 1000), Status::Locked);
    assert_eq!(compute_status(0, None, 1000), Status::Locked);
}

#[test]
fn status_counts_the_remaining_time_down() {
    assert_eq!(compute_status(500, Some(1000), 1000), Status::Unlocked { remaining_ms: 500 });
    assert_eq!(compute_status(500, Some(1000), 1499), Status::Unlocked { remaining_ms: 1 });
    assert_eq!(compute_status(500, Some(1000), 1500), Status::Locked);
    assert_eq!(compute_status(500, Some(1000), 2000), Status::Locked);
}

#[test]
fn status_with_zero_interval_is_unlocked_forever() {
    assert_eq!(compute_status(0, Some(0), u64::MAX), Status::Unlocked { remaining_ms: 0 });
}

#[test]
fn status_tolerates_a_clock_that_moved_backwards() {
    assert_eq!(compute_status(500, Some(2000), 1000), Status::Unlocked { remaining_ms: 500 });
}

#[test]
fn byte_helpers_compare_and_copy() {
    assert!(bytes_eq(&b"abc".to_vec(), &b"abc".to_vec()));
    assert!(!bytes_eq(&b"abc".to_vec(), &b"abd".to_vec()));
    assert!(!bytes_eq(&b"abc".to_vec(), &b"ab".to_vec()));
    assert_eq!(clone_bytes(&b"xyz".to_vec()), b"xyz".to_vec());
}

#[test]
fn tables_store_replace_and_remove() {
    let mut t: Vec<(String, u64)> = Vec::new();
    table_set(&mut t, &String::from("a"), 1);
    table_set(&mut t, &String::from("b"), 2);
    table_set(&mut t, &String::from("a"), 3);
    let ia = table_find(&t, &String::from("a")).unwrap();
    assert_eq!(t[ia].1, 3);
    table_remove(&mut t, &String::from("a"));
    assert!(table_find(&t, &String::from("a")).is_none());
    let ib = table_find(&t, &String::from("b")).unwrap();
    assert_eq!(t[ib].1, 2);
}

#[test]
fn session_rejects_key_material_that_is_not_32_bytes() {
    let r = Session::new("/tmp/stronghold_session_tests/short_key.hold".to_string(), &vec![1, 2, 3]);
    assert!(matches!(r, Err(Error::Memory(_))));
}

#[test]
fn session_opens_saves_and_exposes_the_engine() {
    iota_stronghold::engine::snapshot::try_set_encrypt_work_factor(1).unwrap();
    let key = password_to_key("session passphrase");
    let mut session = Session::new(
        "/tmp/stronghold_session_tests/bare_session.hold".to_string(),
        &key,
    )
    .unwrap();
    assert!(!session.is_dirty());
    session.write_store(&b"c".to_vec(), b"k".to_vec(), b"v".to_vec(), None).unwrap();
    assert!(session.is_dirty() && session.has_clients());
    assert_eq!(session.read_store(&b"c".to_vec(), &b"k".to_vec()).unwrap(), Some(b"v".to_vec()));
    session.save().unwrap();
    assert!(!session.is_dirty());
    // The engine handle is reachable for callers that need raw engine APIs.
    let _engine: &iota_stronghold::Stronghold = session.inner();
}
