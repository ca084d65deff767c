use stronghold_session::error::Error;
use stronghold_session::session::SessionManager;
use stronghold_session::status::Status;

fn path(name: &str) -> String {
    format!("/tmp/stronghold_session_tests/{}.hold", name)
}

fn client() -> Vec<u8> {
    b"main-client".to_vec()
}

#[test]
fn save_then_get_returns_the_record() {
    let mut mgr = SessionManager::new(0);
    let p = path("roundtrip_memory");
    mgr.load(&p, "password-one", 0).unwrap();
    let prev = mgr
        .save_store_record(&p, &client(), b"loc".to_vec(), b"abc".to_vec(), None, 1)
        .unwrap();
    assert!(prev.is_none());
    let got = mgr.get_store_record(&p, &client(), &b"loc".to_vec(), 2).unwrap();
    assert_eq!(got, b"abc".to_vec());
}

#[test]
fn overwrite_returns_previous_value() {
    let mut mgr = SessionManager::new(0);
    let p = path("overwrite");
    mgr.load(&p, "pw", 0).unwrap();
    let k = b"slot".to_vec();
    assert!(mgr.save_store_record(&p, &client(), k.clone(), b"one".to_vec(), None, 1).unwrap().is_none());
    let prev = mgr.save_store_record(&p, &client(), k.clone(), b"two".to_vec(), None, 2).unwrap();
    assert_eq!(prev, Some(b"one".to_vec()));
    assert_eq!(mgr.get_store_record(&p, &client(), &k, 3).unwrap(), b"two".to_vec());
}

#[test]
fn delete_then_get_fails_with_record_not_found() {
    let mut mgr = SessionManager::new(0);
    let p = path("delete_removes");
    mgr.load(&p, "pw", 0).unwrap();
    let k = b"loc".to_vec();
    mgr.save_store_record(&p, &client(), k.clone(), b"data".to_vec(), None, 1).unwrap();
    let removed = mgr.remove_store_record(&p, &client(), &k, 2).unwrap();
    assert_eq!(removed, Some(b"data".to_vec()));
    let r = mgr.get_store_record(&p, &client(), &k, 3);
    assert!(matches!(r, Err(Error::RecordNotFound)));
}

#[test]
fn get_missing_record_fails_with_record_not_found() {
    let mut mgr = SessionManager::new(0);
    let p = path("missing_record");
    mgr.load(&p, "pw", 0).unwrap();
    let r = mgr.get_store_record(&p, &client(), &b"never-written".to_vec(), 1);
    assert!(matches!(r, Err(Error::RecordNotFound)));
}

#[test]
fn record_with_lifetime_is_readable_before_expiry() {
    let mut mgr = SessionManager::new(0);
    let p = path("lifetime");
    mgr.load(&p, "pw", 0).unwrap();
    let k = b"ttl-slot".to_vec();
    mgr.save_store_record(&p, &client(), k.clone(), b"short".to_vec(), Some(3_600_000), 1).unwrap();
    assert_eq!(mgr.get_store_record(&p, &client(), &k, 2).unwrap(), b"short".to_vec());
}

#[test]
fn operation_without_load_fails_with_password_not_set() {
    let mut mgr = SessionManager::new(0);
    let p = path("no_password");
    let r = mgr.get_store_record(&p, &client(), &b"loc".to_vec(), 0);
    assert!(matches!(r, Err(Error::PasswordNotSet)));
    let r = mgr.save_store_record(&p, &client(), b"loc".to_vec(), b"x".to_vec(), None, 1);
    assert!(matches!(r, Err(Error::PasswordNotSet)));
}

#[test]
fn idle_snapshot_is_evicted_by_the_sweeper() {
    // Clear interval 500 ms; load at 0, no access until 1500 ms.
    let mut mgr = SessionManager::new(500);
    let p = path("idle_eviction");
    mgr.load(&p, "pw", 0).unwrap();
    assert!(matches!(mgr.get_status(&p, 100), Status::Unlocked { remaining_ms: 400 }));
    mgr.sweep(1500);
    let r = mgr.get_store_record(&p, &client(), &b"loc".to_vec(), 1501);
    assert!(matches!(r, Err(Error::PasswordNotSet)));
    assert!(matches!(mgr.get_status(&p, 1501), Status::Locked));
}

#[test]
fn accesses_within_the_interval_keep_the_vault_awake() {
    let mut mgr = SessionManager::new(500);
    let p = path("keep_alive");
    mgr.load(&p, "pw", 0).unwrap();
    // Operations every 400 ms reset the idle clock each time.
    mgr.save_store_record(&p, &client(), b"k".to_vec(), b"v".to_vec(), None, 400).unwrap();
    mgr.sweep(800);
    assert!(matches!(mgr.get_status(&p, 800), Status::Unlocked { remaining_ms: 100 }));
    mgr.save_store_record(&p, &client(), b"k".to_vec(), b"v".to_vec(), None, 800).unwrap();
    mgr.sweep(1200);
    assert!(!matches!(mgr.get_status(&p, 1200), Status::Locked));
    assert_eq!(mgr.get_store_record(&p, &client(), &b"k".to_vec(), 1200).unwrap(), b"v".to_vec());
}

#[test]
fn sweeper_never_evicts_with_zero_interval() {
    let mut mgr = SessionManager::new(0);
    let p = path("zero_interval");
    mgr.load(&p, "pw", 0).unwrap();
    mgr.sweep(u64::MAX);
    assert!(matches!(mgr.get_status(&p, u64::MAX), Status::Unlocked { remaining_ms: 0 }));
    mgr.save_store_record(&p, &client(), b"k".to_vec(), b"v".to_vec(), None, u64::MAX).unwrap();
}

#[test]
fn record_written_under_one_snapshot_is_invisible_under_another() {
    // Snapshot-file encryption stretches the key; keep the test fast.
    iota_stronghold::engine::snapshot::try_set_encrypt_work_factor(1).unwrap();
    let mut mgr = SessionManager::new(0);
    let a = path("iso_fast_a");
    let b = path("iso_fast_b");
    mgr.load(&a, "pw-a", 0).unwrap();
    mgr.save_store_record(&a, &client(), b"loc".to_vec(), b"secret-a".to_vec(), None, 1).unwrap();
    mgr.load(&b, "pw-b", 2).unwrap();
    let r = mgr.get_store_record(&b, &client(), &b"loc".to_vec(), 3);
    assert!(matches!(r, Err(Error::RecordNotFound)));
}

#[test]
fn switching_away_persists_and_reloading_recovers_the_record() {
    // Snapshot-file encryption stretches the key; keep the test fast.
    iota_stronghold::engine::snapshot::try_set_encrypt_work_factor(1).unwrap();
    let mut mgr = SessionManager::new(0);
    let a = path("switch_fast_a");
    let b = path("switch_fast_b");
    mgr.load(&a, "pw-a", 0).unwrap();
    mgr.save_store_record(&a, &client(), b"loc".to_vec(), b"kept".to_vec(), None, 1).unwrap();
    // Loading B persists A's dirty state to A's file first.
    mgr.load(&b, "pw-b", 2).unwrap();
    // Re-loading A reads the record back from disk.
    mgr.load(&a, "pw-a", 3).unwrap();
    let got = mgr.get_store_record(&a, &client(), &b"loc".to_vec(), 4).unwrap();
    assert_eq!(got, b"kept".to_vec());
}

#[test]
fn save_persists_and_a_fresh_manager_reads_the_snapshot() {
    // Snapshot-file encryption stretches the key; keep the test fast.
    iota_stronghold::engine::snapshot::try_set_encrypt_work_factor(1).unwrap();
    let p = path("save_fast");
    let mut mgr = SessionManager::new(0);
    mgr.load(&p, "pw-save", 0).unwrap();
    mgr.save_store_record(&p, &client(), b"loc".to_vec(), b"durable".to_vec(), None, 1).unwrap();
    mgr.save(&p, 2).unwrap();
    let mut fresh = SessionManager::new(0);
    fresh.load(&p, "pw-save", 0).unwrap();
    let got = fresh.get_store_record(&p, &client(), &b"loc".to_vec(), 1).unwrap();
    assert_eq!(got, b"durable".to_vec());
}

#[test]
fn save_of_a_snapshot_that_is_not_loaded_fails() {
    let mut mgr = SessionManager::new(0);
    let r = mgr.save(&path("never_loaded"), 0);
    assert!(matches!(r, Err(Error::StrongholdNotInitialized)));
}

#[test]
fn loading_with_the_wrong_password_fails() {
    // Snapshot-file encryption stretches the key; keep the test fast.
    iota_stronghold::engine::snapshot::try_set_encrypt_work_factor(1).unwrap();
    let p = path("wrongpw_fast");
    let mut mgr = SessionManager::new(0);
    mgr.load(&p, "right-password", 0).unwrap();
    mgr.save_store_record(&p, &client(), b"loc".to_vec(), b"x".to_vec(), None, 1).unwrap();
    mgr.save(&p, 2).unwrap();
    let mut other = SessionManager::new(0);
    let r = other.load(&p, "wrong-password", 0);
    assert!(matches!(r, Err(Error::Stronghold(_))));
    // The failed load leaves nothing cached for the snapshot.
    assert!(matches!(other.get_status(&p, 1), Status::Locked));
}

#[test]
fn unload_destroys_the_cached_password() {
    let mut mgr = SessionManager::new(0);
    let p = path("unload");
    mgr.load(&p, "pw", 0).unwrap();
    mgr.unload(&p, false).unwrap();
    assert!(matches!(mgr.get_status(&p, 1), Status::Locked));
    let r = mgr.get_store_record(&p, &client(), &b"loc".to_vec(), 2);
    assert!(matches!(r, Err(Error::PasswordNotSet)));
}

#[test]
fn unload_of_a_snapshot_that_is_not_loaded_is_a_no_op() {
    let mut mgr = SessionManager::new(0);
    let p = path("unload_inactive");
    mgr.load(&p, "pw", 0).unwrap();
    mgr.unload(&path("some_other"), true).unwrap();
    assert!(matches!(mgr.get_status(&p, 1), Status::Unlocked { .. }));
}

#[test]
fn status_events_are_queued_in_order() {
    let mut mgr = SessionManager::new(500);
    let p = path("events");
    mgr.load(&p, "pw", 0).unwrap();
    mgr.sweep(1200);
    let events = mgr.take_events();
    assert_eq!(events.len(), 2);
    assert_eq!(events[0].path, p);
    assert!(matches!(events[0].status, Status::Unlocked { remaining_ms: 500 }));
    assert_eq!(events[1].path, p);
    assert!(matches!(events[1].status, Status::Locked));
    assert!(mgr.take_events().is_empty());
}

#[test]
fn changing_the_password_keeps_the_session_and_rekeys_the_file() {
    // Snapshot-file encryption stretches the key; keep the test fast.
    iota_stronghold::engine::snapshot::try_set_encrypt_work_factor(1).unwrap();
    let p = path("rekey_cycle");
    let mut mgr = SessionManager::new(0);
    // A leftover file from an earlier run is keyed under whichever passphrase
    // that run rekeyed to; find out which one opens it.
    let (pw_old, pw_new) = if mgr.load(&p, "alpha-passphrase", 0).is_ok() {
        ("alpha-passphrase", "beta-passphrase")
    } else {
        ("beta-passphrase", "alpha-passphrase")
    };
    mgr.load(&p, pw_old, 1).unwrap();
    mgr.save_store_record(&p, &client(), b"loc".to_vec(), b"v".to_vec(), None, 2).unwrap();
    mgr.load(&p, pw_new, 3).unwrap();
    // The in-memory record survives the re-authentication.
    assert_eq!(mgr.get_store_record(&p, &client(), &b"loc".to_vec(), 4).unwrap(), b"v".to_vec());
    // Persisting now encrypts under the new passphrase.
    mgr.save(&p, 5).unwrap();
    let mut fresh = SessionManager::new(0);
    fresh.load(&p, pw_new, 0).unwrap();
    assert_eq!(fresh.get_store_record(&p, &client(), &b"loc".to_vec(), 1).unwrap(), b"v".to_vec());
    // And the old passphrase no longer opens the file.
    let mut stale = SessionManager::new(0);
    assert!(matches!(stale.load(&p, pw_old, 0), Err(Error::Stronghold(_))));
}
