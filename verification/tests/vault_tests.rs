use iota_stronghold::Location;
use iota_stronghold::procedures::{Ed25519Sign, GenerateKey, KeyType, PublicKey,
    StrongholdProcedure};
use stronghold_session::error::Error;
use stronghold_session::session::SessionManager;

fn vpath(name: &str) -> String {
    format!("/tmp/stronghold_session_tests/{}.hold", name)
}

fn vclient() -> Vec<u8> {
    b"vault-client".to_vec()
}

#[test]
fn vault_record_appears_after_write_and_goes_away_on_removal() {
    let mut mgr = SessionManager::new(0);
    let p = vpath("vault_write_remove");
    mgr.load(&p, "pw", 0).unwrap();
    let vault = b"vault-one".to_vec();
    let record = b"record-one".to_vec();
    assert!(!mgr.vault_record_exists(&p, &vclient(), &vault, &record, 1).unwrap());
    mgr.save_vault_record(&p, &vclient(), &vault, &record, b"seed material".to_vec(), 2).unwrap();
    assert!(mgr.vault_record_exists(&p, &vclient(), &vault, &record, 3).unwrap());
    mgr.remove_vault_record(&p, &vclient(), &vault, &record, true, 4).unwrap();
    assert!(!mgr.vault_record_exists(&p, &vclient(), &vault, &record, 5).unwrap());
}

#[test]
fn vault_operations_without_a_password_fail() {
    let mut mgr = SessionManager::new(0);
    let p = vpath("vault_no_password");
    let r = mgr.save_vault_record(&p, &vclient(), &b"v".to_vec(), &b"r".to_vec(), b"x".to_vec(), 0);
    assert!(matches!(r, Err(Error::PasswordNotSet)));
}

#[test]
fn procedures_generate_and_use_a_key_without_exposing_it() {
    let mut mgr = SessionManager::new(0);
    let p = vpath("procedures");
    mgr.load(&p, "pw", 0).unwrap();
    let key_location = Location::generic(b"proc-vault".to_vec(), b"signing-key".to_vec());
    let generate = StrongholdProcedure::GenerateKey(GenerateKey {
        ty: KeyType::Ed25519,
        output: key_location.clone(),
    });
    let out = mgr.execute_procedure(&p, &vclient(), generate, 1).unwrap();
    assert!(out.is_empty());
    let public = StrongholdProcedure::PublicKey(PublicKey {
        ty: KeyType::Ed25519,
        private_key: key_location.clone(),
    });
    let public_key = mgr.execute_procedure(&p, &vclient(), public, 2).unwrap();
    assert_eq!(public_key.len(), 32);
    let sign = StrongholdProcedure::Ed25519Sign(Ed25519Sign {
        msg: b"message to sign".to_vec(),
        private_key: key_location,
    });
    let signature = mgr.execute_procedure(&p, &vclient(), sign, 3).unwrap();
    assert_eq!(signature.len(), 64);
}

#[test]
fn procedure_against_a_missing_key_fails() {
    let mut mgr = SessionManager::new(0);
    let p = vpath("procedure_missing_key");
    mgr.load(&p, "pw", 0).unwrap();
    let sign = StrongholdProcedure::Ed25519Sign(Ed25519Sign {
        msg: b"m".to_vec(),
        private_key: Location::generic(b"nowhere".to_vec(), b"nothing".to_vec()),
    });
    let r = mgr.execute_procedure(&p, &vclient(), sign, 1);
    assert!(matches!(r, Err(Error::Procedure(_))));
}
