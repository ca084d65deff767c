//! Trusted bindings to the `iota_stronghold` encrypted-storage engine.
//!
//! Everything in this module is believed, not proved: each wrapper's contract
//! states only what the engine's source shows. The engine owns the encrypted
//! snapshot file format, the envelope encryption and the secret vaults; this
//! crate's verified session logic decides when and with which key material the
//! engine is called.

use vstd::prelude::*;

verus! {

#[verifier::external_type_specification]
#[verifier::external_body]
pub struct ExStronghold(iota_stronghold::Stronghold);

#[verifier::external_type_specification]
#[verifier::external_body]
pub struct ExClient(iota_stronghold::Client);

#[verifier::external_type_specification]
#[verifier::external_body]
pub struct ExStore(iota_stronghold::Store);

#[verifier::external_type_specification]
#[verifier::external_body]
pub struct ExKeyProvider(iota_stronghold::KeyProvider);

#[verifier::external_type_specification]
#[verifier::external_body]
pub struct ExClientError(iota_stronghold::ClientError);

#[verifier::external_type_specification]
#[verifier::external_body]
pub struct ExMemoryError(iota_stronghold::MemoryError);

#[verifier::external_type_specification]
#[verifier::external_body]
pub struct ExProcedureError(iota_stronghold::procedures::ProcedureError);

#[verifier::external_type_specification]
#[verifier::external_body]
pub struct ExStrongholdProcedure(iota_stronghold::procedures::StrongholdProcedure);

/// The key-value entries of an engine `Store` that were inserted without a
/// lifetime. Such entries never expire, so for a store whose handle this crate
/// holds exclusively they are a pure function of the handle's value: the
/// underlying cache table only changes through the wrappers below.
pub uninterp spec fn store_entries(s: iota_stronghold::Store) -> Map<Seq<u8>, Seq<u8>>;

/// Every key present in an engine `Store`'s underlying table, including
/// entries that carry a lifetime and may expire at an unknown wall-clock
/// instant. A key outside this set has no entry of any kind.
pub uninterp spec fn store_key_set(s: iota_stronghold::Store) -> Set<Seq<u8>>;

/// Relies on `iota_stronghold::Stronghold::default`: a fresh engine instance
/// with no loaded snapshot and no registered clients.
#[verifier::external_body]
pub(crate) fn stronghold_default() -> iota_stronghold::Stronghold {
    iota_stronghold::Stronghold::default()
}

/// Relies on `iota_stronghold::SnapshotPath::{from_path, exists}`: whether a
/// snapshot file is present on disk at `path`. Disk state is outside the
/// verified model, so nothing is promised of the result.
#[verifier::external_body]
pub(crate) fn snapshot_file_exists(path: &str) -> bool {
    iota_stronghold::SnapshotPath::from_path(path).exists()
}

/// Relies on `KeyProvider::try_from` over `NCKey::load`: the engine accepts
/// key material if and only if it is exactly 32 bytes long.
#[verifier::external_body]
pub(crate) fn key_provider_from_key(
    key: &Vec<u8>,
) -> (r: Result<iota_stronghold::KeyProvider, iota_stronghold::MemoryError>)
    ensures
        r is Ok <==> key@.len() == 32,
{
    iota_stronghold::KeyProvider::try_from(zeroize::Zeroizing::new(key.clone()))
}

/// Relies on `Stronghold::load_snapshot`: decrypts and loads the snapshot file
/// at `path` into the engine's memory. Fails when the file is missing, the key
/// is wrong or the content is corrupt; the outcome depends on disk state, so
/// nothing is promised of it.
#[verifier::external_body]
pub(crate) fn load_snapshot(
    stronghold: &iota_stronghold::Stronghold,
    keyprovider: &iota_stronghold::KeyProvider,
    path: &str,
) -> Result<(), iota_stronghold::ClientError> {
    stronghold.load_snapshot(keyprovider, &iota_stronghold::SnapshotPath::from_path(path))
}

/// Relies on `Stronghold::commit_with_keyprovider`: encrypts every registered
/// client's state and writes it to the snapshot file at `path`. The outcome
/// depends on disk state, so nothing is promised of it.
#[verifier::external_body]
pub(crate) fn commit(
    stronghold: &iota_stronghold::Stronghold,
    path: &str,
    keyprovider: &iota_stronghold::KeyProvider,
) -> Result<(), iota_stronghold::ClientError> {
    stronghold.commit_with_keyprovider(&iota_stronghold::SnapshotPath::from_path(path), keyprovider)
}

/// Relies on `Stronghold::create_client`: registers and returns a fresh,
/// empty client under `name`.
#[verifier::external_body]
pub(crate) fn create_client(
    stronghold: &iota_stronghold::Stronghold,
    name: &Vec<u8>,
) -> Result<iota_stronghold::Client, iota_stronghold::ClientError> {
    stronghold.create_client(name.as_slice())
}

/// Relies on `Stronghold::load_client`: registers and returns a client
/// hydrated from the loaded snapshot, or fails (`ClientDataNotPresent` when
/// the snapshot holds no data under `name`).
#[verifier::external_body]
pub(crate) fn load_client(
    stronghold: &iota_stronghold::Stronghold,
    name: &Vec<u8>,
) -> Result<iota_stronghold::Client, iota_stronghold::ClientError> {
    stronghold.load_client(name.as_slice())
}

/// Relies on `Stronghold::clear`: best-effort teardown that zeroizes the
/// engine's in-memory snapshot and every registered client's state.
#[verifier::external_body]
pub(crate) fn stronghold_clear(
    stronghold: &iota_stronghold::Stronghold,
) -> Result<(), iota_stronghold::ClientError> {
    stronghold.clear()
}

/// Relies on `ClientError`'s variants: tells `ClientDataNotPresent` (a client
/// absent from the loaded snapshot) apart from every other engine failure.
#[verifier::external_body]
pub(crate) fn client_error_is_data_missing(e: &iota_stronghold::ClientError) -> bool {
    matches!(e, iota_stronghold::ClientError::ClientDataNotPresent)
}

/// Relies on `Client::store`: returns a handle to the client's store.
#[verifier::external_body]
pub(crate) fn client_store(client: &iota_stronghold::Client) -> iota_stronghold::Store {
    client.store()
}

/// Relies on `Store::clear` over `Cache::clear`: empties the store's table.
/// On an error (a poisoned lock) the table is untouched.
#[verifier::external_body]
pub(crate) fn store_clear(
    store: &mut iota_stronghold::Store,
) -> (r: Result<(), iota_stronghold::ClientError>)
    ensures
        r is Ok ==> store_entries(*final(store)) =~= vstd::map::Map::empty(),
        r is Ok ==> store_key_set(*final(store)) =~= vstd::set::Set::empty(),
        r is Err ==> store_entries(*final(store)) == store_entries(*old(store)),
        r is Err ==> store_key_set(*final(store)) == store_key_set(*old(store)),
{
    store.clear()
}

/// Relies on `Store::insert` over `Cache::insert`: inserts `value` under
/// `key`, replacing any previous entry, and returns the replaced value.
/// Entries inserted without a lifetime never expire; an entry inserted with a
/// lifetime may vanish at an unknown instant, so it only enters the key set.
/// On an error (a poisoned lock) the table is untouched.
#[verifier::external_body]
pub(crate) fn store_insert(
    store: &mut iota_stronghold::Store,
    key: Vec<u8>,
    value: Vec<u8>,
    lifetime_ms: Option<u64>,
) -> (r: Result<Option<Vec<u8>>, iota_stronghold::ClientError>)
    ensures
        r is Ok && lifetime_ms is None ==> store_entries(*final(store)) == store_entries(
            *old(store),
        ).insert(key@, value@),
        r is Ok && lifetime_ms is Some ==> store_entries(*final(store)) == store_entries(
            *old(store),
        ).remove(key@),
        r is Ok ==> store_key_set(*final(store)).subset_of(store_key_set(*old(store)).insert(key@)),
        r is Ok ==> store_key_set(*final(store)).contains(key@),
        r is Ok && store_entries(*old(store)).contains_key(key@) ==> (r matches Ok(prev)
            && prev matches Some(v) && v@ == store_entries(*old(store))[key@]),
        r is Err ==> store_entries(*final(store)) == store_entries(*old(store)),
        r is Err ==> store_key_set(*final(store)) == store_key_set(*old(store)),
{
    store.insert(key, value, lifetime_ms.map(std::time::Duration::from_millis))
}

/// Relies on `Store::get` over `Cache::get`: reads the entry under `key`
/// without touching the table. A lifetime-free entry is always returned; a
/// key absent from the table yields `None`; a key that only a lifetime entry
/// occupies may yield either, depending on the wall clock.
#[verifier::external_body]
pub(crate) fn store_get(
    store: &iota_stronghold::Store,
    key: &Vec<u8>,
) -> (r: Result<Option<Vec<u8>>, iota_stronghold::ClientError>)
    ensures
        r is Ok && store_entries(*store).contains_key(key@) ==> (r matches Ok(found)
            && found matches Some(v) && v@ == store_entries(*store)[key@]),
        r is Ok && !store_key_set(*store).contains(key@) ==> (r matches Ok(found) && found
            is None),
{
    store.get(key.as_slice())
}

/// Relies on `Store::delete` over `Cache::remove`: removes the entry under
/// `key` and returns the removed value. On an error (a poisoned lock) the
/// table is untouched.
#[verifier::external_body]
pub(crate) fn store_delete(
    store: &mut iota_stronghold::Store,
    key: &Vec<u8>,
) -> (r: Result<Option<Vec<u8>>, iota_stronghold::ClientError>)
    ensures
        r is Ok ==> store_entries(*final(store)) == store_entries(*old(store)).remove(key@),
        r is Ok ==> store_key_set(*final(store)).subset_of(store_key_set(*old(store)).remove(key@)),
        r is Ok && store_entries(*old(store)).contains_key(key@) ==> (r matches Ok(prev)
            && prev matches Some(v) && v@ == store_entries(*old(store))[key@]),
        r is Err ==> store_entries(*final(store)) == store_entries(*old(store)),
        r is Err ==> store_key_set(*final(store)) == store_key_set(*old(store)),
{
    store.delete(key.as_slice())
}

/// Relies on `Client::vault` and `ClientVault::write_secret`: writes a secret
/// into the vault `vault` at `record`. Secrets live in the client's guarded
/// vault memory, never in its store, so store handles are unaffected.
#[verifier::external_body]
pub(crate) fn vault_write_secret(
    client: &mut iota_stronghold::Client,
    vault: &Vec<u8>,
    record: &Vec<u8>,
    payload: Vec<u8>,
) -> Result<(), iota_stronghold::ClientError> {
    client.vault(vault.as_slice()).write_secret(
        iota_stronghold::Location::generic(vault.clone(), record.clone()),
        zeroize::Zeroizing::new(payload),
    )
}

/// Relies on `ClientVault::revoke_secret`: marks the vault record for
/// deletion without reclaiming its slot.
#[verifier::external_body]
pub(crate) fn vault_revoke_secret(
    client: &mut iota_stronghold::Client,
    vault: &Vec<u8>,
    record: &Vec<u8>,
) -> Result<(), iota_stronghold::ClientError> {
    client.vault(vault.as_slice()).revoke_secret(record.as_slice())
}

/// Relies on `ClientVault::delete_secret`: revokes the vault record and
/// garbage-collects the vault, reclaiming the slot.
#[verifier::external_body]
pub(crate) fn vault_delete_secret(
    client: &mut iota_stronghold::Client,
    vault: &Vec<u8>,
    record: &Vec<u8>,
) -> Result<bool, iota_stronghold::ClientError> {
    client.vault(vault.as_slice()).delete_secret(record.as_slice())
}

/// Relies on `Client::record_exists`: whether a vault record is present.
#[verifier::external_body]
pub(crate) fn record_exists(
    client: &iota_stronghold::Client,
    vault: &Vec<u8>,
    record: &Vec<u8>,
) -> Result<bool, iota_stronghold::ClientError> {
    client.record_exists(&iota_stronghold::Location::generic(vault.clone(), record.clone()))
}

/// Relies on `Client::execute_procedure`: runs a cryptographic procedure
/// against the client's vaults and returns its opaque output bytes.
/// Procedures act on vault and keystore state only, never on the store.
#[verifier::external_body]
pub(crate) fn execute_procedure(
    client: &mut iota_stronghold::Client,
    procedure: iota_stronghold::procedures::StrongholdProcedure,
) -> Result<Vec<u8>, iota_stronghold::procedures::ProcedureError> {
    client.execute_procedure(procedure).map(|output| output.into())
}

} // verus!
