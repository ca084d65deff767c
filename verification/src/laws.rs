//! The guarantees the session layer gives across operations, each proved from
//! the contracts the operations themselves carry.
//!
//! One guarantee is deliberately absent: that switching away from a snapshot
//! and later re-loading it brings the earlier writes back. Its truth runs
//! through the snapshot file on disk and the engine's envelope encryption,
//! which no contract here models, so the integration tests exercise it
//! end-to-end instead.

use vstd::prelude::*;
use crate::error::Error;
use crate::session::{ManagerView, view_inv, spec_elapsed, expired, status_of, sweep_ok, load_ok,
    has_loaded_client, loaded_client};
use crate::status::Status;
use crate::stronghold::{ClientView, clients_has};
use crate::table::{table_has, table_get};

verus! {

/// Idle eviction: with a positive clear interval, a snapshot left unaccessed
/// for longer than the interval reports `Locked`, one sweeper pass destroys
/// its cached password and access record, it still reports `Locked`
/// afterwards, and a record operation then fails with `PasswordNotSet` — the
/// last step by the record operations' own guarantee, taken here as the
/// hypothesis about `r`.
pub proof fn lemma_idle_eviction(
    m1: ManagerView,
    m2: ManagerView,
    path: Seq<char>,
    now_ms: u64,
    r: Result<Vec<u8>, Error>,
)
    requires
        view_inv(m1),
        m1.interval_ms > 0,
        table_has(m1.passwords, path),
        table_has(m1.access, path),
        spec_elapsed(now_ms, table_get(m1.access, path)) > m1.interval_ms,
        sweep_ok(m1, m2, now_ms),
        !table_has(m2.passwords, path) ==> (r matches Err(e) && e is PasswordNotSet),
    ensures
        status_of(m1, path, now_ms) == Status::Locked,
        !table_has(m2.passwords, path),
        !table_has(m2.access, path),
        status_of(m2, path, now_ms) == Status::Locked,
        r matches Err(e) && e is PasswordNotSet,
{
    assert(expired(m1, path, now_ms));
}

/// Keep-alive: a snapshot accessed within the clear interval does not report
/// `Locked`, and a sweeper pass run at that moment keeps its password: only
/// idleness strictly past the interval evicts.
pub proof fn lemma_keep_alive(m1: ManagerView, m2: ManagerView, path: Seq<char>, now_ms: u64)
    requires
        view_inv(m1),
        table_has(m1.access, path),
        m1.interval_ms == 0 || spec_elapsed(now_ms, table_get(m1.access, path))
            < m1.interval_ms,
        sweep_ok(m1, m2, now_ms),
    ensures
        status_of(m1, path, now_ms) is Unlocked,
        table_has(m2.passwords, path) == table_has(m1.passwords, path),
        table_has(m2.access, path),
        status_of(m2, path, now_ms) == status_of(m1, path, now_ms),
{
    assert(!expired(m1, path, now_ms));
}

/// Round-trip: after a successful lifetime-free write of `value` under
/// `key`, the loaded container maps `key` to `value` (the write's own
/// guarantee), so a read of `key` from that state — whose guarantee about
/// `r` is the final hypothesis — returns exactly `value` whenever it returns
/// at all, and can neither miss the record nor ask for a password.
pub proof fn lemma_round_trip(
    m: ManagerView,
    path: Seq<char>,
    client: Seq<u8>,
    key: Seq<u8>,
    value: Seq<u8>,
    r: Result<Vec<u8>, Error>,
)
    requires
        has_loaded_client(m, path, client),
        loaded_client(m, client).entries.contains_key(key),
        loaded_client(m, client).entries[key] == value,
        (match r {
            Ok(v) => v@ == loaded_client(m, client).entries[key],
            Err(e) => e is Stronghold,
        }),
    ensures
        r matches Ok(v) ==> v@ == value,
        !(r matches Err(e) && (e is RecordNotFound || e is PasswordNotSet)),
{
}

/// Delete removes: after a successful removal of `key` the loaded container
/// holds no entry of any kind under `key` (the removal's own guarantee), so
/// a read of `key` from that state — whose guarantee about `r` is the final
/// hypothesis — cannot return a value: it fails, with `RecordNotFound`
/// unless the engine itself failed.
pub proof fn lemma_delete_removes(
    m: ManagerView,
    path: Seq<char>,
    client: Seq<u8>,
    key: Seq<u8>,
    r: Result<Vec<u8>, Error>,
)
    requires
        has_loaded_client(m, path, client),
        !loaded_client(m, client).entries.contains_key(key),
        !loaded_client(m, client).keys.contains(key),
        (has_loaded_client(m, path, client) && !loaded_client(m, client).keys.contains(key) ==> (
        match r {
            Ok(_) => false,
            Err(e) => e is RecordNotFound || e is Stronghold,
        })),
    ensures
        !(r is Ok),
        r matches Err(e) ==> (e is RecordNotFound || e is Stronghold),
{
}

/// Snapshot isolation: loading a different snapshot tears down every
/// in-memory container of the one loaded before, so nothing written under
/// the old snapshot is visible through the new session's state; a record can
/// only reappear out of the new snapshot's own file.
pub proof fn lemma_snapshot_isolation(
    m1: ManagerView,
    m2: ManagerView,
    path_a: Seq<char>,
    path_b: Seq<char>,
    key: Seq<u8>,
    now_ms: u64,
)
    requires
        view_inv(m1),
        (match m1.current {
            Some(s1) => s1.path == path_a,
            None => true,
        }),
        path_b != path_a,
        load_ok(m1, m2, path_b, key, now_ms),
    ensures
        (match m2.current {
            Some(s2) => s2.path == path_b && s2.clients =~= Seq::<ClientView>::empty()
                && forall|name: Seq<u8>| !clients_has(s2.clients, name),
            None => false,
        }),
        forall|name: Seq<u8>| !has_loaded_client(m2, path_b, name),
{
}

} // verus!
