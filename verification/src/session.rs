//! The session manager: the one gate every vault and store operation goes
//! through.
//!
//! A [`SessionManager`] owns the per-snapshot password store, the access
//! tracker, the clear-interval setting, the queue of status events and the at
//! most one loaded snapshot session. Callers hand every operation the current
//! time in milliseconds; a background task drives [`SessionManager::sweep`]
//! on the configured interval and delivers the queued events.

use vstd::prelude::*;
use vstd::string::StringSliceAdditionalSpecFns;
use crate::error::Error;
use crate::kdf;
use crate::status::{Status, StatusEvent, spec_status, compute_status};
use crate::stronghold::{Session, SessionView, ClientView, clients_has, clients_get};
use crate::engine;
use crate::table::{table_has, table_get, table_unique, table_find, table_set, table_remove,
    table_key_at, table_val_at, bytes_eq, clone_bytes};

verus! {

/// The model of a whole manager.
pub ghost struct ManagerView {
    pub interval_ms: u64,
    pub passwords: Seq<(String, Vec<u8>)>,
    pub access: Seq<(String, u64)>,
    pub current: Option<SessionView>,
    pub events: Seq<StatusEvent>,
}

/// The manager's well-formedness: both tables have pairwise-distinct keys,
/// every snapshot with a password has an access record, the loaded snapshot
/// (if any) has a password, and its container names are pairwise distinct.
pub open spec fn view_inv(m: ManagerView) -> bool {
    &&& table_unique(m.passwords)
    &&& table_unique(m.access)
    &&& (forall|k: Seq<char>| #[trigger]
        table_has(m.passwords, k) ==> table_has(m.access, k))
    &&& (forall|k: Seq<char>| #[trigger]
        table_has(m.passwords, k) ==> table_get(m.passwords, k)@.len() == 32)
    &&& match m.current {
        Some(s) => table_has(m.passwords, s.path) && crate::stronghold::clients_unique(s.clients),
        None => true,
    }
}

/// Idle time in milliseconds, saturating at zero for a clock that moved
/// backwards.
pub open spec fn spec_elapsed(now_ms: u64, then_ms: u64) -> int {
    if now_ms >= then_ms {
        now_ms - then_ms
    } else {
        0
    }
}

/// Whether the snapshot at `path` has sat idle past a positive clear
/// interval, so that the sweeper evicts its password.
pub open spec fn expired(m: ManagerView, path: Seq<char>, now_ms: u64) -> bool {
    &&& m.interval_ms > 0
    &&& table_has(m.access, path)
    &&& spec_elapsed(now_ms, table_get(m.access, path)) > m.interval_ms
}

/// The status the manager reports for `path` at `now_ms`.
pub open spec fn status_of(m: ManagerView, path: Seq<char>, now_ms: u64) -> Status {
    spec_status(
        m.interval_ms,
        if table_has(m.access, path) {
            Some(table_get(m.access, path))
        } else {
            None
        },
        now_ms,
    )
}

/// The two session states agree on everything but the dirty flag; a
/// fail-closed operation that persisted on the way may leave a session clean
/// but otherwise untouched.
pub open spec fn same_modulo_dirty(c1: Option<SessionView>, c2: Option<SessionView>) -> bool {
    match c1 {
        Some(s1) => c2 matches Some(s2) && s2.path == s1.path && s2.hydrated == s1.hydrated
            && s2.clients == s1.clients,
        None => c2 is None,
    }
}

/// What a successful `load` guarantees: the derived key is stored for `path`
/// (and nothing else changed in the password store), the access clock is
/// reset to `now_ms`, `path` is the loaded snapshot — keeping its in-memory
/// containers when it already was, starting from none otherwise — and one
/// status event for `path` was queued.
pub open spec fn load_ok(
    m1: ManagerView,
    m2: ManagerView,
    path: Seq<char>,
    key: Seq<u8>,
    now_ms: u64,
) -> bool {
    &&& m2.interval_ms == m1.interval_ms
    &&& table_has(m2.passwords, path) && table_get(m2.passwords, path)@ == key
    &&& table_has(m2.access, path) && table_get(m2.access, path) == now_ms
    &&& (forall|k: Seq<char>|
        k != path ==> #[trigger] table_has(m2.passwords, k) == table_has(m1.passwords, k))
    &&& (forall|k: Seq<char>|
        k != path && table_has(m1.passwords, k) ==> #[trigger] table_get(m2.passwords, k)
            == table_get(m1.passwords, k))
    &&& (forall|k: Seq<char>|
        k != path ==> #[trigger] table_has(m2.access, k) == table_has(m1.access, k))
    &&& (forall|k: Seq<char>|
        k != path && table_has(m1.access, k) ==> #[trigger] table_get(m2.access, k)
            == table_get(m1.access, k))
    &&& m2.current matches Some(s2) && s2.path == path && (match m1.current {
        Some(s1) => (s1.path == path ==> s2.clients == s1.clients && s2.hydrated == s1.hydrated)
            && (s1.path != path ==> s2.clients =~= Seq::<ClientView>::empty() && !s2.dirty),
        None => s2.clients =~= Seq::<ClientView>::empty() && !s2.dirty,
    })
    &&& m2.events.len() == m1.events.len() + 1
    &&& m2.events.take(m1.events.len() as int) =~= m1.events
    &&& m2.events[m1.events.len() as int].path@ == path
    &&& m2.events[m1.events.len() as int].status == spec_status(
        m1.interval_ms,
        Some(now_ms),
        now_ms,
    )
}

/// What making `path` the loaded snapshot on behalf of an operation
/// guarantees: the password store and the event queue are untouched, the
/// access clock for `path` is reset to `now_ms`, and `path` is loaded — its
/// session exactly as before when it already was, with no containers in
/// memory otherwise.
pub open spec fn ensure_ok(m1: ManagerView, m2: ManagerView, path: Seq<char>, now_ms: u64) -> bool {
    &&& m2.interval_ms == m1.interval_ms
    &&& m2.passwords == m1.passwords
    &&& m2.events == m1.events
    &&& table_has(m2.access, path) && table_get(m2.access, path) == now_ms
    &&& (forall|k: Seq<char>|
        k != path ==> #[trigger] table_has(m2.access, k) == table_has(m1.access, k))
    &&& (forall|k: Seq<char>|
        k != path && table_has(m1.access, k) ==> #[trigger] table_get(m2.access, k)
            == table_get(m1.access, k))
    &&& m2.current matches Some(s2) && s2.path == path && (match m1.current {
        Some(s1) => (s1.path == path ==> s2 == s1) && (s1.path != path ==> s2.clients
            =~= Seq::<ClientView>::empty() && !s2.dirty),
        None => s2.clients =~= Seq::<ClientView>::empty() && !s2.dirty,
    })
}

/// Whether `path` is the loaded snapshot and container `name` is spawned in
/// it.
pub open spec fn has_loaded_client(m: ManagerView, path: Seq<char>, name: Seq<u8>) -> bool {
    match m.current {
        Some(s) => s.path == path && clients_has(s.clients, name),
        None => false,
    }
}

/// The spawned container `name` of the loaded snapshot; meaningful only under
/// [`has_loaded_client`].
pub open spec fn loaded_client(m: ManagerView, name: Seq<u8>) -> ClientView {
    match m.current {
        Some(s) => clients_get(s.clients, name),
        None => ClientView { name, entries: Map::empty(), keys: Set::empty() },
    }
}

/// Whether one of the first `k` names in `s` reads `q`.
pub open spec fn name_in_prefix(s: Seq<String>, k: int, q: Seq<char>) -> bool {
    exists|x: int| 0 <= x < k && (#[trigger] s[x])@ == q
}

/// What one sweeper pass at `now_ms` guarantees: every snapshot whose
/// password had idled past a positive clear interval lost its password and
/// its access record — and its in-memory session, had it been the loaded one
/// (persisted best-effort first) — every other snapshot kept everything, and
/// one `Locked` event was queued per evicted snapshot.
pub open spec fn sweep_ok(m1: ManagerView, m2: ManagerView, now_ms: u64) -> bool {
    &&& m2.interval_ms == m1.interval_ms
    &&& (forall|q: Seq<char>| #[trigger]
        table_has(m2.passwords, q) <==> (table_has(m1.passwords, q) && !expired(m1, q, now_ms)))
    &&& (forall|q: Seq<char>| #[trigger]
        table_has(m2.passwords, q) ==> table_get(m2.passwords, q) == table_get(m1.passwords, q))
    &&& (forall|q: Seq<char>| #[trigger]
        table_has(m2.access, q) <==> (table_has(m1.access, q) && !(expired(m1, q, now_ms)
            && table_has(m1.passwords, q))))
    &&& (forall|q: Seq<char>| #[trigger]
        table_has(m2.access, q) ==> table_get(m2.access, q) == table_get(m1.access, q))
    &&& (match m1.current {
        Some(s) => if expired(m1, s.path, now_ms) {
            m2.current is None
        } else {
            m2.current == m1.current
        },
        None => m2.current is None,
    })
    &&& m2.events.len() >= m1.events.len()
    &&& m2.events.take(m1.events.len() as int) =~= m1.events
    &&& (forall|x: int|
        m1.events.len() <= x < m2.events.len() ==> (#[trigger] m2.events[x]).status is Locked
            && expired(m1, m2.events[x].path@, now_ms) && table_has(
            m1.passwords,
            m2.events[x].path@,
        ))
    &&& (forall|q: Seq<char>|
        table_has(m1.passwords, q) && #[trigger] expired(m1, q, now_ms) ==> exists|x: int|
            m1.events.len() <= x < m2.events.len() && (#[trigger] m2.events[x]).path@ == q)
}

/// The manager owning all session state; every operation goes through one
/// exclusive borrow of it, which is the single serialization gate.
pub struct SessionManager {
    interval_ms: u64,
    passwords: Vec<(String, Vec<u8>)>,
    access: Vec<(String, u64)>,
    current: Option<Session>,
    events: Vec<StatusEvent>,
}

impl View for SessionManager {
    type V = ManagerView;

    closed spec fn view(&self) -> ManagerView {
        ManagerView {
            interval_ms: self.interval_ms,
            passwords: self.passwords@,
            access: self.access@,
            current: match self.current {
                Some(s) => Some(s@),
                None => None,
            },
            events: self.events@,
        }
    }
}

impl SessionManager {
    /// Shorthand for the view invariant.
    pub open spec fn inv(self) -> bool {
        view_inv(self@)
    }

    /// A manager with no snapshot loaded, no passwords cached and the given
    /// password-clear interval (zero: never expire).
    pub fn new(clear_interval_ms: u64) -> (r: SessionManager)
        ensures
            r.inv(),
            r@.interval_ms == clear_interval_ms,
            r@.passwords =~= Seq::<(String, Vec<u8>)>::empty(),
            r@.access =~= Seq::<(String, u64)>::empty(),
            r@.current is None,
            r@.events =~= Seq::<StatusEvent>::empty(),
    {
        SessionManager {
            interval_ms: clear_interval_ms,
            passwords: Vec::new(),
            access: Vec::new(),
            current: None,
            events: Vec::new(),
        }
    }

    /// Sets the password-clear interval the sweeper works with; zero means
    /// cached passwords never expire.
    pub fn set_password_clear_interval(&mut self, interval_ms: u64)
        requires
            old(self).inv(),
        ensures
            final(self).inv(),
            final(self)@ == (ManagerView { interval_ms, ..old(self)@ }),
    {
        self.interval_ms = interval_ms;
    }

    /// The configured password-clear interval.
    pub fn password_clear_interval(&self) -> (r: u64)
        ensures
            r == self@.interval_ms,
    {
        self.interval_ms
    }

    /// The status of the snapshot at `path` at time `now_ms`: `Locked` when
    /// it was never accessed or has idled past a positive clear interval,
    /// otherwise `Unlocked` with the remaining time.
    pub fn get_status(&self, path: &String, now_ms: u64) -> (r: Status)
        requires
            self.inv(),
        ensures
            r == status_of(self@, path@, now_ms),
    {
        match table_find(&self.access, path) {
            Some(i) => {
                let t = self.access[i].1;
                proof {
                    crate::table::lemma_get_at(self@.access, path@, i as int);
                }
                compute_status(self.interval_ms, Some(t), now_ms)
            },
            None => compute_status(self.interval_ms, None, now_ms),
        }
    }

    /// Hands out the queued status events, in the order the core emitted
    /// them, and clears the queue.
    pub fn take_events(&mut self) -> (r: Vec<StatusEvent>)
        requires
            old(self).inv(),
        ensures
            final(self).inv(),
            r@ == old(self)@.events,
            final(self)@ == (ManagerView { events: Seq::<StatusEvent>::empty(), ..old(self)@ }),
    {
        let mut out: Vec<StatusEvent> = Vec::new();
        core::mem::swap(&mut self.events, &mut out);
        proof {
            assert(self@.events =~= Seq::<StatusEvent>::empty());
        }
        out
    }

    /// Authenticates the snapshot at `path` with `password` and makes it the
    /// loaded one. The passphrase is stretched into key material; when `path`
    /// is already loaded under a different password, the in-memory state is
    /// persisted under the old key before the new one replaces it; when
    /// another snapshot is loaded, it is persisted (if any container was
    /// spawned) and torn down first, and `path` starts with no containers in
    /// memory. Fail-closed: on an error nothing changes but possibly an
    /// already-persisted dirty flag.
    pub fn load(&mut self, path: &String, password: &str, now_ms: u64) -> (r: Result<(), Error>)
        requires
            old(self).inv(),
        ensures
            final(self).inv(),
            r is Ok ==> load_ok(
                old(self)@,
                final(self)@,
                path@,
                kdf::derived_key(password.spec_bytes()),
                now_ms,
            ),
            r matches Err(e) ==> (e is Stronghold),
            r is Err ==> final(self)@.passwords == old(self)@.passwords && final(self)@.access
                == old(self)@.access && final(self)@.events == old(self)@.events
                && final(self)@.interval_ms == old(self)@.interval_ms && same_modulo_dirty(
                old(self)@.current,
                final(self)@.current,
            ),
    {
        let ghost m1 = self@;
        let key = kdf::password_to_key(password);
        let is_same = match &self.current {
            Some(s) => *s.path() == *path,
            None => false,
        };
        if is_same {
            let mut session = self.current.take().unwrap();
            let idx = match table_find(&self.passwords, path) {
                Some(i) => i,
                None => {
                    proof {
                        assert(table_has(m1.passwords, path@));
                    }
                    vstd::pervasive::unreached()
                },
            };
            let stored_matches = bytes_eq(table_val_at(&self.passwords, idx), &key);
            if !stored_matches {
                if session.has_clients() {
                    match session.save() {
                        Ok(()) => {},
                        Err(e) => {
                            self.current = Some(session);
                            return Err(e);
                        },
                    }
                }
                let keyprovider = match engine::key_provider_from_key(&key) {
                    Ok(kp) => kp,
                    Err(_) => {
                        proof {
                            assert(key@.len() == 32);
                        }
                        vstd::pervasive::unreached()
                    },
                };
                session.set_keyprovider(keyprovider);
            }
            self.current = Some(session);
        } else {
            let old_session = self.current.take();
            match old_session {
                Some(mut s) => {
                    if s.has_clients() {
                        match s.save() {
                            Ok(()) => {},
                            Err(e) => {
                                self.current = Some(s);
                                return Err(e);
                            },
                        }
                    }
                    match Session::new(path.clone(), &key) {
                        Ok(ns) => {
                            s.teardown();
                            self.current = Some(ns);
                        },
                        Err(e) => {
                            self.current = Some(s);
                            return Err(e);
                        },
                    }
                },
                None => {
                    match Session::new(path.clone(), &key) {
                        Ok(ns) => {
                            self.current = Some(ns);
                        },
                        Err(e) => {
                            return Err(e);
                        },
                    }
                },
            }
        }
        table_set(&mut self.passwords, path, key);
        table_set(&mut self.access, path, now_ms);
        let status = compute_status(self.interval_ms, Some(now_ms), now_ms);
        self.events.push(StatusEvent { path: path.clone(), status });
        Ok(())
    }

    /// Runs the switch protocol on behalf of an operation against `path`: the
    /// cached key material must be present (else `PasswordNotSet`); when a
    /// different snapshot is loaded it is persisted first (if any container
    /// was spawned) and torn down, and `path` is loaded with the cached key;
    /// on success the access clock is reset to `now_ms`.
    fn ensure_session(&mut self, path: &String, now_ms: u64) -> (r: Result<(), Error>)
        requires
            old(self).inv(),
        ensures
            final(self).inv(),
            r is Ok ==> ensure_ok(old(self)@, final(self)@, path@, now_ms),
            r matches Err(e) ==> (e is PasswordNotSet || e is Stronghold),
            r matches Err(e) ==> ((e is PasswordNotSet) == !table_has(
                old(self)@.passwords,
                path@,
            )),
            !table_has(old(self)@.passwords, path@) ==> r is Err,
            r matches Err(e) ==> (e is PasswordNotSet ==> final(self)@ == old(self)@),
            r is Err ==> final(self)@.passwords == old(self)@.passwords && final(self)@.access
                == old(self)@.access && final(self)@.events == old(self)@.events
                && final(self)@.interval_ms == old(self)@.interval_ms && same_modulo_dirty(
                old(self)@.current,
                final(self)@.current,
            ),
    {
        let idx = match table_find(&self.passwords, path) {
            Some(i) => i,
            None => {
                return Err(Error::PasswordNotSet);
            },
        };
        let is_same = match &self.current {
            Some(s) => *s.path() == *path,
            None => false,
        };
        if !is_same {
            let key = clone_bytes(table_val_at(&self.passwords, idx));
            proof {
                crate::table::lemma_get_at(self@.passwords, path@, idx as int);
            }
            let old_session = self.current.take();
            match old_session {
                Some(mut s) => {
                    if s.has_clients() {
                        match s.save() {
                            Ok(()) => {},
                            Err(e) => {
                                self.current = Some(s);
                                return Err(e);
                            },
                        }
                    }
                    match Session::new(path.clone(), &key) {
                        Ok(ns) => {
                            s.teardown();
                            self.current = Some(ns);
                        },
                        Err(e) => {
                            self.current = Some(s);
                            return Err(e);
                        },
                    }
                },
                None => {
                    match Session::new(path.clone(), &key) {
                        Ok(ns) => {
                            self.current = Some(ns);
                        },
                        Err(e) => {
                            return Err(e);
                        },
                    }
                },
            }
        }
        table_set(&mut self.access, path, now_ms);
        Ok(())
    }

    /// Writes `value` under `key` into the store of container `client` of the
    /// snapshot at `path`, switching snapshots first if need be, and returns
    /// the value the write replaced. An entry written with a lifetime expires
    /// on its own; one written without stays until removed.
    pub fn save_store_record(
        &mut self,
        path: &String,
        client: &Vec<u8>,
        key: Vec<u8>,
        value: Vec<u8>,
        lifetime_ms: Option<u64>,
        now_ms: u64,
    ) -> (r: Result<Option<Vec<u8>>, Error>)
        requires
            old(self).inv(),
        ensures
            final(self).inv(),
            final(self)@.interval_ms == old(self)@.interval_ms,
            final(self)@.passwords == old(self)@.passwords,
            final(self)@.events == old(self)@.events,
            r matches Err(e) ==> (e is PasswordNotSet || e is Stronghold),
            r matches Err(e) ==> ((e is PasswordNotSet) == !table_has(
                old(self)@.passwords,
                path@,
            )),
            !table_has(old(self)@.passwords, path@) ==> r is Err && final(self)@ == old(self)@,
            r is Ok ==> table_has(final(self)@.access, path@) && table_get(
                final(self)@.access,
                path@,
            ) == now_ms,
            r is Ok ==> (match final(self)@.current {
                Some(s2) => s2.path == path@ && s2.dirty,
                None => false,
            }),
            r is Ok ==> has_loaded_client(final(self)@, path@, client@),
            r is Ok ==> (lifetime_ms is None ==> loaded_client(
                final(self)@,
                client@,
            ).entries.contains_key(key@) && loaded_client(final(self)@, client@).entries[key@]
                == value@),
            r is Ok ==> loaded_client(final(self)@, client@).keys.contains(key@),
            r is Ok && has_loaded_client(old(self)@, path@, client@) ==> (lifetime_ms is None
                ==> loaded_client(final(self)@, client@).entries == loaded_client(
                    old(self)@,
                    client@,
                ).entries.insert(key@, value@)),
            r is Ok && has_loaded_client(old(self)@, path@, client@) ==> (lifetime_ms is Some
                ==> loaded_client(final(self)@, client@).entries == loaded_client(
                    old(self)@,
                    client@,
                ).entries.remove(key@)),
            r is Ok && has_loaded_client(old(self)@, path@, client@) ==> loaded_client(
                final(self)@,
                client@,
            ).keys.subset_of(loaded_client(old(self)@, client@).keys.insert(key@)),
            r matches Ok(prev) ==> (has_loaded_client(old(self)@, path@, client@)
                && loaded_client(old(self)@, client@).entries.contains_key(key@) ==> (
            prev matches Some(v) && v@ == loaded_client(old(self)@, client@).entries[key@])),
    {
        match self.ensure_session(path, now_ms) {
            Ok(()) => {},
            Err(e) => {
                return Err(e);
            },
        }
        let mut session = self.current.take().unwrap();
        let res = session.write_store(client, key, value, lifetime_ms);
        self.current = Some(session);
        match res {
            Ok(prev) => Ok(prev),
            Err(e) => Err(e),
        }
    }

    /// Reads the store record under `key` in container `client` of the
    /// snapshot at `path`, switching snapshots first if need be. Reading a
    /// missing record fails with `RecordNotFound`.
    pub fn get_store_record(
        &mut self,
        path: &String,
        client: &Vec<u8>,
        key: &Vec<u8>,
        now_ms: u64,
    ) -> (r: Result<Vec<u8>, Error>)
        requires
            old(self).inv(),
        ensures
            final(self).inv(),
            final(self)@.interval_ms == old(self)@.interval_ms,
            final(self)@.passwords == old(self)@.passwords,
            final(self)@.events == old(self)@.events,
            r matches Err(e) ==> (e is PasswordNotSet || e is RecordNotFound || e is Stronghold),
            r matches Err(e) ==> ((e is PasswordNotSet) == !table_has(
                old(self)@.passwords,
                path@,
            )),
            !table_has(old(self)@.passwords, path@) ==> r is Err && final(self)@ == old(self)@,
            r is Ok || (r matches Err(e) && e is RecordNotFound) ==> table_has(
                final(self)@.access,
                path@,
            ) && table_get(final(self)@.access, path@) == now_ms,
            has_loaded_client(old(self)@, path@, client@) && loaded_client(
                old(self)@,
                client@,
            ).entries.contains_key(key@) ==> (match r {
                Ok(v) => v@ == loaded_client(old(self)@, client@).entries[key@],
                Err(e) => e is Stronghold,
            }),
            has_loaded_client(old(self)@, path@, client@) && !loaded_client(
                old(self)@,
                client@,
            ).keys.contains(key@) ==> (match r {
                Ok(_) => false,
                Err(e) => e is RecordNotFound || e is Stronghold,
            }),
            (match old(self)@.current {
                Some(s1) => s1.path != path@,
                None => true,
            }) && table_has(old(self)@.passwords, path@) && (match final(self)@.current {
                Some(s2) => !s2.hydrated,
                None => false,
            }) ==> (match r {
                Ok(_) => false,
                Err(e) => e is RecordNotFound || e is Stronghold,
            }),
            has_loaded_client(old(self)@, path@, client@) && r is Ok ==> loaded_client(
                final(self)@,
                client@,
            ) == loaded_client(old(self)@, client@),
    {
        match self.ensure_session(path, now_ms) {
            Ok(()) => {},
            Err(e) => {
                return Err(e);
            },
        }
        let mut session = self.current.take().unwrap();
        let res = session.read_store(client, key);
        self.current = Some(session);
        match res {
            Ok(Some(v)) => Ok(v),
            Ok(None) => Err(Error::RecordNotFound),
            Err(e) => Err(e),
        }
    }

    /// Removes the store record under `key` in container `client` of the
    /// snapshot at `path`, switching snapshots first if need be, and returns
    /// the removed value (`None` when nothing persistent was there).
    pub fn remove_store_record(
        &mut self,
        path: &String,
        client: &Vec<u8>,
        key: &Vec<u8>,
        now_ms: u64,
    ) -> (r: Result<Option<Vec<u8>>, Error>)
        requires
            old(self).inv(),
        ensures
            final(self).inv(),
            final(self)@.interval_ms == old(self)@.interval_ms,
            final(self)@.passwords == old(self)@.passwords,
            final(self)@.events == old(self)@.events,
            r matches Err(e) ==> (e is PasswordNotSet || e is Stronghold),
            r matches Err(e) ==> ((e is PasswordNotSet) == !table_has(
                old(self)@.passwords,
                path@,
            )),
            !table_has(old(self)@.passwords, path@) ==> r is Err && final(self)@ == old(self)@,
            r is Ok ==> table_has(final(self)@.access, path@) && table_get(
                final(self)@.access,
                path@,
            ) == now_ms,
            r is Ok ==> has_loaded_client(final(self)@, path@, client@),
            r is Ok ==> !loaded_client(final(self)@, client@).entries.contains_key(key@)
                && !loaded_client(final(self)@, client@).keys.contains(key@),
            r is Ok && has_loaded_client(old(self)@, path@, client@) ==> loaded_client(
                final(self)@,
                client@,
            ).entries == loaded_client(old(self)@, client@).entries.remove(key@),
            r matches Ok(prev) ==> (has_loaded_client(old(self)@, path@, client@)
                && loaded_client(old(self)@, client@).entries.contains_key(key@) ==> (
            prev matches Some(v) && v@ == loaded_client(old(self)@, client@).entries[key@])),
    {
        match self.ensure_session(path, now_ms) {
            Ok(()) => {},
            Err(e) => {
                return Err(e);
            },
        }
        let mut session = self.current.take().unwrap();
        let res = session.delete_store(client, key);
        self.current = Some(session);
        match res {
            Ok(prev) => Ok(prev),
            Err(e) => Err(e),
        }
    }

    /// Writes a secret into vault `vault` at `record` in container `client`
    /// of the snapshot at `path`, switching snapshots first if need be. The
    /// secret goes into guarded vault memory; no container's store changes.
    pub fn save_vault_record(
        &mut self,
        path: &String,
        client: &Vec<u8>,
        vault: &Vec<u8>,
        record: &Vec<u8>,
        payload: Vec<u8>,
        now_ms: u64,
    ) -> (r: Result<(), Error>)
        requires
            old(self).inv(),
        ensures
            final(self).inv(),
            final(self)@.interval_ms == old(self)@.interval_ms,
            final(self)@.passwords == old(self)@.passwords,
            final(self)@.events == old(self)@.events,
            r matches Err(e) ==> (e is PasswordNotSet || e is Stronghold),
            r matches Err(e) ==> ((e is PasswordNotSet) == !table_has(
                old(self)@.passwords,
                path@,
            )),
            !table_has(old(self)@.passwords, path@) ==> r is Err && final(self)@ == old(self)@,
            r is Ok ==> table_has(final(self)@.access, path@) && table_get(
                final(self)@.access,
                path@,
            ) == now_ms,
            r is Ok ==> has_loaded_client(final(self)@, path@, client@),
            r is Ok ==> (match final(self)@.current {
                Some(s2) => s2.path == path@ && s2.dirty,
                None => false,
            }),
            r is Ok && has_loaded_client(old(self)@, path@, client@) ==> loaded_client(
                final(self)@,
                client@,
            ) == loaded_client(old(self)@, client@),
    {
        match self.ensure_session(path, now_ms) {
            Ok(()) => {},
            Err(e) => {
                return Err(e);
            },
        }
        let mut session = self.current.take().unwrap();
        let res = session.write_vault(client, vault, record, payload);
        self.current = Some(session);
        res
    }

    /// Removes the vault record at `record` in vault `vault` of container
    /// `client` of the snapshot at `path`: revoked only, or revoked and
    /// garbage-collected when `reclaim` is set.
    pub fn remove_vault_record(
        &mut self,
        path: &String,
        client: &Vec<u8>,
        vault: &Vec<u8>,
        record: &Vec<u8>,
        reclaim: bool,
        now_ms: u64,
    ) -> (r: Result<(), Error>)
        requires
            old(self).inv(),
        ensures
            final(self).inv(),
            final(self)@.interval_ms == old(self)@.interval_ms,
            final(self)@.passwords == old(self)@.passwords,
            final(self)@.events == old(self)@.events,
            r matches Err(e) ==> (e is PasswordNotSet || e is Stronghold),
            r matches Err(e) ==> ((e is PasswordNotSet) == !table_has(
                old(self)@.passwords,
                path@,
            )),
            !table_has(old(self)@.passwords, path@) ==> r is Err && final(self)@ == old(self)@,
            r is Ok ==> table_has(final(self)@.access, path@) && table_get(
                final(self)@.access,
                path@,
            ) == now_ms,
            r is Ok ==> has_loaded_client(final(self)@, path@, client@),
            r is Ok ==> (match final(self)@.current {
                Some(s2) => s2.path == path@ && s2.dirty,
                None => false,
            }),
            r is Ok && has_loaded_client(old(self)@, path@, client@) ==> loaded_client(
                final(self)@,
                client@,
            ) == loaded_client(old(self)@, client@),
    {
        match self.ensure_session(path, now_ms) {
            Ok(()) => {},
            Err(e) => {
                return Err(e);
            },
        }
        let mut session = self.current.take().unwrap();
        let res = session.remove_vault_record(client, vault, record, reclaim);
        self.current = Some(session);
        res
    }

    /// Whether the vault record at `record` in vault `vault` of container
    /// `client` of the snapshot at `path` exists.
    pub fn vault_record_exists(
        &mut self,
        path: &String,
        client: &Vec<u8>,
        vault: &Vec<u8>,
        record: &Vec<u8>,
        now_ms: u64,
    ) -> (r: Result<bool, Error>)
        requires
            old(self).inv(),
        ensures
            final(self).inv(),
            final(self)@.interval_ms == old(self)@.interval_ms,
            final(self)@.passwords == old(self)@.passwords,
            final(self)@.events == old(self)@.events,
            r matches Err(e) ==> (e is PasswordNotSet || e is Stronghold),
            r matches Err(e) ==> ((e is PasswordNotSet) == !table_has(
                old(self)@.passwords,
                path@,
            )),
            !table_has(old(self)@.passwords, path@) ==> r is Err && final(self)@ == old(self)@,
            r is Ok ==> table_has(final(self)@.access, path@) && table_get(
                final(self)@.access,
                path@,
            ) == now_ms,
            r is Ok ==> has_loaded_client(final(self)@, path@, client@),
            r is Ok && has_loaded_client(old(self)@, path@, client@) ==> loaded_client(
                final(self)@,
                client@,
            ) == loaded_client(old(self)@, client@),
    {
        match self.ensure_session(path, now_ms) {
            Ok(()) => {},
            Err(e) => {
                return Err(e);
            },
        }
        let mut session = self.current.take().unwrap();
        let res = session.vault_record_exists(client, vault, record);
        self.current = Some(session);
        res
    }

    /// Runs a cryptographic procedure against the vaults of container
    /// `client` of the snapshot at `path` and returns its opaque output
    /// bytes, never the secrets it worked on.
    pub fn execute_procedure(
        &mut self,
        path: &String,
        client: &Vec<u8>,
        procedure: iota_stronghold::procedures::StrongholdProcedure,
        now_ms: u64,
    ) -> (r: Result<Vec<u8>, Error>)
        requires
            old(self).inv(),
        ensures
            final(self).inv(),
            final(self)@.interval_ms == old(self)@.interval_ms,
            final(self)@.passwords == old(self)@.passwords,
            final(self)@.events == old(self)@.events,
            r matches Err(e) ==> (e is PasswordNotSet || e is Stronghold || e is Procedure),
            r matches Err(e) ==> ((e is PasswordNotSet) == !table_has(
                old(self)@.passwords,
                path@,
            )),
            !table_has(old(self)@.passwords, path@) ==> r is Err && final(self)@ == old(self)@,
            r is Ok ==> table_has(final(self)@.access, path@) && table_get(
                final(self)@.access,
                path@,
            ) == now_ms,
            r is Ok ==> has_loaded_client(final(self)@, path@, client@),
            r is Ok ==> (match final(self)@.current {
                Some(s2) => s2.path == path@ && s2.dirty,
                None => false,
            }),
            r is Ok && has_loaded_client(old(self)@, path@, client@) ==> loaded_client(
                final(self)@,
                client@,
            ) == loaded_client(old(self)@, client@),
    {
        match self.ensure_session(path, now_ms) {
            Ok(()) => {},
            Err(e) => {
                return Err(e);
            },
        }
        let mut session = self.current.take().unwrap();
        let res = session.run_procedure(client, procedure);
        self.current = Some(session);
        res
    }

    /// Persists the loaded snapshot to its file. Fails with
    /// `StrongholdNotInitialized` when `path` is not the loaded snapshot: the
    /// save target and the runtime target must match.
    pub fn save(&mut self, path: &String, now_ms: u64) -> (r: Result<(), Error>)
        requires
            old(self).inv(),
        ensures
            final(self).inv(),
            final(self)@.interval_ms == old(self)@.interval_ms,
            final(self)@.passwords == old(self)@.passwords,
            final(self)@.events == old(self)@.events,
            r matches Err(e) ==> (e is StrongholdNotInitialized || e is Stronghold),
            (match old(self)@.current {
                Some(s) => s.path != path@,
                None => true,
            }) <==> (r matches Err(e) && e is StrongholdNotInitialized),
            r is Err ==> final(self)@ == old(self)@,
            r is Ok ==> same_modulo_dirty(old(self)@.current, final(self)@.current) && (
            match final(self)@.current {
                Some(s2) => !s2.dirty,
                None => false,
            }),
            r is Ok ==> table_has(final(self)@.access, path@) && table_get(
                final(self)@.access,
                path@,
            ) == now_ms,
            r is Ok ==> (forall|k: Seq<char>|
                k != path@ ==> #[trigger] table_has(final(self)@.access, k) == table_has(
                    old(self)@.access,
                    k,
                )),
            r is Ok ==> (forall|k: Seq<char>|
                k != path@ && table_has(old(self)@.access, k) ==> #[trigger] table_get(
                    final(self)@.access,
                    k,
                ) == table_get(old(self)@.access, k)),
    {
        let is_current = match &self.current {
            Some(s) => *s.path() == *path,
            None => false,
        };
        if !is_current {
            return Err(Error::StrongholdNotInitialized);
        }
        let mut session = self.current.take().unwrap();
        match session.save() {
            Ok(()) => {
                self.current = Some(session);
                table_set(&mut self.access, path, now_ms);
                Ok(())
            },
            Err(e) => {
                self.current = Some(session);
                Err(e)
            },
        }
    }

    /// Unloads the snapshot at `path` if it is the loaded one: persists it
    /// first when `persist` is set and any container was spawned, tears the
    /// in-memory state down, destroys its cached password and access record
    /// and queues a `Locked` event. Unloading a snapshot that is not loaded
    /// is not an error: there is nothing to do.
    pub fn unload(&mut self, path: &String, persist: bool) -> (r: Result<(), Error>)
        requires
            old(self).inv(),
        ensures
            final(self).inv(),
            final(self)@.interval_ms == old(self)@.interval_ms,
            r matches Err(e) ==> (e is Stronghold) && final(self)@ == old(self)@,
            (match old(self)@.current {
                Some(s) => s.path != path@,
                None => true,
            }) ==> r is Ok && final(self)@ == old(self)@,
            r is Ok && (match old(self)@.current {
                Some(s) => s.path == path@,
                None => false,
            }) ==> final(self)@.current is None && !table_has(final(self)@.passwords, path@)
                && !table_has(final(self)@.access, path@) && final(self)@.events.len()
                == old(self)@.events.len() + 1 && final(self)@.events.take(
                old(self)@.events.len() as int,
            ) =~= old(self)@.events && final(self)@.events.last().path@ == path@
                && (final(self)@.events.last().status is Locked),
            r is Ok ==> (forall|k: Seq<char>|
                k != path@ ==> #[trigger] table_has(final(self)@.passwords, k) == table_has(
                    old(self)@.passwords,
                    k,
                ) && #[trigger] table_has(final(self)@.access, k) == table_has(
                    old(self)@.access,
                    k,
                )),
            r is Ok ==> (forall|k: Seq<char>|
                k != path@ && table_has(old(self)@.passwords, k) ==> #[trigger] table_get(
                    final(self)@.passwords,
                    k,
                ) == table_get(old(self)@.passwords, k)),
            r is Ok ==> (forall|k: Seq<char>|
                k != path@ && table_has(old(self)@.access, k) ==> #[trigger] table_get(
                    final(self)@.access,
                    k,
                ) == table_get(old(self)@.access, k)),
    {
        let is_current = match &self.current {
            Some(s) => *s.path() == *path,
            None => false,
        };
        if !is_current {
            return Ok(());
        }
        let mut session = self.current.take().unwrap();
        if persist && session.has_clients() {
            match session.save() {
                Ok(()) => {},
                Err(e) => {
                    self.current = Some(session);
                    return Err(e);
                },
            }
        }
        session.teardown();
        table_remove(&mut self.passwords, path);
        table_remove(&mut self.access, path);
        self.events.push(StatusEvent { path: path.clone(), status: Status::Locked });
        Ok(())
    }

    /// One sweeper pass at `now_ms`: evicts the password, the access record
    /// and — when it is the loaded one — the in-memory session of every
    /// snapshot that idled past the clear interval, queueing one `Locked`
    /// event per eviction. The loaded session is persisted best-effort before
    /// teardown; a persist failure is dropped, never propagated, so the sweep
    /// loop can run forever. An interval of zero means nothing ever expires.
    pub fn sweep(&mut self, now_ms: u64)
        requires
            old(self).inv(),
        ensures
            final(self).inv(),
            sweep_ok(old(self)@, final(self)@, now_ms),
    {
        let ghost m1 = self@;
        if self.interval_ms == 0 {
            proof {
                assert(m1.events.take(m1.events.len() as int) =~= m1.events);
                assert(forall|q: Seq<char>| !expired(m1, q, now_ms));
            }
            return;
        }
        let mut expired_paths: Vec<String> = Vec::new();
        let mut i: usize = 0;
        while i < self.passwords.len()
            invariant
                self.inv(),
                self@ == m1,
                m1.interval_ms > 0,
                i <= m1.passwords.len(),
                forall|x: int|
                    0 <= x < expired_paths@.len() ==> table_has(
                        m1.passwords,
                        (#[trigger] expired_paths@[x])@,
                    ) && expired(m1, expired_paths@[x]@, now_ms),
                forall|j: int|
                    0 <= j < i ==> (expired(m1, (#[trigger] m1.passwords[j]).0@, now_ms)
                        ==> name_in_prefix(
                        expired_paths@,
                        expired_paths@.len() as int,
                        m1.passwords[j].0@,
                    )),
            decreases m1.passwords.len() - i,
        {
            let p = table_key_at(&self.passwords, i).clone();
            proof {
                assert(table_has(m1.passwords, p@));
            }
            match table_find(&self.access, &p) {
                Some(j) => {
                    let t = self.access[j].1;
                    proof {
                        crate::table::lemma_get_at(m1.access, p@, j as int);
                    }
                    let elapsed: u64 = if now_ms >= t {
                        now_ms - t
                    } else {
                        0
                    };
                    if elapsed > self.interval_ms {
                        let ghost before = expired_paths@;
                        expired_paths.push(p);
                        proof {
                            assert(expired_paths@[before.len() as int]@ == m1.passwords[i as int].0@);
                            assert forall|j: int|
                                0 <= j < i + 1 && expired(
                                    m1,
                                    (#[trigger] m1.passwords[j]).0@,
                                    now_ms,
                                ) implies name_in_prefix(
                                expired_paths@,
                                expired_paths@.len() as int,
                                m1.passwords[j].0@,
                            ) by {
                                if j < i {
                                    let w = choose|w: int|
                                        0 <= w < before.len() && (#[trigger] before[w])@
                                            == m1.passwords[j].0@;
                                    assert(expired_paths@[w]@ == m1.passwords[j].0@);
                                } else {
                                    assert(expired_paths@[before.len() as int]@
                                        == m1.passwords[j].0@);
                                }
                            }
                        }
                    }
                },
                None => {
                    proof {
                        assert(table_has(m1.access, p@));
                        assert(false);
                    }
                },
            }
            i += 1;
        }
        let ghost listed = expired_paths@;
        proof {
            assert forall|q: Seq<char>|
                table_has(m1.passwords, q) && #[trigger] expired(m1, q, now_ms) implies
                name_in_prefix(listed, listed.len() as int, q) by {
                let w = choose|w: int|
                    0 <= w < m1.passwords.len() && (#[trigger] m1.passwords[w]).0@ == q;
                assert(expired(m1, m1.passwords[w].0@, now_ms));
            }
            assert(m1.events.take(m1.events.len() as int) =~= m1.events);
        }
        let n = expired_paths.len();
        let mut k: usize = 0;
        while k < n
            invariant
                self.inv(),
                expired_paths@ == listed,
                n == listed.len(),
                k <= n,
                self@.interval_ms == m1.interval_ms,
                forall|x: int|
                    0 <= x < listed.len() ==> table_has(m1.passwords, (#[trigger] listed[x])@)
                        && expired(m1, listed[x]@, now_ms),
                forall|q: Seq<char>|
                    table_has(m1.passwords, q) && #[trigger] expired(m1, q, now_ms)
                        ==> name_in_prefix(listed, listed.len() as int, q),
                forall|q: Seq<char>| #[trigger]
                    table_has(self@.passwords, q) <==> (table_has(m1.passwords, q)
                        && !name_in_prefix(listed, k as int, q)),
                forall|q: Seq<char>| #[trigger]
                    table_has(self@.passwords, q) ==> table_get(self@.passwords, q) == table_get(
                        m1.passwords,
                        q,
                    ),
                forall|q: Seq<char>| #[trigger]
                    table_has(self@.access, q) <==> (table_has(m1.access, q) && !name_in_prefix(
                        listed,
                        k as int,
                        q,
                    )),
                forall|q: Seq<char>| #[trigger]
                    table_has(self@.access, q) ==> table_get(self@.access, q) == table_get(
                        m1.access,
                        q,
                    ),
                (match m1.current {
                    Some(s) => if name_in_prefix(listed, k as int, s.path) {
                        self@.current is None
                    } else {
                        self@.current == m1.current
                    },
                    None => self@.current is None,
                }),
                self@.events.len() == m1.events.len() + k,
                self@.events.take(m1.events.len() as int) =~= m1.events,
                forall|x: int|
                    0 <= x < k ==> (#[trigger] self@.events[m1.events.len() + x]).path@
                        == listed[x]@ && (self@.events[m1.events.len() + x].status is Locked),
            decreases n - k,
        {
            let ghost mk = self@;
            let p = expired_paths[k].clone();
            let evict_current = match &self.current {
                Some(s) => *s.path() == p,
                None => false,
            };
            if evict_current {
                let mut s = self.current.take().unwrap();
                if s.is_dirty() {
                    let _ = s.save();
                }
                s.teardown();
            }
            table_remove(&mut self.passwords, &p);
            table_remove(&mut self.access, &p);
            self.events.push(StatusEvent { path: p, status: Status::Locked });
            k += 1;
            proof {
                assert forall|q: Seq<char>| #[trigger] name_in_prefix(listed, k as int, q) implies (
                name_in_prefix(listed, k - 1 as int, q) || listed[k - 1]@ == q) by {
                    let w = choose|w: int| 0 <= w < k && (#[trigger] listed[w])@ == q;
                    if w < k - 1 {
                        assert(name_in_prefix(listed, k - 1 as int, q));
                    }
                }
                assert forall|q: Seq<char>| name_in_prefix(listed, k - 1 as int, q) implies
                    #[trigger] name_in_prefix(listed, k as int, q) by {
                    let w = choose|w: int| 0 <= w < k - 1 && (#[trigger] listed[w])@ == q;
                    assert(0 <= w < k && listed[w]@ == q);
                }
                assert(name_in_prefix(listed, k as int, listed[k - 1]@));
                assert(self@.events.take(m1.events.len() as int) =~= mk.events.take(
                    m1.events.len() as int,
                ));
            }
        }
        proof {
            assert forall|q: Seq<char>| #[trigger]
                table_has(self@.passwords, q) <==> (table_has(m1.passwords, q) && !expired(
                m1,
                q,
                now_ms,
            )) by {
                if name_in_prefix(listed, n as int, q) {
                    let w = choose|w: int| 0 <= w < n && (#[trigger] listed[w])@ == q;
                    assert(expired(m1, q, now_ms));
                }
            }
            assert forall|q: Seq<char>| #[trigger]
                table_has(self@.access, q) <==> (table_has(m1.access, q) && !(expired(
                m1,
                q,
                now_ms,
            ) && table_has(m1.passwords, q))) by {
                if name_in_prefix(listed, n as int, q) {
                    let w = choose|w: int| 0 <= w < n && (#[trigger] listed[w])@ == q;
                    assert(expired(m1, q, now_ms) && table_has(m1.passwords, q));
                }
            }
            match m1.current {
                Some(s) => {
                    if expired(m1, s.path, now_ms) {
                        assert(table_has(m1.passwords, s.path));
                        assert(name_in_prefix(listed, n as int, s.path));
                    } else {
                        if name_in_prefix(listed, n as int, s.path) {
                            let w = choose|w: int| 0 <= w < n && (#[trigger] listed[w])@ == s.path;
                            assert(expired(m1, s.path, now_ms));
                            assert(false);
                        }
                    }
                },
                None => {},
            }
            assert forall|x: int| m1.events.len() <= x < self@.events.len() implies (
            #[trigger] self@.events[x]).status is Locked && expired(
                m1,
                self@.events[x].path@,
                now_ms,
            ) && table_has(m1.passwords, self@.events[x].path@) by {
                let w = x - m1.events.len();
                assert(0 <= w < n);
                assert(self@.events[m1.events.len() + w].path@ == listed[w]@);
                assert(self@.events[m1.events.len() + w].status is Locked);
            }
            assert forall|q: Seq<char>|
                table_has(m1.passwords, q) && #[trigger] expired(m1, q, now_ms) implies exists|
                x: int,
            |
                m1.events.len() <= x < self@.events.len() && (#[trigger] self@.events[x]).path@
                    == q by {
                let w = choose|w: int| 0 <= w < n && (#[trigger] listed[w])@ == q;
                assert(self@.events[m1.events.len() + w].path@ == q);
            }
        }
    }
}

} // verus!
