//! One loaded snapshot: the engine handle, its key material and the logical
//! containers ("clients") spawned for it.
//!
//! A [`Session`] value is the in-memory state of exactly one snapshot
//! file. Creating one derives nothing and reads the snapshot file only if it
//! already exists; every container is spawned lazily on first use. Record
//! contents are modelled through the engine store's named contents, so the
//! contracts below pin down what a read returns after a write.

use vstd::prelude::*;
use crate::engine;
use crate::error::Error;
use crate::table::bytes_eq;

verus! {

/// The model of one spawned container: its name, the store entries that were
/// written without a lifetime, and the set of every key its store holds.
pub ghost struct ClientView {
    pub name: Seq<u8>,
    pub entries: Map<Seq<u8>, Seq<u8>>,
    pub keys: Set<Seq<u8>>,
}

/// The model of one loaded snapshot.
pub ghost struct SessionView {
    pub path: Seq<char>,
    pub hydrated: bool,
    pub clients: Seq<ClientView>,
    pub dirty: bool,
}

/// Whether `s` holds a container named `name`.
pub open spec fn clients_has(s: Seq<ClientView>, name: Seq<u8>) -> bool {
    exists|i: int| 0 <= i < s.len() && (#[trigger] s[i]).name == name
}

/// The container named `name`; meaningful only when [`clients_has`] holds and
/// names are pairwise distinct.
pub open spec fn clients_get(s: Seq<ClientView>, name: Seq<u8>) -> ClientView {
    s[choose|i: int| 0 <= i < s.len() && (#[trigger] s[i]).name == name]
}

/// Pairwise-distinct container names.
pub open spec fn clients_unique(s: Seq<ClientView>) -> bool {
    forall|i: int, j: int|
        0 <= i < j < s.len() ==> (#[trigger] s[i]).name != (#[trigger] s[j]).name
}

/// With distinct names, any container named `name` is the one that
/// [`clients_get`] denotes.
pub proof fn lemma_clients_get_at(s: Seq<ClientView>, name: Seq<u8>, i: int)
    requires
        clients_unique(s),
        0 <= i < s.len(),
        s[i].name == name,
    ensures
        clients_has(s, name),
        clients_get(s, name) == s[i],
{
    assert(clients_has(s, name));
    let j = choose|j: int| 0 <= j < s.len() && (#[trigger] s[j]).name == name;
    if i != j {
        assert(s[i].name != s[j].name);
        assert(false);
    }
}

/// Replacing one container by another of the same name touches no other
/// container.
pub proof fn lemma_clients_update(s1: Seq<ClientView>, s2: Seq<ClientView>, i: int)
    requires
        clients_unique(s1),
        0 <= i < s1.len(),
        s2 =~= s1.update(i, s2[i]),
        s2[i].name == s1[i].name,
    ensures
        clients_unique(s2),
        clients_has(s2, s1[i].name),
        clients_get(s2, s1[i].name) == s2[i],
        clients_has(s1, s1[i].name),
        clients_get(s1, s1[i].name) == s1[i],
        forall|n: Seq<u8>|
            n != s1[i].name ==> #[trigger] clients_has(s2, n) == clients_has(s1, n),
        forall|n: Seq<u8>|
            n != s1[i].name && clients_has(s1, n) ==> #[trigger] clients_get(s2, n)
                == clients_get(s1, n),
{
    assert forall|a: int, b: int| 0 <= a < b < s2.len() implies (#[trigger] s2[a]).name
        != (#[trigger] s2[b]).name by {
        assert(s1[a].name == s2[a].name && s1[b].name == s2[b].name);
    }
    lemma_clients_get_at(s2, s1[i].name, i);
    lemma_clients_get_at(s1, s1[i].name, i);
    assert forall|n: Seq<u8>| n != s1[i].name implies #[trigger] clients_has(s2, n)
        == clients_has(s1, n) by {
        if clients_has(s1, n) {
            let w = choose|w: int| 0 <= w < s1.len() && (#[trigger] s1[w]).name == n;
            assert(w != i && s2[w] == s1[w]);
            assert(clients_has(s2, n));
        }
        if clients_has(s2, n) {
            let w = choose|w: int| 0 <= w < s2.len() && (#[trigger] s2[w]).name == n;
            assert(w != i && s2[w] == s1[w]);
            assert(clients_has(s1, n));
        }
    }
    assert forall|n: Seq<u8>| n != s1[i].name && clients_has(s1, n) implies #[trigger] clients_get(
        s2,
        n,
    ) == clients_get(s1, n) by {
        let w = choose|w: int| 0 <= w < s1.len() && (#[trigger] s1[w]).name == n;
        assert(w != i && s2[w] == s1[w]);
        lemma_clients_get_at(s1, n, w);
        lemma_clients_get_at(s2, n, w);
    }
}

struct ClientEntry {
    name: Vec<u8>,
    client: iota_stronghold::Client,
    store: iota_stronghold::Store,
}

impl View for ClientEntry {
    type V = ClientView;

    closed spec fn view(&self) -> ClientView {
        ClientView {
            name: self.name@,
            entries: engine::store_entries(self.store),
            keys: engine::store_key_set(self.store),
        }
    }
}

/// The in-memory state of one loaded snapshot file.
pub struct Session {
    path: String,
    inner: iota_stronghold::Stronghold,
    keyprovider: iota_stronghold::KeyProvider,
    hydrated: bool,
    clients: Vec<ClientEntry>,
    dirty: bool,
}

impl View for Session {
    type V = SessionView;

    closed spec fn view(&self) -> SessionView {
        SessionView {
            path: self.path@,
            hydrated: self.hydrated,
            clients: self.clients@.map_values(|e: ClientEntry| e@),
            dirty: self.dirty,
        }
    }
}

impl Session {
    /// Container names are pairwise distinct.
    pub open spec fn wf(self) -> bool {
        clients_unique(self@.clients)
    }

    /// Opens the snapshot at `path` with the 32-byte key material `key`:
    /// a fresh engine instance, hydrated from the snapshot file only when one
    /// exists on disk. Fail-closed: an error leaves nothing constructed.
    pub fn new(path: String, key: &Vec<u8>) -> (r: Result<Session, Error>)
        ensures
            r matches Ok(s) ==> s@.path == path@ && s@.clients =~= Seq::<ClientView>::empty()
                && !s@.dirty && s.wf(),
            r matches Err(e) ==> (key@.len() == 32 ==> (e is Stronghold)),
            r matches Err(e) ==> (key@.len() != 32 ==> (e is Memory)),
    {
        let keyprovider = match engine::key_provider_from_key(key) {
            Ok(kp) => kp,
            Err(e) => {
                return Err(Error::Memory(e));
            },
        };
        let inner = engine::stronghold_default();
        let hydrated = engine::snapshot_file_exists(path.as_str());
        if hydrated {
            match engine::load_snapshot(&inner, &keyprovider, path.as_str()) {
                Ok(()) => {},
                Err(e) => {
                    return Err(Error::Stronghold(e));
                },
            }
        }
        let s = Session { path, inner, keyprovider, hydrated, clients: Vec::new(), dirty: false };
        proof {
            assert(s@.clients =~= Seq::<ClientView>::empty());
        }
        Ok(s)
    }

    /// The snapshot path this session reflects.
    pub fn path(&self) -> (r: &String)
        ensures
            r@ == self@.path,
    {
        &self.path
    }

    /// Whether any container has been spawned for this session.
    pub fn has_clients(&self) -> (r: bool)
        ensures
            r == (self@.clients.len() > 0),
    {
        self.clients.len() > 0
    }

    /// Whether this session holds writes that have not been persisted.
    pub fn is_dirty(&self) -> (r: bool)
        ensures
            r == self@.dirty,
    {
        self.dirty
    }

    /// A borrow of the underlying engine instance, for callers that need a
    /// raw engine API. Engine calls made through it bypass this session's
    /// bookkeeping: nothing made through it is covered by the contracts here.
    pub fn inner(&self) -> &iota_stronghold::Stronghold {
        &self.inner
    }

    /// Replaces the key material this session persists with.
    pub(crate) fn set_keyprovider(&mut self, keyprovider: iota_stronghold::KeyProvider)
        ensures
            final(self)@ == old(self)@,
            final(self).wf() == old(self).wf(),
    {
        self.keyprovider = keyprovider;
    }

    /// Best-effort teardown of the engine's in-memory state; failures are
    /// dropped, since the session is discarded either way.
    pub(crate) fn teardown(&self) {
        let _ = engine::stronghold_clear(&self.inner);
    }

    /// Persists every spawned container to the snapshot file under this
    /// session's key material. On success the session is clean; on failure
    /// it is unchanged and still dirty.
    pub fn save(&mut self) -> (r: Result<(), Error>)
        requires
            old(self).wf(),
        ensures
            final(self).wf(),
            r is Ok ==> final(self)@ == (SessionView { dirty: false, ..old(self)@ }),
            r matches Err(e) ==> final(self)@ == old(self)@ && (e is Stronghold),
    {
        match engine::commit(&self.inner, self.path.as_str(), &self.keyprovider) {
            Ok(()) => {
                self.dirty = false;
                Ok(())
            },
            Err(e) => Err(Error::Stronghold(e)),
        }
    }

    fn find_client(&self, name: &Vec<u8>) -> (r: Option<usize>)
        requires
            self.wf(),
        ensures
            match r {
                Some(i) => i < self@.clients.len() && self@.clients[i as int].name == name@
                    && clients_has(self@.clients, name@),
                None => !clients_has(self@.clients, name@),
            },
    {
        let mut i: usize = 0;
        while i < self.clients.len()
            invariant
                i <= self.clients@.len(),
                self@.clients.len() == self.clients@.len(),
                forall|j: int|
                    0 <= j < i ==> (#[trigger] self@.clients[j]).name != name@,
                forall|j: int|
                    0 <= j < self.clients@.len() ==> #[trigger] self@.clients[j]
                        == self.clients@[j]@,
            decreases self.clients@.len() - i,
        {
            if bytes_eq(&self.clients[i].name, name) {
                proof {
                    assert(self@.clients[i as int] == self.clients@[i as int]@);
                }
                return Some(i);
            }
            i += 1;
        }
        None
    }

    /// Spawns the container `name` if it is not yet in memory: a container
    /// already spawned is reused untouched; with a snapshot file behind the
    /// session the engine hydrates the container from it (or creates an empty
    /// one when the file holds no data under that name); without one the
    /// container is created empty, provably so.
    fn ensure_client(&mut self, name: &Vec<u8>) -> (r: Result<usize, Error>)
        requires
            old(self).wf(),
        ensures
            final(self).wf(),
            final(self)@.path == old(self)@.path,
            final(self)@.hydrated == old(self)@.hydrated,
            final(self)@.dirty == old(self)@.dirty,
            r matches Err(e) ==> final(self)@ == old(self)@ && (e is Stronghold),
            r matches Ok(i) ==> i < final(self)@.clients.len()
                && final(self)@.clients[i as int].name == name@
                && clients_has(final(self)@.clients, name@)
                && clients_get(final(self)@.clients, name@) == final(self)@.clients[i as int],
            r is Ok && clients_has(old(self)@.clients, name@) ==> final(self)@ == old(self)@,
            r matches Ok(i) ==> (!clients_has(old(self)@.clients, name@) ==> i == old(
                self,
            )@.clients.len() && final(self)@.clients =~= old(self)@.clients.push(
                final(self)@.clients[i as int],
            )),
            r matches Ok(i) ==> (!clients_has(old(self)@.clients, name@) && !old(self)@.hydrated
                ==> final(self)@.clients[i as int].entries =~= Map::<Seq<u8>, Seq<u8>>::empty()
                    && final(self)@.clients[i as int].keys =~= Set::<Seq<u8>>::empty()),
            forall|n: Seq<u8>|
                n != name@ ==> #[trigger] clients_has(final(self)@.clients, n) == clients_has(
                    old(self)@.clients,
                    n,
                ),
            forall|n: Seq<u8>|
                n != name@ && clients_has(old(self)@.clients, n) ==> #[trigger] clients_get(
                    final(self)@.clients,
                    n,
                ) == clients_get(old(self)@.clients, n),
    {
        let ghost s1 = self@.clients;
        if let Some(i) = self.find_client(name) {
            proof {
                lemma_clients_get_at(s1, name@, i as int);
            }
            return Ok(i);
        }
        let client = if self.hydrated {
            match engine::load_client(&self.inner, name) {
                Ok(c) => c,
                Err(e) => {
                    if engine::client_error_is_data_missing(&e) {
                        match engine::create_client(&self.inner, name) {
                            Ok(c) => c,
                            Err(e2) => {
                                return Err(Error::Stronghold(e2));
                            },
                        }
                    } else {
                        return Err(Error::Stronghold(e));
                    }
                },
            }
        } else {
            match engine::create_client(&self.inner, name) {
                Ok(c) => c,
                Err(e) => {
                    return Err(Error::Stronghold(e));
                },
            }
        };
        let mut store = engine::client_store(&client);
        if !self.hydrated {
            // A just-created container must start from nothing; clearing a
            // fresh store is a no-op at runtime and pins its model down.
            match engine::store_clear(&mut store) {
                Ok(()) => {},
                Err(e) => {
                    return Err(Error::Stronghold(e));
                },
            }
        }
        let idx = self.clients.len();
        self.clients.push(ClientEntry { name: name.clone(), client, store });
        let ghost s2 = self@.clients;
        proof {
            assert(s2 =~= s1.push(s2[idx as int]));
            assert(s2[idx as int].name == name@);
            assert forall|a: int, b: int| 0 <= a < b < s2.len() implies (#[trigger] s2[a]).name
                != (#[trigger] s2[b]).name by {
                if b < idx as int {
                    assert(s1[a].name != s1[b].name);
                } else {
                    assert(s2[a] == s1[a]);
                    assert(!clients_has(s1, name@));
                    assert(s1[a].name != name@);
                }
            }
            lemma_clients_get_at(s2, name@, idx as int);
            assert forall|n: Seq<u8>| n != name@ implies #[trigger] clients_has(s2, n)
                == clients_has(s1, n) by {
                if clients_has(s1, n) {
                    let w = choose|w: int| 0 <= w < s1.len() && (#[trigger] s1[w]).name == n;
                    assert(s2[w] == s1[w]);
                    assert(clients_has(s2, n));
                }
                if clients_has(s2, n) {
                    let w = choose|w: int| 0 <= w < s2.len() && (#[trigger] s2[w]).name == n;
                    assert(w != idx as int);
                    assert(s2[w] == s1[w]);
                    assert(clients_has(s1, n));
                }
            }
            assert forall|n: Seq<u8>| n != name@ && clients_has(s1, n) implies #[trigger] clients_get(
                s2,
                n,
            ) == clients_get(s1, n) by {
                let w = choose|w: int| 0 <= w < s1.len() && (#[trigger] s1[w]).name == n;
                assert(s2[w] == s1[w]);
                lemma_clients_get_at(s1, n, w);
                lemma_clients_get_at(s2, n, w);
            }
        }
        Ok(idx)
    }

    /// Writes `value` under `key` into the store of container `name`,
    /// spawning the container first if need be, and returns the value the
    /// write replaced. An entry written without a lifetime stays until it is
    /// removed; one written with a lifetime expires on its own.
    pub fn write_store(
        &mut self,
        name: &Vec<u8>,
        key: Vec<u8>,
        value: Vec<u8>,
        lifetime_ms: Option<u64>,
    ) -> (r: Result<Option<Vec<u8>>, Error>)
        requires
            old(self).wf(),
        ensures
            final(self).wf(),
            final(self)@.path == old(self)@.path,
            final(self)@.hydrated == old(self)@.hydrated,
            r matches Err(e) ==> (e is Stronghold),
            r is Err ==> final(self)@.dirty == old(self)@.dirty,
            r is Ok ==> final(self)@.dirty,
            r is Ok ==> clients_has(final(self)@.clients, name@),
            r is Ok ==> (lifetime_ms is None ==> clients_get(
                final(self)@.clients,
                name@,
            ).entries.contains_key(key@) && clients_get(final(self)@.clients, name@).entries[key@]
                == value@),
            r is Ok ==> clients_get(final(self)@.clients, name@).keys.contains(key@),
            r is Ok && clients_has(old(self)@.clients, name@) ==> (lifetime_ms is None
                ==> clients_get(final(self)@.clients, name@).entries == clients_get(
                    old(self)@.clients,
                    name@,
                ).entries.insert(key@, value@)),
            r is Ok && clients_has(old(self)@.clients, name@) ==> (lifetime_ms is Some
                ==> clients_get(final(self)@.clients, name@).entries == clients_get(
                    old(self)@.clients,
                    name@,
                ).entries.remove(key@)),
            r is Ok && clients_has(old(self)@.clients, name@) ==> clients_get(
                final(self)@.clients,
                name@,
            ).keys.subset_of(clients_get(old(self)@.clients, name@).keys.insert(key@)),
            r is Ok && !clients_has(old(self)@.clients, name@) && !old(self)@.hydrated ==> (
            lifetime_ms is None ==> clients_get(final(self)@.clients, name@).entries
                =~= Map::<Seq<u8>, Seq<u8>>::empty().insert(key@, value@)),
            r matches Ok(prev) ==> (clients_has(old(self)@.clients, name@) && clients_get(
                old(self)@.clients,
                name@,
            ).entries.contains_key(key@) ==> (prev matches Some(v) && v@ == clients_get(
                old(self)@.clients,
                name@,
            ).entries[key@])),
            r is Err && clients_has(old(self)@.clients, name@) ==> clients_get(
                final(self)@.clients,
                name@,
            ) == clients_get(old(self)@.clients, name@),
            forall|n: Seq<u8>|
                n != name@ ==> #[trigger] clients_has(final(self)@.clients, n) == clients_has(
                    old(self)@.clients,
                    n,
                ),
            forall|n: Seq<u8>|
                n != name@ && clients_has(old(self)@.clients, n) ==> #[trigger] clients_get(
                    final(self)@.clients,
                    n,
                ) == clients_get(old(self)@.clients, n),
    {
        let idx = match self.ensure_client(name) {
            Ok(i) => i,
            Err(e) => {
                return Err(e);
            },
        };
        let ghost m2 = self@.clients;
        let mut entry = self.clients.remove(idx);
        let ghost entry_pre = entry@;
        let res = engine::store_insert(&mut entry.store, key, value, lifetime_ms);
        let ghost entry_post = entry@;
        self.clients.insert(idx, entry);
        let ghost m3 = self@.clients;
        proof {
            assert(entry_pre == m2[idx as int]);
            assert(entry_post.name == entry_pre.name);
            assert(m3 =~= m2.update(idx as int, entry_post));
            lemma_clients_update(m2, m3, idx as int);
        }
        match res {
            Ok(prev) => {
                self.dirty = true;
                Ok(prev)
            },
            Err(e) => Err(Error::Stronghold(e)),
        }
    }

    /// Reads the store entry under `key` in container `name`, spawning the
    /// container first if need be. `None` means no entry is present.
    pub fn read_store(&mut self, name: &Vec<u8>, key: &Vec<u8>) -> (r: Result<
        Option<Vec<u8>>,
        Error,
    >)
        requires
            old(self).wf(),
        ensures
            final(self).wf(),
            final(self)@.path == old(self)@.path,
            final(self)@.hydrated == old(self)@.hydrated,
            final(self)@.dirty == old(self)@.dirty,
            r matches Err(e) ==> (e is Stronghold),
            r is Ok ==> clients_has(final(self)@.clients, name@),
            r is Ok && clients_has(old(self)@.clients, name@) && clients_get(
                old(self)@.clients,
                name@,
            ).entries.contains_key(key@) ==> (r matches Ok(found) && found matches Some(v) && v@
                == clients_get(old(self)@.clients, name@).entries[key@]),
            r is Ok && clients_has(old(self)@.clients, name@) && !clients_get(
                old(self)@.clients,
                name@,
            ).keys.contains(key@) ==> (r matches Ok(found) && found is None),
            r is Ok && !clients_has(old(self)@.clients, name@) && !old(self)@.hydrated ==> (
            r matches Ok(found) && found is None),
            clients_has(old(self)@.clients, name@) ==> clients_get(final(self)@.clients, name@)
                == clients_get(old(self)@.clients, name@),
            forall|n: Seq<u8>|
                n != name@ ==> #[trigger] clients_has(final(self)@.clients, n) == clients_has(
                    old(self)@.clients,
                    n,
                ),
            forall|n: Seq<u8>|
                n != name@ && clients_has(old(self)@.clients, n) ==> #[trigger] clients_get(
                    final(self)@.clients,
                    n,
                ) == clients_get(old(self)@.clients, n),
    {
        let idx = match self.ensure_client(name) {
            Ok(i) => i,
            Err(e) => {
                return Err(e);
            },
        };
        let ghost m2 = self@.clients;
        let mut entry = self.clients.remove(idx);
        let ghost entry_pre = entry@;
        let res = engine::store_get(&entry.store, key);
        let ghost entry_post = entry@;
        self.clients.insert(idx, entry);
        let ghost m3 = self@.clients;
        proof {
            assert(entry_pre == m2[idx as int]);
            assert(entry_post == entry_pre);
            assert(m3 =~= m2.update(idx as int, entry_post));
            lemma_clients_update(m2, m3, idx as int);
            assert(m3 =~= m2);
        }
        match res {
            Ok(found) => Ok(found),
            Err(e) => Err(Error::Stronghold(e)),
        }
    }

    /// Removes the store entry under `key` in container `name`, spawning the
    /// container first if need be, and returns the removed value.
    pub fn delete_store(&mut self, name: &Vec<u8>, key: &Vec<u8>) -> (r: Result<
        Option<Vec<u8>>,
        Error,
    >)
        requires
            old(self).wf(),
        ensures
            final(self).wf(),
            final(self)@.path == old(self)@.path,
            final(self)@.hydrated == old(self)@.hydrated,
            r matches Err(e) ==> (e is Stronghold),
            r is Err ==> final(self)@.dirty == old(self)@.dirty,
            r is Ok ==> final(self)@.dirty,
            r is Ok ==> clients_has(final(self)@.clients, name@),
            r is Ok ==> !clients_get(final(self)@.clients, name@).entries.contains_key(key@)
                && !clients_get(final(self)@.clients, name@).keys.contains(key@),
            r is Ok && clients_has(old(self)@.clients, name@) ==> clients_get(
                final(self)@.clients,
                name@,
            ).entries == clients_get(old(self)@.clients, name@).entries.remove(key@),
            r is Ok && clients_has(old(self)@.clients, name@) ==> clients_get(
                final(self)@.clients,
                name@,
            ).keys.subset_of(clients_get(old(self)@.clients, name@).keys.remove(key@)),
            r matches Ok(prev) ==> (clients_has(old(self)@.clients, name@) && clients_get(
                old(self)@.clients,
                name@,
            ).entries.contains_key(key@) ==> (prev matches Some(v) && v@ == clients_get(
                old(self)@.clients,
                name@,
            ).entries[key@])),
            r is Err && clients_has(old(self)@.clients, name@) ==> clients_get(
                final(self)@.clients,
                name@,
            ) == clients_get(old(self)@.clients, name@),
            forall|n: Seq<u8>|
                n != name@ ==> #[trigger] clients_has(final(self)@.clients, n) == clients_has(
                    old(self)@.clients,
                    n,
                ),
            forall|n: Seq<u8>|
                n != name@ && clients_has(old(self)@.clients, n) ==> #[trigger] clients_get(
                    final(self)@.clients,
                    n,
                ) == clients_get(old(self)@.clients, n),
    {
        let idx = match self.ensure_client(name) {
            Ok(i) => i,
            Err(e) => {
                return Err(e);
            },
        };
        let ghost m2 = self@.clients;
        let mut entry = self.clients.remove(idx);
        let ghost entry_pre = entry@;
        let res = engine::store_delete(&mut entry.store, key);
        let ghost entry_post = entry@;
        self.clients.insert(idx, entry);
        let ghost m3 = self@.clients;
        proof {
            assert(entry_pre == m2[idx as int]);
            assert(entry_post.name == entry_pre.name);
            assert(m3 =~= m2.update(idx as int, entry_post));
            lemma_clients_update(m2, m3, idx as int);
        }
        match res {
            Ok(prev) => {
                self.dirty = true;
                Ok(prev)
            },
            Err(e) => Err(Error::Stronghold(e)),
        }
    }

    /// Writes a secret into vault `vault` at `record` in container `name`.
    /// Secrets live in guarded vault memory, apart from the store, so every
    /// container's store model is untouched.
    pub fn write_vault(
        &mut self,
        name: &Vec<u8>,
        vault: &Vec<u8>,
        record: &Vec<u8>,
        payload: Vec<u8>,
    ) -> (r: Result<(), Error>)
        requires
            old(self).wf(),
        ensures
            final(self).wf(),
            final(self)@.path == old(self)@.path,
            final(self)@.hydrated == old(self)@.hydrated,
            r matches Err(e) ==> (e is Stronghold),
            r is Err ==> final(self)@.dirty == old(self)@.dirty,
            r is Ok ==> final(self)@.dirty,
            r is Ok ==> clients_has(final(self)@.clients, name@),
            clients_has(old(self)@.clients, name@) ==> clients_get(final(self)@.clients, name@)
                == clients_get(old(self)@.clients, name@),
            forall|n: Seq<u8>|
                n != name@ ==> #[trigger] clients_has(final(self)@.clients, n) == clients_has(
                    old(self)@.clients,
                    n,
                ),
            forall|n: Seq<u8>|
                n != name@ && clients_has(old(self)@.clients, n) ==> #[trigger] clients_get(
                    final(self)@.clients,
                    n,
                ) == clients_get(old(self)@.clients, n),
    {
        let idx = match self.ensure_client(name) {
            Ok(i) => i,
            Err(e) => {
                return Err(e);
            },
        };
        let ghost m2 = self@.clients;
        let mut entry = self.clients.remove(idx);
        let ghost entry_pre = entry@;
        let res = engine::vault_write_secret(&mut entry.client, vault, record, payload);
        let ghost entry_post = entry@;
        self.clients.insert(idx, entry);
        let ghost m3 = self@.clients;
        proof {
            assert(entry_pre == m2[idx as int]);
            assert(entry_post == entry_pre);
            assert(m3 =~= m2.update(idx as int, entry_post));
            lemma_clients_update(m2, m3, idx as int);
            assert(m3 =~= m2);
        }
        match res {
            Ok(()) => {
                self.dirty = true;
                Ok(())
            },
            Err(e) => Err(Error::Stronghold(e)),
        }
    }

    /// Removes a vault record in container `name`: revoked only, or revoked
    /// and garbage-collected when `reclaim` is set.
    pub fn remove_vault_record(
        &mut self,
        name: &Vec<u8>,
        vault: &Vec<u8>,
        record: &Vec<u8>,
        reclaim: bool,
    ) -> (r: Result<(), Error>)
        requires
            old(self).wf(),
        ensures
            final(self).wf(),
            final(self)@.path == old(self)@.path,
            final(self)@.hydrated == old(self)@.hydrated,
            r matches Err(e) ==> (e is Stronghold),
            r is Err ==> final(self)@.dirty == old(self)@.dirty,
            r is Ok ==> final(self)@.dirty,
            r is Ok ==> clients_has(final(self)@.clients, name@),
            clients_has(old(self)@.clients, name@) ==> clients_get(final(self)@.clients, name@)
                == clients_get(old(self)@.clients, name@),
            forall|n: Seq<u8>|
                n != name@ ==> #[trigger] clients_has(final(self)@.clients, n) == clients_has(
                    old(self)@.clients,
                    n,
                ),
            forall|n: Seq<u8>|
                n != name@ && clients_has(old(self)@.clients, n) ==> #[trigger] clients_get(
                    final(self)@.clients,
                    n,
                ) == clients_get(old(self)@.clients, n),
    {
        let idx = match self.ensure_client(name) {
            Ok(i) => i,
            Err(e) => {
                return Err(e);
            },
        };
        let ghost m2 = self@.clients;
        let mut entry = self.clients.remove(idx);
        let ghost entry_pre = entry@;
        let res = if reclaim {
            match engine::vault_delete_secret(&mut entry.client, vault, record) {
                Ok(_) => Ok(()),
                Err(e) => Err(e),
            }
        } else {
            engine::vault_revoke_secret(&mut entry.client, vault, record)
        };
        let ghost entry_post = entry@;
        self.clients.insert(idx, entry);
        let ghost m3 = self@.clients;
        proof {
            assert(entry_pre == m2[idx as int]);
            assert(entry_post == entry_pre);
            assert(m3 =~= m2.update(idx as int, entry_post));
            lemma_clients_update(m2, m3, idx as int);
            assert(m3 =~= m2);
        }
        match res {
            Ok(()) => {
                self.dirty = true;
                Ok(())
            },
            Err(e) => Err(Error::Stronghold(e)),
        }
    }

    /// Whether the vault record exists in container `name`.
    pub fn vault_record_exists(&mut self, name: &Vec<u8>, vault: &Vec<u8>, record: &Vec<u8>) -> (r:
        Result<bool, Error>)
        requires
            old(self).wf(),
        ensures
            final(self).wf(),
            final(self)@.path == old(self)@.path,
            final(self)@.hydrated == old(self)@.hydrated,
            final(self)@.dirty == old(self)@.dirty,
            r matches Err(e) ==> (e is Stronghold),
            r is Ok ==> clients_has(final(self)@.clients, name@),
            clients_has(old(self)@.clients, name@) ==> clients_get(final(self)@.clients, name@)
                == clients_get(old(self)@.clients, name@),
            forall|n: Seq<u8>|
                n != name@ ==> #[trigger] clients_has(final(self)@.clients, n) == clients_has(
                    old(self)@.clients,
                    n,
                ),
            forall|n: Seq<u8>|
                n != name@ && clients_has(old(self)@.clients, n) ==> #[trigger] clients_get(
                    final(self)@.clients,
                    n,
                ) == clients_get(old(self)@.clients, n),
    {
        let idx = match self.ensure_client(name) {
            Ok(i) => i,
            Err(e) => {
                return Err(e);
            },
        };
        let ghost m2 = self@.clients;
        let mut entry = self.clients.remove(idx);
        let ghost entry_pre = entry@;
        let res = engine::record_exists(&entry.client, vault, record);
        let ghost entry_post = entry@;
        self.clients.insert(idx, entry);
        let ghost m3 = self@.clients;
        proof {
            assert(entry_pre == m2[idx as int]);
            assert(entry_post == entry_pre);
            assert(m3 =~= m2.update(idx as int, entry_post));
            lemma_clients_update(m2, m3, idx as int);
            assert(m3 =~= m2);
        }
        match res {
            Ok(b) => Ok(b),
            Err(e) => Err(Error::Stronghold(e)),
        }
    }

    /// Runs a cryptographic procedure against the vaults of container `name`
    /// and returns its opaque output. Procedures may write secrets, so the
    /// session becomes dirty on success; they never touch any store.
    pub fn run_procedure(
        &mut self,
        name: &Vec<u8>,
        procedure: iota_stronghold::procedures::StrongholdProcedure,
    ) -> (r: Result<Vec<u8>, Error>)
        requires
            old(self).wf(),
        ensures
            final(self).wf(),
            final(self)@.path == old(self)@.path,
            final(self)@.hydrated == old(self)@.hydrated,
            r matches Err(e) ==> (e is Stronghold || e is Procedure),
            r is Err ==> final(self)@.dirty == old(self)@.dirty,
            r is Ok ==> final(self)@.dirty,
            r is Ok ==> clients_has(final(self)@.clients, name@),
            clients_has(old(self)@.clients, name@) ==> clients_get(final(self)@.clients, name@)
                == clients_get(old(self)@.clients, name@),
            forall|n: Seq<u8>|
                n != name@ ==> #[trigger] clients_has(final(self)@.clients, n) == clients_has(
                    old(self)@.clients,
                    n,
                ),
            forall|n: Seq<u8>|
                n != name@ && clients_has(old(self)@.clients, n) ==> #[trigger] clients_get(
                    final(self)@.clients,
                    n,
                ) == clients_get(old(self)@.clients, n),
    {
        let idx = match self.ensure_client(name) {
            Ok(i) => i,
            Err(e) => {
                return Err(e);
            },
        };
        let ghost m2 = self@.clients;
        let mut entry = self.clients.remove(idx);
        let ghost entry_pre = entry@;
        let res = engine::execute_procedure(&mut entry.client, procedure);
        let ghost entry_post = entry@;
        self.clients.insert(idx, entry);
        let ghost m3 = self@.clients;
        proof {
            assert(entry_pre == m2[idx as int]);
            assert(entry_post == entry_pre);
            assert(m3 =~= m2.update(idx as int, entry_post));
            lemma_clients_update(m2, m3, idx as int);
            assert(m3 =~= m2);
        }
        match res {
            Ok(output) => {
                self.dirty = true;
                Ok(output)
            },
            Err(e) => Err(Error::Procedure(e)),
        }
    }
}

} // verus!
