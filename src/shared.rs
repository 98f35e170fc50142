//! A store shared between threads, with two tiers of read/write locks: one
//! over the registry of namespaces, and one over each namespace. A call
//! takes the registry lock to resolve a namespace, releases it, and then
//! takes that namespace's lock alone, so it never holds two namespace locks
//! and readers of one namespace proceed together while a writer excludes
//! them. Every read sees a whole, well-formed namespace.
use vstd::prelude::*;
use vstd::rwlock::{RwLock, RwLockPredicate};
use std::sync::Arc;
use crate::codec::{decode_text, decode_value, encode_text, encode_value, key_ok, pwd_view};
use crate::error::KVError;
use crate::kv::MicroKV;
use crate::migrate::VersionedLayout;
use crate::namespace::{read_in, value_in};
use crate::registry::{registry_wf, Registry};
use crate::store::{has_key, is_lexical_sort, key_seq, keys_unique, strings_view, Entry, KvStore};

verus! {

/// The invariant of a namespace lock: keys are unique.
pub struct StoreInv;

impl RwLockPredicate<KvStore> for StoreInv {
    open spec fn inv(self, v: KvStore) -> bool {
        v.wf()
    }
}

/// A namespace behind its own lock.
pub type NsLock = Arc<RwLock<KvStore, StoreInv>>;

/// The names of the namespace locks, beside the locks.
pub open spec fn lock_names(v: Seq<(String, NsLock)>) -> Seq<(Seq<char>, NsLock)> {
    v.map_values(|p: (String, NsLock)| (p.0@, p.1))
}

/// The invariant of the registry lock: names are unique.
pub struct RegistryInv;

impl RwLockPredicate<Vec<(String, NsLock)>> for RegistryInv {
    open spec fn inv(self, v: Vec<(String, NsLock)>) -> bool {
        keys_unique(lock_names(v@))
    }
}

/// The position of the lock of namespace `name`, if there is one.
fn find_lock(v: &Vec<(String, NsLock)>, name: &String) -> (r: Option<usize>)
    ensures
        match r {
            Some(i) => i < v@.len() && v@[i as int].0@ == name@,
            None => forall|j: int| 0 <= j < v@.len() ==> #[trigger] v@[j].0@ != name@,
        },
{
    let mut i: usize = 0;
    while i < v.len()
        invariant
            i <= v@.len(),
            forall|j: int| 0 <= j < i ==> #[trigger] v@[j].0@ != name@,
        decreases v@.len() - i,
    {
        if v[i].0 == *name {
            return Some(i);
        }
        i = i + 1;
    }
    None
}

/// Puts each namespace behind a lock of its own.
fn locks_from(spaces: Vec<(String, KvStore)>) -> (r: Vec<(String, NsLock)>)
    requires
        registry_wf(spaces@.map_values(|p: (String, KvStore)| (p.0@, p.1@))),
    ensures
        keys_unique(lock_names(r@)),
{
    let ghost orig = spaces@.map_values(|p: (String, KvStore)| (p.0@, p.1@));
    let mut rest = spaces;
    let mut out: Vec<(String, NsLock)> = Vec::new();
    while rest.len() > 0
        invariant
            registry_wf(orig),
            out@.len() + rest@.len() == orig.len(),
            forall|j: int| 0 <= j < out@.len() ==> #[trigger] out@[j].0@ == orig[j].0,
            forall|j: int|
                0 <= j < rest@.len() ==> (#[trigger] rest@[j]).0@ == orig[out@.len() + j].0
                    && rest@[j].1@ == orig[out@.len() + j].1,
        decreases rest@.len(),
    {
        let ghost k = out@.len() as int;
        let ghost before = rest@;
        let (name, store) = rest.remove(0);
        proof {
            assert(before[0] == (name, store));
            assert(keys_unique(orig[k].1));
            assert forall|j: int| 0 <= j < rest@.len() implies (#[trigger] rest@[j]).0@ == orig[
                out@.len() + 1 + j].0 && rest@[j].1@ == orig[out@.len() + 1 + j].1 by {
                assert(rest@[j] == before[j + 1]);
            }
        }
        out.push((name, Arc::new(RwLock::new(store, Ghost(StoreInv)))));
    }
    proof {
        let ln = lock_names(out@);
        assert forall|a: int, b: int| 0 <= a < b < ln.len() implies #[trigger] ln[a].0
            != #[trigger] ln[b].0 by {
            assert(orig[a].0 != orig[b].0);
        }
    }
    out
}

/// A store shared between threads.
pub struct SharedMicroKV {
    /// The namespace locks by name, behind the registry lock.
    pub registry: RwLock<Vec<(String, NsLock)>, RegistryInv>,
    /// The version tag of the layout.
    pub version: String,
    /// The backing file.
    pub path: String,
    /// The public nonce shared by every sealed value of the store.
    pub nonce: [u8; 24],
    /// The password hash, used as the key; never persisted.
    pub pwd: Option<secstr::SecVec<u8>>,
    /// Whether each change is to be persisted at once.
    pub is_auto_commit: bool,
}

impl SharedMicroKV {
    /// The password bytes, if one is set.
    pub open spec fn password(&self) -> Option<Seq<u8>> {
        pwd_view(self.pwd)
    }

    /// A password, if set, is a key.
    pub open spec fn wf(&self) -> bool {
        key_ok(self.password())
    }

    /// Shares a store: each namespace goes behind a lock of its own.
    pub fn from_store(kv: MicroKV) -> (r: SharedMicroKV)
        requires
            kv.wf(),
        ensures
            r.wf(),
            r.version == kv.version,
            r.path == kv.path,
            r.nonce == kv.nonce,
            r.pwd == kv.pwd,
            r.is_auto_commit == kv.is_auto_commit,
    {
        let MicroKV { version, path, registry, nonce, pwd, is_auto_commit } = kv;
        let locks = locks_from(registry.into_spaces());
        SharedMicroKV {
            registry: RwLock::new(locks, Ghost(RegistryInv)),
            version,
            path,
            nonce,
            pwd,
            is_auto_commit,
        }
    }

    /// The lock of namespace `name`, which is created, empty, if it does
    /// not exist. The registry lock is held only while resolving.
    fn namespace_lock(&self, name: &String) -> (r: NsLock) {
        let handle = self.registry.acquire_read();
        let found = {
            let locks = handle.borrow();
            match find_lock(locks, name) {
                Some(i) => Some(locks[i].1.clone()),
                None => None,
            }
        };
        handle.release_read();
        if let Some(lock) = found {
            return lock;
        }
        let (mut locks, writer) = self.registry.acquire_write();
        let lock = match find_lock(&locks, name) {
            Some(i) => locks[i].1.clone(),
            None => {
                let lock: NsLock = Arc::new(RwLock::new(KvStore::new(), Ghost(StoreInv)));
                let ghost before = locks@;
                locks.push((name.clone(), lock.clone()));
                proof {
                    let ln = lock_names(locks@);
                    assert forall|a: int, b: int| 0 <= a < b < ln.len() implies #[trigger] ln[a].0
                        != #[trigger] ln[b].0 by {
                        if b == before.len() {
                            assert(before[a].0@ != name@);
                        } else {
                            assert(lock_names(before)[a].0 != lock_names(before)[b].0);
                        }
                    }
                }
                lock
            },
        };
        writer.release_write(locks);
        lock
    }

    /// Reads the JSON text stored under `key` in namespace `ns`; the result
    /// is that of reading one whole, well-formed state of the namespace.
    pub fn get_text(&self, ns: &String, key: &str) -> (r: Result<Option<String>, KVError>)
        requires
            self.wf(),
        ensures
            exists|es: Seq<Entry>|
                keys_unique(es) && #[trigger] read_in(es, key@, self.password(), self.nonce@, r),
    {
        let lock = self.namespace_lock(ns);
        let handle = lock.acquire_read();
        let store = handle.borrow();
        let r = match store.get(key) {
            None => Ok(None),
            Some(blob) => match decode_text(blob, &self.pwd, &self.nonce) {
                Ok(t) => Ok(Some(t)),
                Err(e) => Err(e),
            },
        };
        let ghost es = store@;
        handle.release_read();
        assert(read_in(es, key@, self.password(), self.nonce@, r));
        r
    }

    /// Reads the value stored under `key` in namespace `ns`, from one whole,
    /// well-formed state of the namespace.
    pub fn get(&self, ns: &String, key: &str) -> (r: Result<Option<serde_json::Value>, KVError>)
        requires
            self.wf(),
        ensures
            exists|es: Seq<Entry>|
                keys_unique(es) && #[trigger] value_in(es, key@, self.password(), self.nonce@, r),
    {
        let lock = self.namespace_lock(ns);
        let handle = lock.acquire_read();
        let store = handle.borrow();
        let r = match store.get(key) {
            None => Ok(None),
            Some(blob) => match decode_value(blob, &self.pwd, &self.nonce) {
                Ok(v) => Ok(Some(v)),
                Err(e) => Err(e),
            },
        };
        let ghost es = store@;
        handle.release_read();
        assert(value_in(es, key@, self.password(), self.nonce@, r));
        r
    }

    /// Whether `key` is stored in namespace `ns`, in one whole state of it.
    pub fn key_exists(&self, ns: &String, key: &str) -> (r: Result<bool, KVError>)
        ensures
            exists|es: Seq<Entry>|
                keys_unique(es) && r == Ok::<bool, KVError>(#[trigger] has_key(es, key@)),
    {
        let lock = self.namespace_lock(ns);
        let handle = lock.acquire_read();
        let r = handle.borrow().contains_key(key);
        handle.release_read();
        Ok(r)
    }

    /// The keys of namespace `ns` in insertion order, from one whole state.
    pub fn keys(&self, ns: &String) -> (r: Result<Vec<String>, KVError>)
        ensures
            r matches Ok(v) && exists|es: Seq<Entry>|
                keys_unique(es) && strings_view(v@) == #[trigger] key_seq(es),
    {
        let lock = self.namespace_lock(ns);
        let handle = lock.acquire_read();
        let r = handle.borrow().keys();
        handle.release_read();
        Ok(r)
    }

    /// The keys of namespace `ns` in lexical order, from one whole state.
    pub fn sorted_keys(&self, ns: &String) -> (r: Result<Vec<String>, KVError>)
        ensures
            r matches Ok(v) && exists|es: Seq<Entry>|
                keys_unique(es) && is_lexical_sort(strings_view(v@), #[trigger] key_seq(es)),
    {
        let lock = self.namespace_lock(ns);
        let handle = lock.acquire_read();
        let r = handle.borrow().sorted_keys();
        handle.release_read();
        Ok(r)
    }

    /// Stores a JSON text under `key` in namespace `ns`, holding that
    /// namespace's write lock for the whole change.
    pub fn put_text(&self, ns: &String, key: &str, text: &String) -> (r: Result<(), KVError>)
        requires
            self.wf(),
        ensures
            r is Ok,
    {
        let blob = encode_text(text, &self.pwd, &self.nonce)?;
        let lock = self.namespace_lock(ns);
        let (mut store, writer) = lock.acquire_write();
        store.put(key.to_owned(), blob);
        writer.release_write(store);
        Ok(())
    }

    /// Stores a value under `key` in namespace `ns`.
    pub fn put(&self, ns: &String, key: &str, value: &serde_json::Value) -> (r: Result<(), KVError>)
        requires
            self.wf(),
        ensures
            r is Ok,
    {
        let blob = encode_value(value, &self.pwd, &self.nonce)?;
        let lock = self.namespace_lock(ns);
        let (mut store, writer) = lock.acquire_write();
        store.put(key.to_owned(), blob);
        writer.release_write(store);
        Ok(())
    }

    /// Removes `key` from namespace `ns`; an absent key is no error.
    pub fn delete(&self, ns: &String, key: &str) -> (r: Result<(), KVError>)
        ensures
            r is Ok,
    {
        let lock = self.namespace_lock(ns);
        let (mut store, writer) = lock.acquire_write();
        let _ = store.remove(key);
        writer.release_write(store);
        Ok(())
    }

    /// Wipes and removes every entry of namespace `ns`.
    pub fn clear(&self, ns: &String) -> (r: Result<(), KVError>)
        ensures
            r is Ok,
    {
        let lock = self.namespace_lock(ns);
        let (mut store, writer) = lock.acquire_write();
        store.clear();
        writer.release_write(store);
        Ok(())
    }

    /// The names of all namespaces, unique.
    pub fn namespaces(&self) -> (r: Result<Vec<String>, KVError>)
        ensures
            r matches Ok(v) && forall|a: int, b: int|
                0 <= a < b < v@.len() ==> #[trigger] v@[a]@ != #[trigger] v@[b]@,
    {
        let handle = self.registry.acquire_read();
        let locks = handle.borrow();
        let mut out: Vec<String> = Vec::new();
        let mut i: usize = 0;
        while i < locks.len()
            invariant
                i <= locks@.len(),
                out@.len() == i,
                keys_unique(lock_names(locks@)),
                forall|j: int| 0 <= j < i ==> #[trigger] out@[j]@ == locks@[j].0@,
            decreases locks@.len() - i,
        {
            out.push(locks[i].0.clone());
            i = i + 1;
        }
        proof {
            assert forall|a: int, b: int| 0 <= a < b < out@.len() implies #[trigger] out@[a]@
                != #[trigger] out@[b]@ by {
                assert(lock_names(locks@)[a].0 != lock_names(locks@)[b].0);
            }
        }
        handle.release_read();
        Ok(out)
    }

    /// Removes namespace `ns` and everything in it.
    pub fn delete_namespace(&self, ns: &String) -> (r: Result<(), KVError>)
        ensures
            r is Ok,
    {
        let (mut locks, writer) = self.registry.acquire_write();
        match find_lock(&locks, ns) {
            Some(i) => {
                let ghost before = locks@;
                let _ = locks.remove(i);
                proof {
                    let ln = lock_names(locks@);
                    assert forall|a: int, b: int| 0 <= a < b < ln.len() implies #[trigger] ln[a].0
                        != #[trigger] ln[b].0 by {
                        let a2 = if a < i { a } else { a + 1 };
                        let b2 = if b < i { b } else { b + 1 };
                        assert(lock_names(before)[a2].0 != lock_names(before)[b2].0);
                    }
                }
            },
            None => {},
        }
        writer.release_write(locks);
        Ok(())
    }

    /// Makes the namespaces agree with a registry read from the backing
    /// file: every namespace found there replaces the one in memory, and
    /// every namespace that is not there is removed.
    pub fn reload(&self, disk: Registry)
        requires
            disk.wf(),
    {
        let (_, writer) = self.registry.acquire_write();
        let locks = locks_from(disk.into_spaces());
        writer.release_write(locks);
    }

    /// The snapshot that persisting the store writes: every namespace copied
    /// under its read lock, and no password.
    pub fn snapshot(&self) -> (r: VersionedLayout)
        ensures
            r.registry.wf(),
            r.version == self.version,
            r.path == self.path,
            r.nonce == self.nonce,
            r.is_auto_commit == self.is_auto_commit,
    {
        let handle = self.registry.acquire_read();
        let locks = handle.borrow();
        let mut registry = Registry::new();
        let mut i: usize = 0;
        while i < locks.len()
            invariant
                i <= locks@.len(),
                registry.wf(),
            decreases locks@.len() - i,
        {
            let ns_handle = locks[i].1.acquire_read();
            let copy = ns_handle.borrow().copy();
            ns_handle.release_read();
            registry.set_namespace(locks[i].0.clone(), copy);
            i = i + 1;
        }
        handle.release_read();
        VersionedLayout {
            version: self.version.clone(),
            path: self.path.clone(),
            registry,
            nonce: self.nonce,
            is_auto_commit: self.is_auto_commit,
        }
    }
}

} // verus!
