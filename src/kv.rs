//! The store aggregate: a registry of namespaces, the public nonce shared by
//! every value, the optional password and the auto-commit flag.
use vstd::prelude::*;
use vstd::string::StringSliceAdditionalSpecFns;
use crate::codec::{decoded_value, encoded, key_ok, pwd_view};
use crate::crypto::{gen_nonce, sha256, sha256_digest};
use crate::error::KVError;
use crate::helpers::{db_path, get_db_path_with_base_path, default_workspace, workspace_under};
use crate::migrate::{layout_wf, migrate_result, Migrate, OnDisk};
use crate::namespace::{ns_entries, same_settings, NamespaceMicroKV};
use crate::registry::{Registry, Space};
use crate::secure::{sec_content, sec_new, sec_zero_out};
use crate::store::{is_lexical_sort, key_seq, strings_view, with_put, without, Entry};

verus! {

/// The version tag of the current on-disk layout.
pub const CURRENT_VERSION: &'static str = "0.3.0";

/// The store. It is created fresh or opened from a snapshot; persisting it
/// and watching its file are the caller's part, and `is_auto_commit` says
/// whether the caller persists after every change.
#[derive(Debug)]
pub struct MicroKV {
    /// The version tag of the layout.
    pub version: String,
    /// The backing file.
    pub path: String,
    /// Every namespace.
    pub registry: Registry,
    /// The public nonce shared by every sealed value of the store.
    pub nonce: [u8; 24],
    /// The password hash, used as the key; never persisted.
    pub pwd: Option<secstr::SecVec<u8>>,
    /// Whether each change is to be persisted at once.
    pub is_auto_commit: bool,
}

impl MicroKV {
    /// The namespaces as plain values.
    pub open spec fn spaces(&self) -> Seq<Space> {
        self.registry@
    }

    /// The password bytes, if one is set.
    pub open spec fn password(&self) -> Option<Seq<u8>> {
        pwd_view(self.pwd)
    }

    /// Names and keys are unique, and a password, if set, is a key.
    pub open spec fn wf(&self) -> bool {
        self.registry.wf() && key_ok(self.password())
    }

    /// A store from its parts, tagged with the current version.
    pub fn create(
        path: String,
        pwd: Option<secstr::SecVec<u8>>,
        nonce: [u8; 24],
        is_auto_commit: bool,
        registry: Registry,
    ) -> (r: MicroKV)
        requires
            registry.wf(),
            key_ok(pwd_view(pwd)),
        ensures
            r.wf(),
            r.version@ == CURRENT_VERSION@,
            r.path == path,
            r.registry == registry,
            r.nonce == nonce,
            r.pwd == pwd,
            r.is_auto_commit == is_auto_commit,
    {
        MicroKV { version: CURRENT_VERSION.to_owned(), path, registry, nonce, pwd, is_auto_commit }
    }

    /// A new empty store without password, backed by `<base_path>/<dbname>.kv`,
    /// with a fresh random nonce.
    pub fn new_with_base_path(dbname: &str, base_path: &str) -> (r: MicroKV)
        ensures
            r.wf(),
            r.version@ == CURRENT_VERSION@,
            r.path@ == db_path(dbname@, base_path@),
            r.spaces() == Seq::<Space>::empty(),
            r.pwd is None,
            !r.is_auto_commit,
    {
        let path = get_db_path_with_base_path(dbname, base_path);
        MicroKV::create(path, None, gen_nonce(), false, Registry::new())
    }

    /// A new empty store without password in the default workspace.
    pub fn new(dbname: &str) -> (r: MicroKV)
        ensures
            r.wf(),
            r.version@ == CURRENT_VERSION@,
            exists|h: Option<Seq<char>>| r.path@ == db_path(dbname@, workspace_under(h)),
            r.spaces() == Seq::<Space>::empty(),
            r.pwd is None,
            !r.is_auto_commit,
    {
        let base = default_workspace();
        MicroKV::new_with_base_path(dbname, base.as_str())
    }

    /// Opens store `dbname` under `base_path` from what its file held: a new
    /// store where there was no file, else the snapshot migrated to the
    /// current layout. The caller persists an opened store at once.
    pub fn open_with_base_path(dbname: &str, base_path: &str, on_disk: OnDisk) -> (r: Result<
        MicroKV,
        KVError,
    >)
        requires
            on_disk matches OnDisk::Present(Some(l)) ==> layout_wf(l),
        ensures
            open_result(dbname@, base_path@, on_disk, r),
    {
        match on_disk {
            OnDisk::Absent => Ok(MicroKV::new_with_base_path(dbname, base_path)),
            OnDisk::Present(found) => {
                let path = get_db_path_with_base_path(dbname, base_path);
                let migration = Migrate::new(path.as_str());
                migration.migrate(found)
            },
        }
    }

    /// Opens store `dbname` in the default workspace (see
    /// `open_with_base_path`).
    pub fn open(dbname: &str, on_disk: OnDisk) -> (r: Result<MicroKV, KVError>)
        requires
            on_disk matches OnDisk::Present(Some(l)) ==> layout_wf(l),
        ensures
            exists|h: Option<Seq<char>>|
                open_result(dbname@, #[trigger] workspace_under(h), on_disk, r),
    {
        let base = default_workspace();
        MicroKV::open_with_base_path(dbname, base.as_str(), on_disk)
    }

    /// Sets the password from cleartext, hashed with SHA-256 into a key.
    pub fn with_pwd_clear(self, unsafe_pwd: &str) -> (r: MicroKV)
        requires
            self.wf(),
        ensures
            r.wf(),
            r.password() == Some(sha256_digest(unsafe_pwd.spec_bytes())),
            same_store(self, r),
    {
        let digest = sha256(unsafe_pwd.as_bytes());
        self.with_pwd_hash(digest)
    }

    /// Sets the password from a 32-byte hash.
    pub fn with_pwd_hash(self, pwd: [u8; 32]) -> (r: MicroKV)
        requires
            self.wf(),
        ensures
            r.wf(),
            r.password() == Some(pwd@),
            same_store(self, r),
    {
        let bytes = vstd::slice::slice_to_vec(vstd::array::array_as_slice(&pwd));
        let mut kv = self;
        kv.pwd = Some(sec_new(bytes));
        kv
    }

    /// Sets whether every change is to be persisted at once.
    pub fn set_auto_commit(self, enable: bool) -> (r: MicroKV)
        requires
            self.wf(),
        ensures
            r.wf(),
            r.is_auto_commit == enable,
            r.registry == self.registry,
            r.pwd == self.pwd,
            r.nonce == self.nonce,
            r.path == self.path,
            r.version == self.version,
    {
        let mut kv = self;
        kv.is_auto_commit = enable;
        kv
    }

    /// The version tag of the layout.
    pub fn version(&self) -> (r: &String)
        ensures
            r == &self.version,
    {
        &self.version
    }

    /// Encodes a value into a blob under this store's password and nonce.
    pub fn encode_value(&self, value: &serde_json::Value) -> (r: Result<secstr::SecVec<u8>, KVError>)
        requires
            self.wf(),
        ensures
            r matches Ok(b) && exists|t: Seq<char>|
                sec_content(b) == encoded(t, self.password(), self.nonce@),
    {
        crate::codec::encode_value(value, &self.pwd, &self.nonce)
    }

    /// Decodes a blob under this store's password and nonce.
    pub fn decode_value(&self, blob: &secstr::SecVec<u8>) -> (r: Result<serde_json::Value, KVError>)
        ensures
            match r {
                Ok(_) => decoded_value(sec_content(*blob), self.password(), self.nonce@) is Ok,
                Err(e) => decoded_value(sec_content(*blob), self.password(), self.nonce@) == Err::<
                    (),
                    crate::error::ErrorType,
                >(e.error),
            },
    {
        crate::codec::decode_value(blob, &self.pwd, &self.nonce)
    }

    /// Wipes every blob and the password, and drops every namespace; what
    /// is left to remove is the backing file.
    pub fn destruct(&mut self)
        requires
            old(self).wf(),
        ensures
            final(self).wf(),
            final(self).spaces() == Seq::<Space>::empty(),
            final(self).pwd is None,
            final(self).version == old(self).version,
            final(self).path == old(self).path,
            final(self).nonce == old(self).nonce,
            final(self).is_auto_commit == old(self).is_auto_commit,
    {
        let names = self.registry.namespaces();
        let mut i: usize = 0;
        while i < names.len()
            invariant
                self.wf(),
                same_settings(*old(self), *self),
                i <= names@.len(),
            decreases names@.len() - i,
        {
            let (j, mut store) = self.registry.take_store(&names[i]);
            store.clear();
            self.registry.put_back(j, store);
            i = i + 1;
        }
        self.registry = Registry::new();
        if let Some(mut p) = self.pwd.take() {
            sec_zero_out(&mut p);
        }
    }

    /// The names of all namespaces.
    pub fn namespaces(&self) -> (r: Result<Vec<String>, KVError>)
        requires
            self.wf(),
        ensures
            r matches Ok(v) && strings_view(v@) == key_seq(self.spaces()),
    {
        Ok(self.registry.namespaces())
    }

    /// A handle on namespace `namespace`.
    pub fn namespace(&self, namespace: &str) -> (r: NamespaceMicroKV)
        ensures
            r.namespace@ == namespace@,
    {
        NamespaceMicroKV::new(namespace)
    }

    /// A handle on the default namespace, whose name is empty.
    pub fn namespace_default(&self) -> (r: NamespaceMicroKV)
        ensures
            r.namespace@ == Seq::<char>::empty(),
    {
        proof {
            reveal_strlit("");
        }
        self.namespace("")
    }

    /// Removes a namespace and everything in it.
    pub fn delete_namespace(&mut self, namespace: &str) -> (r: Result<(), KVError>)
        requires
            old(self).wf(),
        ensures
            r is Ok,
            final(self).wf(),
            final(self).spaces() == without(old(self).spaces(), namespace@),
            same_settings(*old(self), *final(self)),
    {
        let name = namespace.to_owned();
        self.registry.delete_namespace(&name);
        Ok(())
    }

    /// Makes the namespaces agree with a registry read from the backing file
    /// (see `Registry::reconcile`).
    pub fn reload(&mut self, disk: Registry)
        requires
            old(self).wf(),
            disk.wf(),
        ensures
            final(self).wf(),
            forall|n: Seq<char>| #[trigger] crate::store::value_of(final(self).spaces(), n)
                == crate::store::value_of(disk@, n),
            same_settings(*old(self), *final(self)),
    {
        self.registry.reconcile(disk);
    }

    /// Reads the JSON text stored under `key` in the default namespace.
    pub fn get_text(&mut self, key: &str) -> (r: Result<Option<String>, KVError>)
        requires
            old(self).wf(),
        ensures
            final(self).wf(),
            final(self).spaces() == crate::registry::ensured(old(self).spaces(), Seq::empty()),
            same_settings(*old(self), *final(self)),
            crate::namespace::read_result(*old(self), Seq::empty(), key@, r),
    {
        let ns = self.namespace_default();
        ns.get_text(self, key)
    }

    /// Reads the value stored under `key` in the default namespace.
    pub fn get(&mut self, key: &str) -> (r: Result<Option<serde_json::Value>, KVError>)
        requires
            old(self).wf(),
        ensures
            final(self).wf(),
            final(self).spaces() == crate::registry::ensured(old(self).spaces(), Seq::empty()),
            same_settings(*old(self), *final(self)),
            crate::namespace::value_result(*old(self), Seq::empty(), key@, r),
    {
        let ns = self.namespace_default();
        ns.get(self, key)
    }

    /// Stores a JSON text under `key` in the default namespace.
    pub fn put_text(&mut self, key: &str, text: &String) -> (r: Result<(), KVError>)
        requires
            old(self).wf(),
        ensures
            r is Ok,
            final(self).wf(),
            same_settings(*old(self), *final(self)),
            final(self).spaces() == crate::registry::with_entries(
                old(self).spaces(),
                Seq::empty(),
                with_put(
                    ns_entries(*old(self), Seq::empty()),
                    key@,
                    crate::codec::encoded(text@, old(self).password(), old(self).nonce@),
                ),
            ),
    {
        let ns = self.namespace_default();
        ns.put_text(self, key, text)
    }

    /// Stores a value under `key` in the default namespace.
    pub fn put(&mut self, key: &str, value: &serde_json::Value) -> (r: Result<(), KVError>)
        requires
            old(self).wf(),
        ensures
            r is Ok,
            final(self).wf(),
            same_settings(*old(self), *final(self)),
            exists|t: Seq<char>|
                final(self).spaces() == crate::registry::with_entries(
                    old(self).spaces(),
                    Seq::empty(),
                    with_put(
                        ns_entries(*old(self), Seq::empty()),
                        key@,
                        crate::codec::encoded(t, old(self).password(), old(self).nonce@),
                    ),
                ),
    {
        let ns = self.namespace_default();
        ns.put(self, key, value)
    }

    /// Removes `key` from the default namespace; an absent key is no error.
    pub fn delete(&mut self, key: &str) -> (r: Result<(), KVError>)
        requires
            old(self).wf(),
        ensures
            r is Ok,
            final(self).wf(),
            same_settings(*old(self), *final(self)),
            final(self).spaces() == crate::registry::with_entries(
                old(self).spaces(),
                Seq::empty(),
                without(ns_entries(*old(self), Seq::empty()), key@),
            ),
    {
        let ns = self.namespace_default();
        ns.delete(self, key)
    }

    /// Whether `key` is stored in the default namespace.
    pub fn key_exists(&mut self, key: &str) -> (r: Result<bool, KVError>)
        requires
            old(self).wf(),
        ensures
            r == Ok::<bool, KVError>(
                crate::store::has_key(ns_entries(*old(self), Seq::empty()), key@),
            ),
            final(self).wf(),
            final(self).spaces() == crate::registry::ensured(old(self).spaces(), Seq::empty()),
            same_settings(*old(self), *final(self)),
    {
        let ns = self.namespace_default();
        ns.key_exists(self, key)
    }

    /// The keys of the default namespace in insertion order.
    pub fn keys(&mut self) -> (r: Result<Vec<String>, KVError>)
        requires
            old(self).wf(),
        ensures
            r matches Ok(v) && strings_view(v@) == key_seq(ns_entries(*old(self), Seq::empty())),
            final(self).wf(),
            final(self).spaces() == crate::registry::ensured(old(self).spaces(), Seq::empty()),
            same_settings(*old(self), *final(self)),
    {
        let ns = self.namespace_default();
        ns.keys(self)
    }

    /// The keys of the default namespace in lexical order.
    pub fn sorted_keys(&mut self) -> (r: Result<Vec<String>, KVError>)
        requires
            old(self).wf(),
        ensures
            r matches Ok(v) && is_lexical_sort(
                strings_view(v@),
                key_seq(ns_entries(*old(self), Seq::empty())),
            ),
            final(self).wf(),
            final(self).spaces() == crate::registry::ensured(old(self).spaces(), Seq::empty()),
            same_settings(*old(self), *final(self)),
    {
        let ns = self.namespace_default();
        ns.sorted_keys(self)
    }

    /// Wipes and removes every entry of the default namespace.
    pub fn clear(&mut self) -> (r: Result<(), KVError>)
        requires
            old(self).wf(),
        ensures
            r is Ok,
            final(self).wf(),
            same_settings(*old(self), *final(self)),
            final(self).spaces() == crate::registry::with_entries(
                old(self).spaces(),
                Seq::empty(),
                Seq::<Entry>::empty(),
            ),
    {
        let ns = self.namespace_default();
        ns.clear(self)
    }
}

/// What opening store `name` under `base` gives: a new empty store where
/// there was no file, else what migrating the snapshot gives.
pub open spec fn open_result(name: Seq<char>, base: Seq<char>, on_disk: OnDisk, r: Result<
    MicroKV,
    KVError,
>) -> bool {
    match on_disk {
        OnDisk::Absent => r matches Ok(kv) && kv.wf() && kv.spaces() == Seq::<Space>::empty()
            && kv.path@ == db_path(name, base) && kv.version@ == CURRENT_VERSION@ && kv.pwd is None
            && !kv.is_auto_commit,
        OnDisk::Present(found) => migrate_result(found, db_path(name, base), r),
    }
}

/// Everything but the password is unchanged.
pub open spec fn same_store(a: MicroKV, b: MicroKV) -> bool {
    &&& a.version == b.version
    &&& a.path == b.path
    &&& a.registry == b.registry
    &&& a.nonce == b.nonce
    &&& a.is_auto_commit == b.is_auto_commit
}

} // verus!
