//! The namespace handle: the operations on one namespace of a store.
use vstd::prelude::*;
use crate::codec::{decode_text, decode_value, decoded, decoded_value, encode_text, encode_value, encoded};
use crate::error::KVError;
use crate::kv::MicroKV;
use crate::registry::{ensured, entries_in, with_entries};
use crate::secure::sec_content;
use crate::store::{has_key, is_lexical_sort, key_seq, strings_view, value_of, with_put, without, Entry};

verus! {

/// The entries of namespace `ns` of a store.
pub open spec fn ns_entries(kv: MicroKV, ns: Seq<char>) -> Seq<Entry> {
    entries_in(kv.spaces(), ns)
}

/// Everything but the namespaces is unchanged.
pub open spec fn same_settings(a: MicroKV, b: MicroKV) -> bool {
    &&& a.version == b.version
    &&& a.path == b.path
    &&& a.nonce == b.nonce
    &&& a.pwd == b.pwd
    &&& a.is_auto_commit == b.is_auto_commit
}

/// What reading `key` from entries `es` as JSON text gives: nothing where
/// it is absent, else the decoded text or the decoding error.
pub open spec fn read_in(es: Seq<Entry>, key: Seq<char>, pwd: Option<Seq<u8>>, nonce: Seq<u8>, r: Result<
    Option<String>,
    KVError,
>) -> bool {
    match value_of(es, key) {
        None => r matches Ok(None),
        Some(blob) => match decoded(blob, pwd, nonce) {
            Ok(t) => r matches Ok(Some(s)) && s@ == t,
            Err(e) => r matches Err(err) && err.error == e,
        },
    }
}

/// What reading `key` from entries `es` as a JSON value gives.
pub open spec fn value_in(es: Seq<Entry>, key: Seq<char>, pwd: Option<Seq<u8>>, nonce: Seq<u8>, r: Result<
    Option<serde_json::Value>,
    KVError,
>) -> bool {
    match value_of(es, key) {
        None => r matches Ok(None),
        Some(blob) => match decoded_value(blob, pwd, nonce) {
            Ok(_) => r matches Ok(Some(_)),
            Err(e) => r matches Err(err) && err.error == e,
        },
    }
}

/// What reading `key` of namespace `ns` of a store as JSON text gives.
pub open spec fn read_result(kv: MicroKV, ns: Seq<char>, key: Seq<char>, r: Result<
    Option<String>,
    KVError,
>) -> bool {
    read_in(ns_entries(kv, ns), key, kv.password(), kv.nonce@, r)
}

/// What reading `key` of namespace `ns` of a store as a JSON value gives.
pub open spec fn value_result(kv: MicroKV, ns: Seq<char>, key: Seq<char>, r: Result<
    Option<serde_json::Value>,
    KVError,
>) -> bool {
    value_in(ns_entries(kv, ns), key, kv.password(), kv.nonce@, r)
}

/// A handle on one namespace; it holds only the name.
#[derive(Clone, Debug)]
pub struct NamespaceMicroKV {
    pub namespace: String,
}

impl NamespaceMicroKV {
    /// A handle on namespace `namespace`.
    pub fn new(namespace: &str) -> (r: NamespaceMicroKV)
        ensures
            r.namespace@ == namespace@,
    {
        NamespaceMicroKV { namespace: namespace.to_owned() }
    }

    /// Reads the JSON text stored under `key`. The namespace is created if
    /// it does not exist.
    pub fn get_text(&self, kv: &mut MicroKV, key: &str) -> (r: Result<Option<String>, KVError>)
        requires
            old(kv).wf(),
        ensures
            final(kv).wf(),
            final(kv).spaces() == ensured(old(kv).spaces(), self.namespace@),
            same_settings(*old(kv), *final(kv)),
            read_result(*old(kv), self.namespace@, key@, r),
    {
        let i = kv.registry.ensure_namespace(&self.namespace);
        proof {
            lemma_ensured_entries(old(kv).spaces(), self.namespace@, i as int);
        }
        let store = kv.registry.store_at(i);
        match store.get(key) {
            None => Ok(None),
            Some(blob) => match decode_text(blob, &kv.pwd, &kv.nonce) {
                Ok(t) => Ok(Some(t)),
                Err(e) => Err(e),
            },
        }
    }

    /// Reads the value stored under `key`.
    pub fn get(&self, kv: &mut MicroKV, key: &str) -> (r: Result<Option<serde_json::Value>, KVError>)
        requires
            old(kv).wf(),
        ensures
            final(kv).wf(),
            final(kv).spaces() == ensured(old(kv).spaces(), self.namespace@),
            same_settings(*old(kv), *final(kv)),
            value_result(*old(kv), self.namespace@, key@, r),
    {
        let i = kv.registry.ensure_namespace(&self.namespace);
        proof {
            lemma_ensured_entries(old(kv).spaces(), self.namespace@, i as int);
        }
        let store = kv.registry.store_at(i);
        match store.get(key) {
            None => Ok(None),
            Some(blob) => match decode_value(blob, &kv.pwd, &kv.nonce) {
                Ok(v) => Ok(Some(v)),
                Err(e) => Err(e),
            },
        }
    }

    /// Stores a blob under `key`, replacing any old entry.
    fn put_blob(&self, kv: &mut MicroKV, key: &str, blob: secstr::SecVec<u8>)
        requires
            old(kv).wf(),
        ensures
            final(kv).wf(),
            same_settings(*old(kv), *final(kv)),
            final(kv).spaces() == with_entries(
                old(kv).spaces(),
                self.namespace@,
                with_put(ns_entries(*old(kv), self.namespace@), key@, sec_content(blob)),
            ),
    {
        let (i, mut store) = kv.registry.take_store(&self.namespace);
        store.put(key.to_owned(), blob);
        let ghost sv = store@;
        let ghost mid = kv.spaces();
        kv.registry.put_back(i, store);
        proof {
            let e = ensured(old(kv).spaces(), self.namespace@);
            assert(mid == e.update(i as int, (self.namespace@, Seq::<Entry>::empty())));
            assert(kv.spaces() =~= e.update(i as int, (self.namespace@, sv)));
            assert(kv.spaces() =~= with_entries(
                old(kv).spaces(),
                self.namespace@,
                with_put(ns_entries(*old(kv), self.namespace@), key@, sec_content(blob)),
            ));
        }
    }

    /// Stores a JSON text under `key`: any old entry is removed and the new
    /// one goes last.
    pub fn put_text(&self, kv: &mut MicroKV, key: &str, text: &String) -> (r: Result<(), KVError>)
        requires
            old(kv).wf(),
        ensures
            r is Ok,
            final(kv).wf(),
            same_settings(*old(kv), *final(kv)),
            final(kv).spaces() == with_entries(
                old(kv).spaces(),
                self.namespace@,
                with_put(
                    ns_entries(*old(kv), self.namespace@),
                    key@,
                    encoded(text@, old(kv).password(), old(kv).nonce@),
                ),
            ),
    {
        let blob = encode_text(text, &kv.pwd, &kv.nonce)?;
        self.put_blob(kv, key, blob);
        Ok(())
    }

    /// Stores a value under `key`.
    pub fn put(&self, kv: &mut MicroKV, key: &str, value: &serde_json::Value) -> (r: Result<
        (),
        KVError,
    >)
        requires
            old(kv).wf(),
        ensures
            r is Ok,
            final(kv).wf(),
            same_settings(*old(kv), *final(kv)),
            exists|t: Seq<char>|
                final(kv).spaces() == with_entries(
                    old(kv).spaces(),
                    self.namespace@,
                    with_put(
                        ns_entries(*old(kv), self.namespace@),
                        key@,
                        encoded(t, old(kv).password(), old(kv).nonce@),
                    ),
                ),
    {
        let blob = encode_value(value, &kv.pwd, &kv.nonce)?;
        self.put_blob(kv, key, blob);
        Ok(())
    }

    /// Removes `key`; an absent key is no error.
    pub fn delete(&self, kv: &mut MicroKV, key: &str) -> (r: Result<(), KVError>)
        requires
            old(kv).wf(),
        ensures
            r is Ok,
            final(kv).wf(),
            same_settings(*old(kv), *final(kv)),
            final(kv).spaces() == with_entries(
                old(kv).spaces(),
                self.namespace@,
                without(ns_entries(*old(kv), self.namespace@), key@),
            ),
    {
        let (i, mut store) = kv.registry.take_store(&self.namespace);
        let _ = store.remove(key);
        let ghost sv = store@;
        let ghost mid = kv.spaces();
        kv.registry.put_back(i, store);
        proof {
            let e = ensured(old(kv).spaces(), self.namespace@);
            assert(mid == e.update(i as int, (self.namespace@, Seq::<Entry>::empty())));
            assert(kv.spaces() =~= e.update(i as int, (self.namespace@, sv)));
            assert(kv.spaces() =~= with_entries(
                old(kv).spaces(),
                self.namespace@,
                without(ns_entries(*old(kv), self.namespace@), key@),
            ));
        }
        Ok(())
    }

    /// Whether `key` is stored.
    pub fn key_exists(&self, kv: &mut MicroKV, key: &str) -> (r: Result<bool, KVError>)
        requires
            old(kv).wf(),
        ensures
            r == Ok::<bool, KVError>(has_key(ns_entries(*old(kv), self.namespace@), key@)),
            final(kv).wf(),
            final(kv).spaces() == ensured(old(kv).spaces(), self.namespace@),
            same_settings(*old(kv), *final(kv)),
    {
        let i = kv.registry.ensure_namespace(&self.namespace);
        proof {
            lemma_ensured_entries(old(kv).spaces(), self.namespace@, i as int);
        }
        Ok(kv.registry.store_at(i).contains_key(key))
    }

    /// The keys in insertion order.
    pub fn keys(&self, kv: &mut MicroKV) -> (r: Result<Vec<String>, KVError>)
        requires
            old(kv).wf(),
        ensures
            r matches Ok(v) && strings_view(v@) == key_seq(ns_entries(*old(kv), self.namespace@)),
            final(kv).wf(),
            final(kv).spaces() == ensured(old(kv).spaces(), self.namespace@),
            same_settings(*old(kv), *final(kv)),
    {
        let i = kv.registry.ensure_namespace(&self.namespace);
        proof {
            lemma_ensured_entries(old(kv).spaces(), self.namespace@, i as int);
        }
        Ok(kv.registry.store_at(i).keys())
    }

    /// The keys in lexical order, sorted afresh on each call.
    pub fn sorted_keys(&self, kv: &mut MicroKV) -> (r: Result<Vec<String>, KVError>)
        requires
            old(kv).wf(),
        ensures
            r matches Ok(v) && is_lexical_sort(
                strings_view(v@),
                key_seq(ns_entries(*old(kv), self.namespace@)),
            ),
            final(kv).wf(),
            final(kv).spaces() == ensured(old(kv).spaces(), self.namespace@),
            same_settings(*old(kv), *final(kv)),
    {
        let i = kv.registry.ensure_namespace(&self.namespace);
        proof {
            lemma_ensured_entries(old(kv).spaces(), self.namespace@, i as int);
        }
        Ok(kv.registry.store_at(i).sorted_keys())
    }

    /// Wipes every blob of the namespace, then removes all its entries.
    pub fn clear(&self, kv: &mut MicroKV) -> (r: Result<(), KVError>)
        requires
            old(kv).wf(),
        ensures
            r is Ok,
            final(kv).wf(),
            same_settings(*old(kv), *final(kv)),
            final(kv).spaces() == with_entries(
                old(kv).spaces(),
                self.namespace@,
                Seq::<Entry>::empty(),
            ),
    {
        let (i, mut store) = kv.registry.take_store(&self.namespace);
        store.clear();
        let ghost sv = store@;
        let ghost mid = kv.spaces();
        kv.registry.put_back(i, store);
        proof {
            let e = ensured(old(kv).spaces(), self.namespace@);
            assert(mid == e.update(i as int, (self.namespace@, Seq::<Entry>::empty())));
            assert(kv.spaces() =~= e.update(i as int, (self.namespace@, sv)));
            assert(kv.spaces() =~= with_entries(
                old(kv).spaces(),
                self.namespace@,
                Seq::<Entry>::empty(),
            ));
        }
        Ok(())
    }
}

/// After `ensured`, the namespace at position `i` (named `ns`) holds the
/// entries it held before, or none.
proof fn lemma_ensured_entries(r: Seq<crate::registry::Space>, ns: Seq<char>, i: int)
    requires
        crate::registry::registry_wf(ensured(r, ns)),
        0 <= i < ensured(r, ns).len(),
        ensured(r, ns)[i].0 == ns,
    ensures
        ensured(r, ns)[i].1 == entries_in(r, ns),
{
    let e = ensured(r, ns);
    crate::store::lemma_key_index_unique(e, ns, i);
    if has_key(r, ns) {
        assert(e == r);
    } else {
        assert(i == r.len());
    }
}

} // verus!
