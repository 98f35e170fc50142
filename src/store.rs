//! The namespace store: keys mapped to ciphertext blobs, kept in insertion
//! order in an `indexmap::IndexMap`.
use vstd::prelude::*;
use crate::secure::{sec_content, sec_zero_out};

verus! {

broadcast use vstd::seq_lib::group_to_multiset_ensures;

#[verifier::external_type_specification]
#[verifier::external_body]
#[verifier::reject_recursive_types(K)]
#[verifier::reject_recursive_types(V)]
#[verifier::reject_recursive_types(S)]
pub struct ExIndexMap<K, V, S>(indexmap::IndexMap<K, V, S>);

/// The map that backs a namespace.
pub type KV = indexmap::IndexMap<String, secstr::SecVec<u8>>;

/// An entry as plain values: a key and the bytes of its blob.
pub type Entry = (Seq<char>, Seq<u8>);

/// The entries that an index map holds, in its order.
pub uninterp spec fn kv_entries(m: KV) -> Seq<Entry>;

/// Relies on `IndexMap::new`: an empty map.
#[verifier::external_body]
fn kv_new() -> (r: KV)
    ensures
        kv_entries(r) == Seq::<Entry>::empty(),
{
    indexmap::IndexMap::new()
}

/// Relies on `IndexMap::len`: the number of entries.
#[verifier::external_body]
fn kv_len(m: &KV) -> (r: usize)
    ensures
        r == kv_entries(*m).len(),
{
    m.len()
}

/// Relies on `IndexMap::get_index_of`: the position of the entry whose key
/// equals `key`, if there is one.
#[verifier::external_body]
fn kv_index_of(m: &KV, key: &str) -> (r: Option<usize>)
    ensures
        match r {
            Some(i) => i < kv_entries(*m).len() && kv_entries(*m)[i as int].0 == key@,
            None => forall|i: int|
                0 <= i < kv_entries(*m).len() ==> #[trigger] kv_entries(*m)[i].0 != key@,
        },
{
    m.get_index_of(key)
}

/// Relies on `IndexMap::get_index`: the entry at a position.
#[verifier::external_body]
fn kv_get_index(m: &KV, i: usize) -> (r: Option<(&String, &secstr::SecVec<u8>)>)
    ensures
        match r {
            Some(e) => i < kv_entries(*m).len() && e.0@ == kv_entries(*m)[i as int].0
                && sec_content(*e.1) == kv_entries(*m)[i as int].1,
            None => i >= kv_entries(*m).len(),
        },
{
    m.get_index(i)
}

/// Relies on `IndexMap::insert`: a new key goes last; an existing one keeps
/// its place and takes the new value.
#[verifier::external_body]
fn kv_insert(m: &mut KV, key: String, value: secstr::SecVec<u8>)
    ensures
        forall|i: int|
            0 <= i < kv_entries(*old(m)).len() && #[trigger] kv_entries(*old(m))[i].0 == key@
                ==> kv_entries(*final(m)) == kv_entries(*old(m)).update(
                i,
                (key@, sec_content(value)),
            ),
        (forall|i: int|
            0 <= i < kv_entries(*old(m)).len() ==> #[trigger] kv_entries(*old(m))[i].0 != key@)
            ==> kv_entries(*final(m)) == kv_entries(*old(m)).push((key@, sec_content(value))),
{
    m.insert(key, value);
}

/// Relies on `IndexMap::shift_remove`: the entry with that key leaves, and
/// the entries after it keep their order.
#[verifier::external_body]
fn kv_shift_remove(m: &mut KV, key: &str) -> (r: Option<secstr::SecVec<u8>>)
    ensures
        match r {
            Some(v) => exists|i: int|
                0 <= i < kv_entries(*old(m)).len() && kv_entries(*old(m))[i].0 == key@
                    && kv_entries(*old(m))[i].1 == sec_content(v) && kv_entries(*final(m))
                    == kv_entries(*old(m)).remove(i),
            None => kv_entries(*final(m)) == kv_entries(*old(m)) && forall|i: int|
                0 <= i < kv_entries(*old(m)).len() ==> #[trigger] kv_entries(*old(m))[i].0
                    != key@,
        },
{
    m.shift_remove(key)
}

/// Relies on `IndexMap::pop`: the last entry leaves and is handed back.
#[verifier::external_body]
fn kv_pop(m: &mut KV) -> (r: Option<(String, secstr::SecVec<u8>)>)
    ensures
        match r {
            Some(e) => kv_entries(*old(m)).len() > 0 && kv_entries(*final(m)) == kv_entries(
                *old(m),
            ).drop_last() && (e.0@, sec_content(e.1)) == kv_entries(*old(m)).last(),
            None => kv_entries(*old(m)).len() == 0 && kv_entries(*final(m)) == kv_entries(
                *old(m),
            ),
        },
{
    m.pop()
}

/// Relies on `Clone` of `IndexMap` (with `SecVec::clone` on each value): the
/// same entries in the same order.
#[verifier::external_body]
fn kv_clone(m: &KV) -> (r: KV)
    ensures
        kv_entries(r) == kv_entries(*m),
{
    m.clone()
}

/// Relies on `IndexMap::sort_keys`: the same entries, ordered by `Ord` of
/// `String`, which compares the characters one by one.
#[verifier::external_body]
fn kv_sort_keys(m: &mut KV)
    ensures
        kv_entries(*final(m)).to_multiset() == kv_entries(*old(m)).to_multiset(),
        forall|i: int, j: int|
            0 <= i < j < kv_entries(*final(m)).len() ==> !key_lt(
                #[trigger] kv_entries(*final(m))[j].0,
                #[trigger] kv_entries(*final(m))[i].0,
            ),
{
    m.sort_keys()
}

/// Lexical order of keys, by code point.
pub open spec fn key_lt(a: Seq<char>, b: Seq<char>) -> bool
    decreases a.len(),
{
    if a.len() == 0 {
        b.len() > 0
    } else if b.len() == 0 {
        false
    } else if a[0] != b[0] {
        (a[0] as int) < (b[0] as int)
    } else {
        key_lt(a.drop_first(), b.drop_first())
    }
}

/// No key occurs twice.
pub open spec fn keys_unique<V>(s: Seq<(Seq<char>, V)>) -> bool {
    forall|i: int, j: int| 0 <= i < j < s.len() ==> #[trigger] s[i].0 != #[trigger] s[j].0
}

/// Whether some entry has key `k`.
pub open spec fn has_key<V>(s: Seq<(Seq<char>, V)>, k: Seq<char>) -> bool {
    exists|i: int| 0 <= i < s.len() && #[trigger] s[i].0 == k
}

/// The position of the entry with key `k` (meaningful where `has_key`).
pub open spec fn key_index<V>(s: Seq<(Seq<char>, V)>, k: Seq<char>) -> int {
    choose|i: int| 0 <= i < s.len() && #[trigger] s[i].0 == k
}

/// The blob stored under `k`, if any.
pub open spec fn value_of<V>(s: Seq<(Seq<char>, V)>, k: Seq<char>) -> Option<V> {
    if has_key(s, k) {
        Some(s[key_index(s, k)].1)
    } else {
        None
    }
}

/// The entries without the one with key `k`, the others in their order.
pub open spec fn without<V>(s: Seq<(Seq<char>, V)>, k: Seq<char>) -> Seq<(Seq<char>, V)> {
    if has_key(s, k) {
        s.remove(key_index(s, k))
    } else {
        s
    }
}

/// The entries after storing `v` under `k`: any old entry for `k` removed,
/// the new one last.
pub open spec fn with_put<V>(s: Seq<(Seq<char>, V)>, k: Seq<char>, v: V) -> Seq<(Seq<char>, V)> {
    without(s, k).push((k, v))
}

/// The keys, in the entries' order.
pub open spec fn key_seq<V>(s: Seq<(Seq<char>, V)>) -> Seq<Seq<char>> {
    s.map_values(|e: (Seq<char>, V)| e.0)
}

/// `out` is `ks` in strictly increasing lexical order.
pub open spec fn is_lexical_sort(out: Seq<Seq<char>>, ks: Seq<Seq<char>>) -> bool {
    &&& out.len() == ks.len()
    &&& forall|i: int| 0 <= i < out.len() ==> ks.contains(#[trigger] out[i])
    &&& forall|i: int| 0 <= i < ks.len() ==> out.contains(#[trigger] ks[i])
    &&& forall|i: int, j: int| 0 <= i < j < out.len() ==> key_lt(#[trigger] out[i], #[trigger] out[j])
}

/// The views of a vector of strings.
pub open spec fn strings_view(v: Seq<String>) -> Seq<Seq<char>> {
    v.map_values(|s: String| s@)
}

/// Under unique keys, the entry found at `i` is the one `key_index` names.
pub proof fn lemma_key_index_unique<V>(s: Seq<(Seq<char>, V)>, k: Seq<char>, i: int)
    requires
        keys_unique(s),
        0 <= i < s.len(),
        s[i].0 == k,
    ensures
        has_key(s, k),
        key_index(s, k) == i,
{
    assert(has_key(s, k));
    let j = key_index(s, k);
    if j != i {
        if j < i {
            assert(s[j].0 != s[i].0);
        } else {
            assert(s[i].0 != s[j].0);
        }
    }
}

/// Removing one entry keeps keys unique, and that key is then absent.
pub proof fn lemma_without<V>(s: Seq<(Seq<char>, V)>, k: Seq<char>)
    requires
        keys_unique(s),
    ensures
        keys_unique(without(s, k)),
        !has_key(without(s, k), k),
        without(s, k).len() == if has_key(s, k) { s.len() - 1 } else { s.len() as int },
        forall|k2: Seq<char>| k2 != k ==> value_of(#[trigger] without(s, k), k2) == value_of(s, k2),
{
    let w = without(s, k);
    if has_key(s, k) {
        let i = key_index(s, k);
        assert forall|a: int, b: int| 0 <= a < b < w.len() implies #[trigger] w[a].0 != #[trigger] w[b].0 by {
            let a2 = if a < i { a } else { a + 1 };
            let b2 = if b < i { b } else { b + 1 };
            assert(w[a] == s[a2]);
            assert(w[b] == s[b2]);
            assert(s[a2].0 != s[b2].0);
        }
        if has_key(w, k) {
            let j = key_index(w, k);
            let j2 = if j < i { j } else { j + 1 };
            assert(w[j] == s[j2]);
            if j2 < i {
                assert(s[j2].0 != s[i].0);
            } else {
                assert(s[i].0 != s[j2].0);
            }
        }
        assert forall|k2: Seq<char>| k2 != k implies value_of(#[trigger] without(s, k), k2) == value_of(s, k2) by {
            if has_key(s, k2) {
                let a = key_index(s, k2);
                let a1 = if a < i { a } else { a - 1 };
                assert(a != i);
                assert(w[a1] == s[a]);
                lemma_key_index_unique(w, k2, a1);
            }
            if has_key(w, k2) {
                let b = key_index(w, k2);
                let b2 = if b < i { b } else { b + 1 };
                assert(w[b] == s[b2]);
                lemma_key_index_unique(s, k2, b2);
            }
        }
    }
}

/// Storing under a key keeps keys unique and makes that key hold the new
/// blob; every other key keeps its blob.
pub proof fn lemma_with_put<V>(s: Seq<(Seq<char>, V)>, k: Seq<char>, v: V)
    requires
        keys_unique(s),
    ensures
        keys_unique(with_put(s, k, v)),
        value_of(with_put(s, k, v), k) == Some(v),
        forall|k2: Seq<char>| k2 != k ==> value_of(#[trigger] with_put(s, k, v), k2) == value_of(s, k2),
{
    lemma_without(s, k);
    let w = without(s, k);
    let p = with_put(s, k, v);
    assert forall|a: int, b: int| 0 <= a < b < p.len() implies #[trigger] p[a].0 != #[trigger] p[b].0 by {
        if b == w.len() {
            assert(w[a].0 != k);
        } else {
            assert(w[a].0 != w[b].0);
        }
    }
    lemma_key_index_unique(p, k, w.len() as int);
    assert forall|k2: Seq<char>| k2 != k implies value_of(#[trigger] with_put(s, k, v), k2) == value_of(s, k2) by {
        if has_key(w, k2) {
            let a = key_index(w, k2);
            assert(p[a] == w[a]);
            lemma_key_index_unique(p, k2, a);
        }
        if has_key(p, k2) {
            let b = key_index(p, k2);
            assert(b != w.len());
            assert(p[b] == w[b]);
            lemma_key_index_unique(w, k2, b);
        }
    }
}

} // verus!

verus! {

/// One namespace: keys mapped to ciphertext blobs in insertion order.
#[derive(Debug)]
pub struct KvStore {
    map: KV,
}

impl View for KvStore {
    type V = Seq<Entry>;

    closed spec fn view(&self) -> Seq<Entry> {
        kv_entries(self.map)
    }
}

impl KvStore {
    /// Keys are unique.
    pub open spec fn wf(&self) -> bool {
        keys_unique(self@)
    }

    /// An empty namespace.
    pub fn new() -> (r: KvStore)
        ensures
            r.wf(),
            r@ == Seq::<Entry>::empty(),
    {
        KvStore { map: kv_new() }
    }

    /// A namespace holding a copy of the given one's entries.
    pub fn copy(&self) -> (r: KvStore)
        ensures
            r@ == self@,
    {
        KvStore { map: kv_clone(&self.map) }
    }

    /// The number of entries.
    pub fn len(&self) -> (r: usize)
        ensures
            r == self@.len(),
    {
        kv_len(&self.map)
    }

    /// Whether `key` is stored.
    pub fn contains_key(&self, key: &str) -> (r: bool)
        requires
            self.wf(),
        ensures
            r == has_key(self@, key@),
    {
        match kv_index_of(&self.map, key) {
            Some(i) => {
                proof {
                    lemma_key_index_unique(self@, key@, i as int);
                }
                true
            },
            None => false,
        }
    }

    /// The blob stored under `key`, if any.
    pub fn get(&self, key: &str) -> (r: Option<&secstr::SecVec<u8>>)
        requires
            self.wf(),
        ensures
            match r {
                Some(b) => value_of(self@, key@) == Some(sec_content(*b)),
                None => value_of(self@, key@) is None,
            },
    {
        match kv_index_of(&self.map, key) {
            Some(i) => {
                proof {
                    lemma_key_index_unique(self@, key@, i as int);
                }
                match kv_get_index(&self.map, i) {
                    Some(e) => Some(e.1),
                    None => None,
                }
            },
            None => None,
        }
    }

    /// Removes the entry under `key`, if any; the others keep their order.
    pub fn remove(&mut self, key: &str) -> (r: Option<secstr::SecVec<u8>>)
        requires
            old(self).wf(),
        ensures
            final(self).wf(),
            final(self)@ == without(old(self)@, key@),
            r is Some <==> has_key(old(self)@, key@),
    {
        let r = kv_shift_remove(&mut self.map, key);
        proof {
            if r is Some {
                let i = choose|i: int|
                    0 <= i < old(self)@.len() && old(self)@[i].0 == key@
                        && old(self)@[i].1 == sec_content(r->Some_0) && self@ == old(self)@.remove(i);
                lemma_key_index_unique(old(self)@, key@, i);
            }
            lemma_without(old(self)@, key@);
        }
        r
    }

    /// Stores `blob` under `key`: any old entry for the key is removed first,
    /// so the key moves to the end of the insertion order.
    pub fn put(&mut self, key: String, blob: secstr::SecVec<u8>)
        requires
            old(self).wf(),
        ensures
            final(self).wf(),
            final(self)@ == with_put(old(self)@, key@, sec_content(blob)),
    {
        let _ = self.remove(key.as_str());
        proof {
            lemma_without(old(self)@, key@);
            lemma_with_put(old(self)@, key@, sec_content(blob));
        }
        kv_insert(&mut self.map, key, blob);
    }

    /// Wipes every blob, then removes all entries.
    pub fn clear(&mut self)
        ensures
            final(self).wf(),
            final(self)@ == Seq::<Entry>::empty(),
    {
        loop
            invariant_except_break
                true,
            ensures
                self@ == Seq::<Entry>::empty(),
            decreases self@.len(),
        {
            match kv_pop(&mut self.map) {
                Some(e) => {
                    let mut blob = e.1;
                    sec_zero_out(&mut blob);
                },
                None => {
                    break;
                },
            }
        }
    }

    /// The keys in insertion order.
    pub fn keys(&self) -> (r: Vec<String>)
        ensures
            strings_view(r@) == key_seq(self@),
    {
        let n = kv_len(&self.map);
        let mut out: Vec<String> = Vec::new();
        let mut i: usize = 0;
        while i < n
            invariant
                n == self@.len(),
                i <= n,
                out@.len() == i,
                forall|j: int| 0 <= j < i ==> #[trigger] out@[j]@ == self@[j].0,
            decreases n - i,
        {
            match kv_get_index(&self.map, i) {
                Some(e) => {
                    out.push(e.0.clone());
                },
                None => {
                    assert(false);
                },
            }
            i = i + 1;
        }
        assert(strings_view(out@) =~= key_seq(self@));
        out
    }

    /// The keys in lexical order, computed afresh on each call.
    pub fn sorted_keys(&self) -> (r: Vec<String>)
        requires
            self.wf(),
        ensures
            is_lexical_sort(strings_view(r@), key_seq(self@)),
    {
        let mut sorted = KvStore { map: kv_clone(&self.map) };
        kv_sort_keys(&mut sorted.map);
        let r = sorted.keys();
        proof {
            let s = self@;
            let t = sorted@;
            let out = strings_view(r@);
            let ks = key_seq(s);
            assert(t.len() == s.len()) by {
                assert(t.to_multiset().len() == s.to_multiset().len());
            }
            assert forall|i: int| 0 <= i < out.len() implies ks.contains(#[trigger] out[i]) by {
                assert(t.contains(t[i]));
                assert(t.to_multiset().count(t[i]) > 0);
                assert(s.to_multiset().count(t[i]) > 0);
                assert(s.contains(t[i]));
                let j = choose|j: int| 0 <= j < s.len() && s[j] == t[i];
                assert(ks[j] == out[i]);
            }
            assert forall|i: int| 0 <= i < ks.len() implies out.contains(#[trigger] ks[i]) by {
                assert(s.contains(s[i]));
                assert(s.to_multiset().count(s[i]) > 0);
                assert(t.to_multiset().count(s[i]) > 0);
                assert(t.contains(s[i]));
                let j = choose|j: int| 0 <= j < t.len() && t[j] == s[i];
                assert(out[j] == ks[i]);
            }
            assert forall|i: int, j: int| 0 <= i < j < out.len() implies key_lt(#[trigger] out[i], #[trigger] out[j]) by {
                assert(!key_lt(t[j].0, t[i].0));
                lemma_unique_keys_distinct(s, t, i, j);
                lemma_key_lt_total(t[i].0, t[j].0);
            }
        }
        r
    }
}

/// Two entries at different positions of a rearrangement of entries with
/// unique keys have different keys.
proof fn lemma_unique_keys_distinct(s: Seq<Entry>, t: Seq<Entry>, i: int, j: int)
    requires
        keys_unique(s),
        t.to_multiset() == s.to_multiset(),
        0 <= i < j < t.len(),
    ensures
        t[i].0 != t[j].0,
{
    if t[i].0 == t[j].0 {
        assert(t.contains(t[i]));
        assert(t.contains(t[j]));
        assert(t.to_multiset().count(t[i]) > 0);
        assert(t.to_multiset().count(t[j]) > 0);
        assert(s.contains(t[i]));
        assert(s.contains(t[j]));
        let a = choose|a: int| 0 <= a < s.len() && s[a] == t[i];
        let b = choose|b: int| 0 <= b < s.len() && s[b] == t[j];
        if a != b {
            if a < b {
                assert(s[a].0 != s[b].0);
            } else {
                assert(s[b].0 != s[a].0);
            }
        } else {
            // the same entry twice in t: it would be counted twice
            assert(t[i] == t[j]);
            let e = t[i];
            assert(s.to_multiset().count(e) <= 1) by {
                lemma_unique_count(s, a);
            }
            lemma_count_two(t, i, j);
        }
    }
}

/// An entry of a sequence with unique keys occurs in it once.
proof fn lemma_unique_count(s: Seq<Entry>, a: int)
    requires
        keys_unique(s),
        0 <= a < s.len(),
    ensures
        s.to_multiset().count(s[a]) <= 1,
    decreases s.len(),
{
    let e = s[a];
    let last = s.len() - 1;
    assert(s =~= s.drop_last().push(s.last()));
    vstd::seq_lib::to_multiset_build(s.drop_last(), s.last());
    let d = s.drop_last();
    assert(keys_unique(d)) by {
        assert forall|x: int, y: int| 0 <= x < y < d.len() implies #[trigger] d[x].0 != #[trigger] d[y].0 by {
            assert(s[x].0 != s[y].0);
        }
    }
    if a == last {
        assert(!d.contains(e)) by {
            if d.contains(e) {
                let x = choose|x: int| 0 <= x < d.len() && d[x] == e;
                assert(s[x].0 != s[last].0);
            }
        }
        assert(d.to_multiset().count(e) == 0);
    } else {
        lemma_unique_count(d, a);
        assert(s.last() != e) by {
            assert(s[a].0 != s[last].0);
        }
    }
}

/// An item at two positions of a sequence is counted at least twice.
proof fn lemma_count_two(t: Seq<Entry>, i: int, j: int)
    requires
        0 <= i < j < t.len(),
        t[i] == t[j],
    ensures
        t.to_multiset().count(t[i]) >= 2,
{
    let e = t[i];
    vstd::seq_lib::to_multiset_remove(t, j);
    let r = t.remove(j);
    assert(r[i] == e);
    assert(r.contains(e));
    assert(r.to_multiset().count(e) >= 1);
}

/// Two different keys are ordered one way or the other.
pub proof fn lemma_key_lt_total(a: Seq<char>, b: Seq<char>)
    requires
        a != b,
    ensures
        key_lt(a, b) || key_lt(b, a),
    decreases a.len(),
{
    if a.len() > 0 && b.len() > 0 && a[0] == b[0] {
        assert(a.drop_first() != b.drop_first()) by {
            if a.drop_first() == b.drop_first() {
                assert(a =~= seq![a[0]] + a.drop_first());
                assert(b =~= seq![b[0]] + b.drop_first());
            }
        }
        lemma_key_lt_total(a.drop_first(), b.drop_first());
    } else if a.len() > 0 && b.len() > 0 {
        assert((a[0] as int) != (b[0] as int));
    } else if a.len() == 0 && b.len() == 0 {
        assert(a =~= b);
    }
}

} // verus!

verus! {

/// `k` occurs exactly once in `ks`.
pub open spec fn occurs_once(ks: Seq<Seq<char>>, k: Seq<char>) -> bool {
    &&& ks.contains(k)
    &&& forall|i: int, j: int|
        0 <= i < ks.len() && 0 <= j < ks.len() && ks[i] == k && ks[j] == k ==> i == j
}

/// Storing twice under one key: the key then holds the second blob and
/// occurs once among the keys.
pub proof fn lemma_put_replace(s: Seq<Entry>, k: Seq<char>, v1: Seq<u8>, v2: Seq<u8>)
    requires
        keys_unique(s),
    ensures
        value_of(with_put(with_put(s, k, v1), k, v2), k) == Some(v2),
        occurs_once(key_seq(with_put(with_put(s, k, v1), k, v2)), k),
{
    lemma_with_put(s, k, v1);
    let s1 = with_put(s, k, v1);
    lemma_with_put(s1, k, v2);
    let s2 = with_put(s1, k, v2);
    let ks = key_seq(s2);
    assert(ks[s2.len() - 1] == k);
    assert forall|i: int, j: int|
        0 <= i < ks.len() && 0 <= j < ks.len() && ks[i] == k && ks[j] == k implies i == j by {
        if i < j {
            assert(s2[i].0 != s2[j].0);
        } else if j < i {
            assert(s2[j].0 != s2[i].0);
        }
    }
}

/// Removing a key that is absent changes nothing, and after removing a key
/// it is absent.
pub proof fn lemma_delete_idempotent(s: Seq<Entry>, k: Seq<char>)
    requires
        keys_unique(s),
    ensures
        !has_key(s, k) ==> without(s, k) == s,
        !has_key(without(s, k), k),
        without(without(s, k), k) == without(s, k),
{
    lemma_without(s, k);
}

/// Keys come out in insertion order: storing under a new key appends it.
pub proof fn lemma_insertion_order(s: Seq<Entry>, k: Seq<char>, v: Seq<u8>)
    requires
        !has_key(s, k),
    ensures
        key_seq(with_put(s, k, v)) == key_seq(s).push(k),
{
    assert(key_seq(with_put(s, k, v)) =~= key_seq(s).push(k));
}

} // verus!
