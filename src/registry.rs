//! The store registry: namespace names mapped to namespace stores.
use vstd::prelude::*;
use crate::store::{
    has_key, key_seq, keys_unique, lemma_key_index_unique, lemma_with_put, lemma_without,
    strings_view, value_of, with_put, without, Entry, KvStore,
};

verus! {

/// A namespace as plain values: its name and its entries.
pub type Space = (Seq<char>, Seq<Entry>);

/// Every namespace, in the registry's order.
#[derive(Debug)]
pub struct Registry {
    spaces: Vec<(String, KvStore)>,
}

/// Names are unique, and so are the keys within each namespace.
pub open spec fn registry_wf(r: Seq<Space>) -> bool {
    &&& keys_unique(r)
    &&& forall|i: int| 0 <= i < r.len() ==> keys_unique(#[trigger] r[i].1)
}

/// The registry after `name` was made to exist: unchanged if it did, else
/// with an empty namespace of that name at the end.
pub open spec fn ensured(r: Seq<Space>, name: Seq<char>) -> Seq<Space> {
    if has_key(r, name) {
        r
    } else {
        r.push((name, Seq::<Entry>::empty()))
    }
}

/// The entries of namespace `name`; none where it does not exist.
pub open spec fn entries_in(r: Seq<Space>, name: Seq<char>) -> Seq<Entry> {
    match value_of(r, name) {
        Some(es) => es,
        None => Seq::<Entry>::empty(),
    }
}

/// The registry with the entries of namespace `name` replaced.
pub open spec fn with_entries(r: Seq<Space>, name: Seq<char>, es: Seq<Entry>) -> Seq<Space> {
    let e = ensured(r, name);
    e.update(crate::store::key_index(e, name), (name, es))
}

impl View for Registry {
    type V = Seq<Space>;

    closed spec fn view(&self) -> Seq<Space> {
        self.spaces@.map_values(|p: (String, KvStore)| (p.0@, p.1@))
    }
}

/// Under unique names, namespace `name` found at `i` makes `ensured` a no-op
/// and puts `name` at `i`.
proof fn lemma_found(r: Seq<Space>, name: Seq<char>, i: int)
    requires
        registry_wf(r),
        0 <= i < r.len(),
        r[i].0 == name,
    ensures
        ensured(r, name) == r,
        crate::store::key_index(r, name) == i,
        value_of(r, name) == Some(r[i].1),
{
    lemma_key_index_unique(r, name, i);
}

/// Replacing the entries of one namespace keeps the registry well formed,
/// gives that namespace the new entries and leaves every other one as it was.
pub proof fn lemma_with_entries(r: Seq<Space>, name: Seq<char>, es: Seq<Entry>)
    requires
        registry_wf(r),
        keys_unique(es),
    ensures
        registry_wf(with_entries(r, name, es)),
        value_of(with_entries(r, name, es), name) == Some(es),
        forall|n: Seq<char>|
            n != name ==> value_of(#[trigger] with_entries(r, name, es), n) == value_of(r, n),
        key_seq(with_entries(r, name, es)) == key_seq(ensured(r, name)),
{
    let e = ensured(r, name);
    let i = if has_key(r, name) {
        crate::store::key_index(r, name)
    } else {
        r.len() as int
    };
    assert(registry_wf(e)) by {
        if !has_key(r, name) {
            assert forall|a: int, b: int| 0 <= a < b < e.len() implies #[trigger] e[a].0
                != #[trigger] e[b].0 by {
                if b == r.len() {
                    assert(r[a].0 != name);
                }
            }
        }
    }
    assert(e[i].0 == name);
    lemma_key_index_unique(e, name, i);
    let w = with_entries(r, name, es);
    assert(w == e.update(i, (name, es)));
    assert(registry_wf(w)) by {
        assert forall|a: int, b: int| 0 <= a < b < w.len() implies #[trigger] w[a].0
            != #[trigger] w[b].0 by {
            assert(e[a].0 != e[b].0);
        }
    }
    lemma_key_index_unique(w, name, i);
    assert forall|n: Seq<char>| n != name implies value_of(#[trigger] with_entries(r, name, es), n)
        == value_of(r, n) by {
        if has_key(r, n) {
            let a = crate::store::key_index(r, n);
            assert(e[a] == r[a]);
            assert(w[a] == r[a]);
            lemma_key_index_unique(w, n, a);
        }
        if has_key(w, n) {
            let b = crate::store::key_index(w, n);
            assert(b != i);
            assert(w[b] == e[b]);
            assert(b < r.len());
            assert(e[b] == r[b]);
            lemma_key_index_unique(r, n, b);
        }
    }
    assert(key_seq(w) =~= key_seq(e));
}

/// Removing a namespace keeps the registry well formed.
proof fn lemma_remove_wf(r: Seq<Space>, i: int)
    requires
        registry_wf(r),
        0 <= i < r.len(),
    ensures
        registry_wf(r.remove(i)),
{
    let w = r.remove(i);
    assert forall|a: int, b: int| 0 <= a < b < w.len() implies #[trigger] w[a].0 != #[trigger] w[b].0 by {
        let a2 = if a < i { a } else { a + 1 };
        let b2 = if b < i { b } else { b + 1 };
        assert(r[a2].0 != r[b2].0);
    }
    assert forall|a: int| 0 <= a < w.len() implies keys_unique(#[trigger] w[a].1) by {
        let a2 = if a < i { a } else { a + 1 };
        assert(w[a] == r[a2]);
    }
}

impl Registry {
    /// Names and keys are unique.
    pub open spec fn wf(&self) -> bool {
        registry_wf(self@)
    }

    /// A registry without namespaces.
    pub fn new() -> (r: Registry)
        ensures
            r.wf(),
            r@ == Seq::<Space>::empty(),
    {
        let r = Registry { spaces: Vec::new() };
        assert(r@ =~= Seq::<Space>::empty());
        r
    }

    /// The namespaces, each with its name, in the registry's order.
    pub fn into_spaces(self) -> (r: Vec<(String, KvStore)>)
        ensures
            r@.map_values(|p: (String, KvStore)| (p.0@, p.1@)) == self@,
    {
        self.spaces
    }

    /// The position of namespace `name`, if it exists.
    pub fn find(&self, name: &String) -> (r: Option<usize>)
        requires
            self.wf(),
        ensures
            match r {
                Some(i) => i < self@.len() && self@[i as int].0 == name@,
                None => !has_key(self@, name@),
            },
    {
        let mut i: usize = 0;
        while i < self.spaces.len()
            invariant
                i <= self.spaces@.len(),
                self@.len() == self.spaces@.len(),
                forall|j: int| 0 <= j < i ==> #[trigger] self@[j].0 != name@,
            decreases self.spaces@.len() - i,
        {
            if self.spaces[i].0 == *name {
                return Some(i);
            }
            i = i + 1;
        }
        None
    }

    /// The namespace store at position `i`.
    pub fn store_at(&self, i: usize) -> (r: &KvStore)
        requires
            self.wf(),
            i < self@.len(),
        ensures
            r@ == self@[i as int].1,
            r.wf(),
    {
        &self.spaces[i].1
    }

    /// The store of namespace `name`, if it exists.
    pub fn get(&self, name: &String) -> (r: Option<&KvStore>)
        requires
            self.wf(),
        ensures
            match r {
                Some(s) => value_of(self@, name@) == Some(s@) && s.wf(),
                None => value_of(self@, name@) is None,
            },
    {
        match self.find(name) {
            Some(i) => {
                proof {
                    lemma_found(self@, name@, i as int);
                }
                Some(self.store_at(i))
            },
            None => None,
        }
    }

    /// Creates namespace `name`, empty, unless it exists; returns its
    /// position.
    pub fn ensure_namespace(&mut self, name: &String) -> (r: usize)
        requires
            old(self).wf(),
        ensures
            final(self).wf(),
            final(self)@ == ensured(old(self)@, name@),
            r < final(self)@.len(),
            final(self)@[r as int].0 == name@,
    {
        match self.find(name) {
            Some(i) => {
                proof {
                    lemma_found(self@, name@, i as int);
                }
                i
            },
            None => {
                self.spaces.push((name.clone(), KvStore::new()));
                proof {
                    assert(self@ =~= old(self)@.push((name@, Seq::<Entry>::empty())));
                    assert forall|a: int, b: int| 0 <= a < b < self@.len() implies #[trigger] self@[a].0
                        != #[trigger] self@[b].0 by {
                        if b == old(self)@.len() {
                            assert(old(self)@[a].0 != name@);
                        }
                    }
                }
                self.spaces.len() - 1
            },
        }
    }

    /// Replaces the store at position `i`, keeping its name.
    fn replace_at(&mut self, i: usize, store: KvStore)
        requires
            old(self).wf(),
            i < old(self)@.len(),
            store.wf(),
        ensures
            final(self).wf(),
            final(self)@ == old(self)@.update(i as int, (old(self)@[i as int].0, store@)),
    {
        let (name, _) = self.spaces.remove(i);
        self.spaces.insert(i, (name, store));
        proof {
            assert(self@ =~= old(self)@.update(i as int, (old(self)@[i as int].0, store@)));
            assert forall|a: int, b: int| 0 <= a < b < self@.len() implies #[trigger] self@[a].0
                != #[trigger] self@[b].0 by {
                assert(old(self)@[a].0 != old(self)@[b].0);
            }
        }
    }

    /// Takes the store of namespace `name` out, creating the namespace first
    /// if needed, and leaves an empty store in its place; the caller changes
    /// it and puts it back with `put_back`.
    pub fn take_store(&mut self, name: &String) -> (r: (usize, KvStore))
        requires
            old(self).wf(),
        ensures
            final(self).wf(),
            final(self)@ == ensured(old(self)@, name@).update(
                r.0 as int,
                (name@, Seq::<Entry>::empty()),
            ),
            r.0 < ensured(old(self)@, name@).len(),
            ensured(old(self)@, name@)[r.0 as int] == (name@, r.1@),
            crate::store::key_index(ensured(old(self)@, name@), name@) == r.0,
            r.1@ == entries_in(old(self)@, name@),
            r.1.wf(),
    {
        let i = self.ensure_namespace(name);
        proof {
            lemma_found(self@, name@, i as int);
            if has_key(old(self)@, name@) {
                let j = crate::store::key_index(old(self)@, name@);
                lemma_found(old(self)@, name@, j);
            }
        }
        let ghost mid = self@;
        let (nm, store) = self.spaces.remove(i);
        self.spaces.insert(i, (nm, KvStore::new()));
        proof {
            assert(self@ =~= mid.update(i as int, (name@, Seq::<Entry>::empty())));
            assert forall|a: int, b: int| 0 <= a < b < self@.len() implies #[trigger] self@[a].0
                != #[trigger] self@[b].0 by {
                assert(mid[a].0 != mid[b].0);
            }
        }
        (i, store)
    }

    /// Puts back a store taken with `take_store`.
    pub fn put_back(&mut self, i: usize, store: KvStore)
        requires
            old(self).wf(),
            i < old(self)@.len(),
            store.wf(),
        ensures
            final(self).wf(),
            final(self)@ == old(self)@.update(i as int, (old(self)@[i as int].0, store@)),
    {
        self.replace_at(i, store);
    }

    /// Sets namespace `name` to hold `store`, creating it if needed.
    pub fn set_namespace(&mut self, name: String, store: KvStore)
        requires
            old(self).wf(),
            store.wf(),
        ensures
            final(self).wf(),
            final(self)@ == with_entries(old(self)@, name@, store@),
    {
        let i = self.ensure_namespace(&name);
        proof {
            lemma_found(self@, name@, i as int);
            lemma_with_entries(old(self)@, name@, store@);
        }
        self.replace_at(i, store);
        proof {
            assert(self@ =~= with_entries(old(self)@, name@, store@));
        }
    }

    /// Removes namespace `name`, if it exists.
    pub fn delete_namespace(&mut self, name: &String)
        requires
            old(self).wf(),
        ensures
            final(self).wf(),
            final(self)@ == without(old(self)@, name@),
    {
        proof {
            lemma_without(old(self)@, name@);
        }
        match self.find(name) {
            Some(i) => {
                proof {
                    lemma_found(self@, name@, i as int);
                }
                let _ = self.spaces.remove(i);
                proof {
                    assert(self@ =~= old(self)@.remove(i as int));
                    lemma_remove_wf(old(self)@, i as int);
                }
            },
            None => {},
        }
    }

    /// The names of all namespaces.
    pub fn namespaces(&self) -> (r: Vec<String>)
        ensures
            strings_view(r@) == key_seq(self@),
    {
        let mut out: Vec<String> = Vec::new();
        let mut i: usize = 0;
        while i < self.spaces.len()
            invariant
                i <= self.spaces@.len(),
                self@.len() == self.spaces@.len(),
                out@.len() == i,
                forall|j: int| 0 <= j < i ==> #[trigger] out@[j]@ == self@[j].0,
            decreases self.spaces@.len() - i,
        {
            out.push(self.spaces[i].0.clone());
            i = i + 1;
        }
        assert(strings_view(out@) =~= key_seq(self@));
        out
    }

    /// Makes the registry agree with one read from disk: every namespace
    /// found there is overwritten or inserted, and every namespace that is
    /// not there is removed. Uncommitted changes to those namespaces are lost.
    pub fn reconcile(&mut self, disk: Registry)
        requires
            old(self).wf(),
            disk.wf(),
        ensures
            final(self).wf(),
            forall|n: Seq<char>| #[trigger] value_of(final(self)@, n) == value_of(disk@, n),
    {
        let ghost d = disk@;
        let ghost s0 = self@;
        let disk_names = disk.namespaces();
        let mut disk = disk;
        while disk.spaces.len() > 0
            invariant
                self.wf(),
                registry_wf(d),
                disk@ == d.take(disk@.len() as int),
                disk@.len() == disk.spaces@.len(),
                disk@.len() <= d.len(),
                forall|a: int|
                    disk@.len() <= a < d.len() ==> value_of(self@, #[trigger] d[a].0) == Some(
                        d[a].1,
                    ),
                forall|n: Seq<char>|
                    (forall|a: int| disk@.len() <= a < d.len() ==> #[trigger] d[a].0 != n)
                        ==> #[trigger] value_of(self@, n) == value_of(s0, n),
            decreases disk.spaces@.len(),
        {
            let ghost k = (disk@.len() - 1) as int;
            let ghost old_spaces = disk.spaces@;
            let ghost old_view = disk@;
            match disk.spaces.pop() {
                Some(space) => {
                    proof {
                        assert(old_spaces[k] == space);
                        assert(old_view[k] == (space.0@, space.1@));
                        assert(old_view[k] == d[k]);
                    }
                    let (name, store) = space;
                    proof {
                        assert(d[k] == (name@, store@));
                        assert(keys_unique(d[k].1));
                        lemma_with_entries(self@, name@, store@);
                        assert forall|a: int| k < a < d.len() implies d[a].0 != name@ by {
                            assert(d[k].0 != d[a].0);
                        }
                        assert(disk@ =~= d.take(k));
                    }
                    let ghost before = self@;
                    self.set_namespace(name, store);
                    proof {
                        assert forall|n: Seq<char>|
                            (forall|a: int| k <= a < d.len() ==> #[trigger] d[a].0 != n) implies #[trigger] value_of(
                            self@,
                            n,
                        ) == value_of(s0, n) by {
                            assert(d[k].0 != n);
                            assert(value_of(self@, n) == value_of(before, n));
                        }
                    }
                },
                None => {},
            }
        }
        let names = self.namespaces();
        let ghost s1 = self@;
        proof {
            assert forall|n: Seq<char>| !has_key(d, n) && #[trigger] has_key(self@, n) implies exists|b: int|
                0 <= b < names@.len() && names@[b]@ == n by {
                assert(has_key(s1, n));
                let a = crate::store::key_index(s1, n);
                assert(0 <= a < s1.len());
                assert(key_seq(s1)[a] == n);
                assert(strings_view(names@).len() == names@.len());
                assert(strings_view(names@)[a] == names@[a]@);
            }
        }
        let mut i: usize = 0;
        while i < names.len()
            invariant
                self.wf(),
                registry_wf(d),
                strings_view(disk_names@) == key_seq(d),
                strings_view(names@) == key_seq(s1),
                i <= names@.len(),
                forall|a: int|
                    0 <= a < d.len() ==> value_of(self@, #[trigger] d[a].0) == Some(d[a].1),
                forall|n: Seq<char>| #[trigger] has_key(self@, n) ==> has_key(s1, n),
                forall|n: Seq<char>|
                    !has_key(d, n) && #[trigger] has_key(self@, n) ==> exists|b: int|
                        i <= b < names@.len() && names@[b]@ == n,
            decreases names@.len() - i,
        {
            let ghost before = self@;
            if !contains_name(&disk_names, &names[i]) {
                proof {
                    lemma_without(self@, names@[i as int]@);
                }
                self.delete_namespace(&names[i]);
                proof {
                    assert forall|n: Seq<char>| #[trigger] has_key(self@, n) implies has_key(s1, n) by {
                        if n != names@[i as int]@ {
                            assert(value_of(self@, n) == value_of(before, n));
                        }
                    }
                    assert forall|a: int| 0 <= a < d.len() implies value_of(
                        self@,
                        #[trigger] d[a].0,
                    ) == Some(d[a].1) by {
                        assert(key_seq(d)[a] == d[a].0);
                        assert(d[a].0 != names@[i as int]@);
                    }
                }
            } else {
                proof {
                    let j = choose|j: int|
                        0 <= j < disk_names@.len() && strings_view(disk_names@)[j]
                            == names@[i as int]@;
                    assert(key_seq(d)[j] == d[j].0);
                    assert(has_key(d, names@[i as int]@));
                }
            }
            proof {
                assert forall|n: Seq<char>| !has_key(d, n) && #[trigger] has_key(self@, n) implies exists|b: int|
                    i + 1 <= b < names@.len() && names@[b]@ == n by {
                    assert(has_key(before, n)) by {
                        if !has_key(before, n) {
                            assert(value_of(self@, n) == value_of(before, n));
                        }
                    }
                    let b = choose|b: int| i <= b < names@.len() && names@[b]@ == n;
                    if b == i {
                        assert(!has_key(self@, n));
                    }
                }
            }
            i = i + 1;
        }
        proof {
            assert forall|n: Seq<char>| #[trigger] value_of(self@, n) == value_of(d, n) by {
                if has_key(d, n) {
                    let a = crate::store::key_index(d, n);
                    lemma_key_index_unique(d, n, a);
                } else if has_key(self@, n) {
                    let b = choose|b: int| i <= b < names@.len() && names@[b]@ == n;
                    assert(false);
                }
            }
        }
    }
}

/// Whether `name` is among `names`.
pub fn contains_name(names: &Vec<String>, name: &String) -> (r: bool)
    ensures
        r == strings_view(names@).contains(name@),
{
    let mut i: usize = 0;
    while i < names.len()
        invariant
            i <= names@.len(),
            forall|j: int| 0 <= j < i ==> #[trigger] names@[j]@ != name@,
        decreases names@.len() - i,
    {
        if names[i] == *name {
            assert(strings_view(names@)[i as int] == name@);
            return true;
        }
        i = i + 1;
    }
    proof {
        if strings_view(names@).contains(name@) {
            let j = choose|j: int| 0 <= j < names@.len() && strings_view(names@)[j] == name@;
            assert(names@[j]@ == name@);
        }
    }
    false
}

} // verus!

verus! {

/// The entries of any namespace have unique keys.
pub proof fn lemma_entries_in_unique(r: Seq<Space>, name: Seq<char>)
    requires
        registry_wf(r),
    ensures
        keys_unique(entries_in(r, name)),
{
    if has_key(r, name) {
        let i = crate::store::key_index(r, name);
        assert(keys_unique(r[i].1));
    }
}

/// Namespaces are isolated: storing `v1` under `k` in namespace `a` and
/// then `v2` under `k` in namespace `b` leaves `v1` in `a` and `v2` in `b`.
pub proof fn lemma_namespace_isolation(
    r: Seq<Space>,
    a: Seq<char>,
    b: Seq<char>,
    k: Seq<char>,
    v1: Seq<u8>,
    v2: Seq<u8>,
)
    requires
        registry_wf(r),
        a != b,
    ensures
        ({
            let r1 = with_entries(r, a, with_put(entries_in(r, a), k, v1));
            let r2 = with_entries(r1, b, with_put(entries_in(r1, b), k, v2));
            value_of(entries_in(r2, a), k) == Some(v1) && value_of(entries_in(r2, b), k) == Some(
                v2,
            )
        }),
{
    lemma_entries_in_unique(r, a);
    lemma_with_put(entries_in(r, a), k, v1);
    let r1 = with_entries(r, a, with_put(entries_in(r, a), k, v1));
    lemma_with_entries(r, a, with_put(entries_in(r, a), k, v1));
    lemma_entries_in_unique(r1, b);
    lemma_with_put(entries_in(r1, b), k, v2);
    let r2 = with_entries(r1, b, with_put(entries_in(r1, b), k, v2));
    lemma_with_entries(r1, b, with_put(entries_in(r1, b), k, v2));
    assert(value_of(r2, a) == value_of(r1, a));
}

/// After clearing a namespace it has no keys, and no key that it held
/// exists any more.
pub proof fn lemma_clear(r: Seq<Space>, name: Seq<char>, k: Seq<char>)
    requires
        registry_wf(r),
    ensures
        key_seq(entries_in(with_entries(r, name, Seq::<Entry>::empty()), name)) == Seq::<
            Seq<char>,
        >::empty(),
        !has_key(entries_in(with_entries(r, name, Seq::<Entry>::empty()), name), k),
{
    lemma_with_entries(r, name, Seq::<Entry>::empty());
    assert(key_seq(Seq::<Entry>::empty()) =~= Seq::<Seq<char>>::empty());
}

} // verus!
