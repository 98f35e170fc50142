//! The migration engine: the known on-disk layouts, oldest first, and the
//! chain of pure transforms that upgrades any of them to the current one.
use vstd::prelude::*;
use crate::error::{ErrorType, KVError};
use crate::kv::{MicroKV, CURRENT_VERSION};
use crate::registry::{ensured, Registry, Space};
use crate::store::{has_key, lemma_key_index_unique, value_of, Entry, KvStore};

verus! {

/// The version tag of the first multi-namespace layout.
pub const MULTI_VERSION: &'static str = "0.2.7";

/// What the detector names a file that no known layout reads.
pub const UNKNOWN_VERSION: &'static str = "UNKNOWN";

/// The legacy flat layout: one namespace and no version tag.
#[derive(Debug)]
pub struct LegacyLayout {
    pub path: String,
    pub storage: KvStore,
    pub nonce: [u8; 24],
    pub is_auto_commit: bool,
}

/// A multi-namespace layout with its version tag, as read from disk.
#[derive(Debug)]
pub struct VersionedLayout {
    pub version: String,
    pub path: String,
    pub registry: Registry,
    pub nonce: [u8; 24],
    pub is_auto_commit: bool,
}

/// A snapshot in one of the known layouts.
#[derive(Debug)]
pub enum Layout {
    Legacy(LegacyLayout),
    Multi(VersionedLayout),
    Current(VersionedLayout),
}

/// The logical content of a store: its namespaces, its nonce and its
/// auto-commit flag.
pub type Content = (Seq<Space>, Seq<u8>, bool);

/// The namespaces and keys of a layout are unique.
pub open spec fn layout_wf(l: Layout) -> bool {
    match l {
        Layout::Legacy(x) => x.storage.wf(),
        Layout::Multi(x) => x.registry.wf(),
        Layout::Current(x) => x.registry.wf(),
    }
}

/// How many steps a layout is from the current one.
pub open spec fn distance(l: Layout) -> nat {
    match l {
        Layout::Legacy(_) => 2,
        Layout::Multi(_) => 1,
        Layout::Current(_) => 0,
    }
}

/// The content of a layout once upgraded to the current one, or `None`
/// where no transform applies (a multi-namespace file with an unknown tag).
pub open spec fn migrated(l: Layout) -> Option<Content> {
    match l {
        Layout::Legacy(x) => Some(
            (seq![(Seq::<char>::empty(), x.storage@)], x.nonce@, x.is_auto_commit),
        ),
        Layout::Multi(x) => if x.version@ == MULTI_VERSION@ {
            Some((x.registry@, x.nonce@, x.is_auto_commit))
        } else {
            None
        },
        Layout::Current(x) => Some((x.registry@, x.nonce@, x.is_auto_commit)),
    }
}

/// The tag of a layout.
pub open spec fn tag_of(l: Layout) -> Seq<char> {
    match l {
        Layout::Legacy(_) => UNKNOWN_VERSION@,
        Layout::Multi(x) => x.version@,
        Layout::Current(x) => x.version@,
    }
}

/// A migration error from layout `from` to layout `to`.
pub open spec fn is_migrate_error(e: ErrorType, from: Seq<char>, to: Seq<char>) -> bool {
    e matches ErrorType::MigrateError(f, t) && f@ == from && t@ == to
}

/// What opening a file whose bytes read as `found` gives: a store of the
/// current layout at `path`, without password, with the migrated content;
/// or the migration error.
pub open spec fn migrate_result(found: Option<Layout>, path: Seq<char>, r: Result<MicroKV, KVError>) -> bool {
    match found {
        None => r matches Err(e) && is_migrate_error(e.error, UNKNOWN_VERSION@, CURRENT_VERSION@),
        Some(l) => match migrated(l) {
            Some(c) => r matches Ok(kv) && kv.wf() && kv.spaces() == c.0 && kv.nonce@ == c.1
                && kv.is_auto_commit == c.2 && kv.version@ == CURRENT_VERSION@ && kv.path@ == path
                && kv.pwd is None,
            None => r matches Err(e) && is_migrate_error(e.error, tag_of(l), CURRENT_VERSION@),
        },
    }
}

/// What the backing file held when a store was opened.
pub enum OnDisk {
    /// No file.
    Absent,
    /// A file, with the snapshot read from it, or `None` where no known
    /// layout reads its bytes.
    Present(Option<Layout>),
}

/// Classifies a versioned snapshot by its tag: the current layout, or an
/// older one.
pub fn classify(rec: VersionedLayout) -> (r: Layout)
    ensures
        rec.version@ == CURRENT_VERSION@ ==> r == Layout::Current(rec),
        rec.version@ != CURRENT_VERSION@ ==> r == Layout::Multi(rec),
{
    let current = CURRENT_VERSION.to_owned();
    if rec.version == current {
        Layout::Current(rec)
    } else {
        Layout::Multi(rec)
    }
}

/// The step from the legacy flat layout to the first multi-namespace one.
pub struct FromLessThan027 {
    kv: LegacyLayout,
    target: String,
}

impl FromLessThan027 {
    /// A step that takes `kv` to the layout tagged `target`.
    pub fn new(kv: LegacyLayout, target: &str) -> (r: FromLessThan027)
        ensures
            r.legacy() == kv,
            r.target()@ == target@,
    {
        FromLessThan027 { kv, target: target.to_owned() }
    }

    /// The snapshot to upgrade.
    pub closed spec fn legacy(&self) -> LegacyLayout {
        self.kv
    }

    /// The tag aimed at.
    pub closed spec fn target(&self) -> String {
        self.target
    }

    /// Wraps the flat mapping as the default namespace (named by the empty
    /// string) of a new registry, keeping path, nonce and auto-commit flag.
    /// Only the first multi-namespace layout is a target.
    pub fn migrate(self) -> (r: Result<VersionedLayout, KVError>)
        requires
            self.legacy().storage.wf(),
        ensures
            self.target()@ == MULTI_VERSION@ ==> (r matches Ok(m) && m.version@ == MULTI_VERSION@
                && m.registry.wf() && m.registry@ == seq![
                (Seq::<char>::empty(), self.legacy().storage@),
            ] && m.path == self.legacy().path && m.nonce == self.legacy().nonce
                && m.is_auto_commit == self.legacy().is_auto_commit),
            self.target()@ != MULTI_VERSION@ ==> (r matches Err(e) && is_migrate_error(
                e.error,
                UNKNOWN_VERSION@,
                self.target()@,
            )),
    {
        let multi = MULTI_VERSION.to_owned();
        if self.target != multi {
            let from = UNKNOWN_VERSION.to_owned();
            return Err(KVError::of(ErrorType::MigrateError(from, self.target)));
        }
        let kv = self.kv;
        let mut registry = Registry::new();
        let name = "".to_owned();
        proof {
            reveal_strlit("");
        }
        let ghost st = kv.storage@;
        assert(registry@ == Seq::<Space>::empty());
        assert(name@ == Seq::<char>::empty());
        registry.set_namespace(name, kv.storage);
        proof {
            assert(registry@ == crate::registry::with_entries(Seq::<Space>::empty(), Seq::<char>::empty(), st));
            let e = ensured(Seq::<Space>::empty(), Seq::<char>::empty());
            assert(e =~= seq![(Seq::<char>::empty(), Seq::<Entry>::empty())]);
            lemma_key_index_unique(e, Seq::<char>::empty(), 0);
            assert(registry@ =~= seq![(Seq::<char>::empty(), st)]);
        }
        Ok(VersionedLayout {
            version: multi,
            path: kv.path,
            registry,
            nonce: kv.nonce,
            is_auto_commit: kv.is_auto_commit,
        })
    }
}

/// Opens the snapshot of one backing file.
pub struct Migrate {
    path: String,
}

impl Migrate {
    /// A migration of the file at `path`.
    pub fn new(path: &str) -> (r: Migrate)
        ensures
            r.path()@ == path@,
    {
        Migrate { path: path.to_owned() }
    }

    /// The backing file.
    pub closed spec fn path(&self) -> String {
        self.path
    }

    /// Upgrades the snapshot that was read, one step at a time, to a store
    /// of the current layout, without password, at this migration's path.
    /// `None` stands for bytes that no known layout reads.
    pub fn migrate(&self, found: Option<Layout>) -> (r: Result<MicroKV, KVError>)
        requires
            found matches Some(l) ==> layout_wf(l),
        ensures
            migrate_result(found, self.path()@, r),
    {
        let mut layout = match found {
            Some(l) => l,
            None => {
                let from = UNKNOWN_VERSION.to_owned();
                let to = CURRENT_VERSION.to_owned();
                return Err(KVError::of(ErrorType::MigrateError(from, to)));
            },
        };
        assert(found == Some(layout));
        let ghost first = layout;
        loop
            invariant
                found == Some(first),
                layout_wf(layout),
                migrated(layout) == migrated(first) || migrated(first) is None,
                migrated(first) is None ==> tag_of(layout) == tag_of(first) && layout == first,
            decreases distance(layout),
        {
            let ghost cur = layout;
            match layout {
                Layout::Current(x) => {
                    assert(cur == Layout::Current(x));
                    assert(migrated(cur) is Some);
                    assert(migrated(first) is Some);
                    let kv = MicroKV::create(self.path.clone(), None, x.nonce, x.is_auto_commit, x.registry);
                    return Ok(kv);
                },
                Layout::Multi(x) => {
                    assert(cur == Layout::Multi(x));
                    let multi = MULTI_VERSION.to_owned();
                    if x.version != multi {
                        let to = CURRENT_VERSION.to_owned();
                        assert(migrated(cur) is None);
                        assert(migrated(first) is None);
                        assert(tag_of(first) == x.version@);
                        return Err(KVError::of(ErrorType::MigrateError(x.version, to)));
                    }
                    let current = CURRENT_VERSION.to_owned();
                    layout = Layout::Current(VersionedLayout {
                        version: current,
                        path: x.path,
                        registry: x.registry,
                        nonce: x.nonce,
                        is_auto_commit: x.is_auto_commit,
                    });
                },
                Layout::Legacy(x) => {
                    let step = FromLessThan027::new(x, MULTI_VERSION);
                    match step.migrate() {
                        Ok(m) => {
                            layout = Layout::Multi(m);
                        },
                        Err(e) => {
                            return Err(e);
                        },
                    }
                },
            }
        }
    }
}

} // verus!

verus! {

/// The snapshot that persisting a store writes.
pub open spec fn snapshot_of(kv: MicroKV) -> VersionedLayout {
    VersionedLayout {
        version: kv.version,
        path: kv.path,
        registry: kv.registry,
        nonce: kv.nonce,
        is_auto_commit: kv.is_auto_commit,
    }
}

/// Opening a file of the current layout, persisting the store and opening
/// the file again gives the same logical content both times.
pub proof fn lemma_migration_idempotent(x: VersionedLayout, path: Seq<char>, kv: MicroKV)
    requires
        migrate_result(Some(Layout::Current(x)), path, Ok(kv)),
    ensures
        migrated(Layout::Current(x)) == Some((x.registry@, x.nonce@, x.is_auto_commit)),
        snapshot_of(kv).version@ == CURRENT_VERSION@,
        migrated(Layout::Current(snapshot_of(kv))) == migrated(Layout::Current(x)),
{
}

/// Opening a legacy flat file puts all its entries in the default namespace
/// (named by the empty string), and in no other.
pub proof fn lemma_legacy_to_default_namespace(x: LegacyLayout, path: Seq<char>, kv: MicroKV)
    requires
        migrate_result(Some(Layout::Legacy(x)), path, Ok(kv)),
    ensures
        value_of(kv.spaces(), Seq::<char>::empty()) == Some(x.storage@),
        forall|n: Seq<char>| n != Seq::<char>::empty() ==> !has_key(kv.spaces(), n),
{
    let s = kv.spaces();
    assert(s == seq![(Seq::<char>::empty(), x.storage@)]);
    lemma_key_index_unique(s, Seq::<char>::empty(), 0);
}

} // verus!
