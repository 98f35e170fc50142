use microkv::migrate::classify;
use microkv::{
    ErrorType, FromLessThan027, KvStore, Layout, LegacyLayout, MicroKV, Migrate, OnDisk, Registry,
    VersionedLayout, WatchAndReload, WatchEvent,
};

fn flat_store() -> KvStore {
    let mut s = KvStore::new();
    s.put("a".to_string(), microkv::secure::sec_new(vec![1, 2]));
    s.put("b".to_string(), microkv::secure::sec_new(vec![3]));
    s
}

fn registry_with(name: &str) -> Registry {
    let mut r = Registry::new();
    r.set_namespace(name.to_string(), flat_store());
    r
}

fn versioned(version: &str, registry: Registry) -> VersionedLayout {
    VersionedLayout {
        version: version.to_string(),
        path: "/old/path.kv".to_string(),
        registry,
        nonce: [5u8; 24],
        is_auto_commit: true,
    }
}

#[test]
fn legacy_file_lands_in_default_namespace() {
    let legacy = LegacyLayout {
        path: "/old/path.kv".to_string(),
        storage: flat_store(),
        nonce: [4u8; 24],
        is_auto_commit: true,
    };
    let mut kv = Migrate::new("/new/path.kv").migrate(Some(Layout::Legacy(legacy))).unwrap();
    assert_eq!(kv.version(), "0.3.0");
    assert_eq!(kv.path, "/new/path.kv");
    assert_eq!(kv.nonce, [4u8; 24]);
    assert!(kv.is_auto_commit);
    assert_eq!(kv.namespaces().unwrap(), vec!["".to_string()]);
    assert_eq!(kv.keys().unwrap(), vec!["a".to_string(), "b".to_string()]);
}

#[test]
fn legacy_step_targets_first_multi_layout_only() {
    let legacy = LegacyLayout {
        path: "p".to_string(),
        storage: flat_store(),
        nonce: [0u8; 24],
        is_auto_commit: false,
    };
    let m = FromLessThan027::new(legacy, "0.2.7").migrate().unwrap();
    assert_eq!(m.version, "0.2.7");
    assert_eq!(m.registry.namespaces(), vec!["".to_string()]);
    let legacy = LegacyLayout {
        path: "p".to_string(),
        storage: flat_store(),
        nonce: [0u8; 24],
        is_auto_commit: false,
    };
    let err = FromLessThan027::new(legacy, "9.9.9").migrate().unwrap_err();
    assert_eq!(
        err.error,
        ErrorType::MigrateError("UNKNOWN".to_string(), "9.9.9".to_string())
    );
}

#[test]
fn current_file_opens_unchanged_twice() {
    let first = Migrate::new("/p.kv")
        .migrate(Some(classify(versioned("0.3.0", registry_with("ns")))))
        .unwrap();
    let MicroKV { version, path, registry, nonce, is_auto_commit, .. } = first;
    let snapshot = VersionedLayout { version, path, registry, nonce, is_auto_commit };
    let mut second = Migrate::new("/p.kv").migrate(Some(classify(snapshot))).unwrap();
    assert_eq!(second.nonce, [5u8; 24]);
    assert!(second.is_auto_commit);
    assert_eq!(second.namespaces().unwrap(), vec!["ns".to_string()]);
    let ns = second.namespace("ns");
    assert_eq!(ns.keys(&mut second).unwrap(), vec!["a".to_string(), "b".to_string()]);
}

#[test]
fn older_multi_layout_is_upgraded() {
    let layout = classify(versioned("0.2.7", registry_with("x")));
    assert!(matches!(layout, Layout::Multi(_)));
    let kv = Migrate::new("/p.kv").migrate(Some(layout)).unwrap();
    assert_eq!(kv.version(), "0.3.0");
    assert_eq!(kv.namespaces().unwrap(), vec!["x".to_string()]);
}

#[test]
fn unknown_tag_is_migrate_error() {
    let layout = classify(versioned("0.1.0", Registry::new()));
    let err = Migrate::new("/p.kv").migrate(Some(layout)).unwrap_err();
    assert_eq!(
        err.error,
        ErrorType::MigrateError("0.1.0".to_string(), "0.3.0".to_string())
    );
}

#[test]
fn unreadable_file_is_migrate_error() {
    let err = Migrate::new("/p.kv").migrate(None).unwrap_err();
    assert_eq!(
        err.error,
        ErrorType::MigrateError("UNKNOWN".to_string(), "0.3.0".to_string())
    );
    let err = MicroKV::open_with_base_path("s", "/tmp/b", OnDisk::Present(None)).unwrap_err();
    assert_eq!(
        err.error,
        ErrorType::MigrateError("UNKNOWN".to_string(), "0.3.0".to_string())
    );
}

#[test]
fn absent_file_opens_fresh_store() {
    let mut kv = MicroKV::open_with_base_path("s", "/tmp/b", OnDisk::Absent).unwrap();
    assert_eq!(kv.path, "/tmp/b/s.kv");
    assert!(kv.keys().unwrap().is_empty());
    let kv = MicroKV::open_with_base_path(
        "s",
        "/tmp/b",
        OnDisk::Present(Some(classify(versioned("0.3.0", registry_with(""))))),
    )
    .unwrap();
    assert_eq!(kv.path, "/tmp/b/s.kv");
}

#[test]
fn reload_replaces_namespaces_with_disk() {
    let mut kv = MicroKV::new_with_base_path("s", "/tmp/b");
    kv.put("local", &serde_json::Value::from(1)).unwrap();
    let ns = kv.namespace("gone");
    ns.put(&mut kv, "k", &serde_json::Value::from(2)).unwrap();
    assert!(!WatchAndReload::on_event(&mut kv, WatchEvent::Written(None)));
    assert!(!WatchAndReload::on_event(&mut kv, WatchEvent::Other));
    let mut names = kv.namespaces().unwrap();
    names.sort();
    assert_eq!(names, vec!["".to_string(), "gone".to_string()]);
    assert!(WatchAndReload::on_event(&mut kv, WatchEvent::Written(Some(registry_with("")))));
    assert_eq!(kv.namespaces().unwrap(), vec!["".to_string()]);
    assert_eq!(kv.keys().unwrap(), vec!["a".to_string(), "b".to_string()]);
}
