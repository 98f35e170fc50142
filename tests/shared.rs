use microkv::shared::SharedMicroKV;
use microkv::{ErrorType, MicroKV, Registry};

fn shared(pwd: &str) -> SharedMicroKV {
    SharedMicroKV::from_store(MicroKV::new_with_base_path("shared", "/tmp/b").with_pwd_clear(pwd))
}

#[test]
fn shared_put_get_across_namespaces() {
    let kv = shared("pw");
    let a = "A".to_string();
    let b = "B".to_string();
    kv.put(&a, "k", &serde_json::Value::from(1)).unwrap();
    kv.put(&b, "k", &serde_json::Value::from(2)).unwrap();
    assert_eq!(kv.get(&a, "k").unwrap(), Some(serde_json::Value::from(1)));
    assert_eq!(kv.get(&b, "k").unwrap(), Some(serde_json::Value::from(2)));
    let mut names = kv.namespaces().unwrap();
    names.sort();
    assert_eq!(names, vec!["A".to_string(), "B".to_string()]);
}

#[test]
fn shared_keys_delete_clear() {
    let kv = shared("pw");
    let ns = String::new();
    kv.put_text(&ns, "b", &"1".to_string()).unwrap();
    kv.put_text(&ns, "a", &"2".to_string()).unwrap();
    kv.put_text(&ns, "b", &"3".to_string()).unwrap();
    assert_eq!(kv.keys(&ns).unwrap(), vec!["a".to_string(), "b".to_string()]);
    assert_eq!(kv.get_text(&ns, "b").unwrap(), Some("3".to_string()));
    kv.delete(&ns, "a").unwrap();
    kv.delete(&ns, "a").unwrap();
    assert!(!kv.key_exists(&ns, "a").unwrap());
    kv.put_text(&ns, "c", &"4".to_string()).unwrap();
    assert_eq!(kv.sorted_keys(&ns).unwrap(), vec!["b".to_string(), "c".to_string()]);
    kv.clear(&ns).unwrap();
    assert!(kv.keys(&ns).unwrap().is_empty());
}

#[test]
fn shared_snapshot_and_reload() {
    let kv = shared("pw");
    let ns = "n".to_string();
    kv.put(&ns, "x", &serde_json::Value::from("v")).unwrap();
    let snap = kv.snapshot();
    assert_eq!(snap.version, "0.3.0");
    assert_eq!(snap.registry.namespaces(), vec!["n".to_string()]);
    kv.delete_namespace(&ns).unwrap();
    assert!(kv.namespaces().unwrap().is_empty());
    kv.reload(snap.registry);
    assert_eq!(kv.get(&ns, "x").unwrap(), Some(serde_json::Value::from("v")));
    kv.reload(Registry::new());
    assert!(kv.namespaces().unwrap().is_empty());
}

#[test]
fn shared_wrong_password() {
    let kv = shared("right");
    let ns = String::new();
    kv.put(&ns, "a", &serde_json::Value::from(42)).unwrap();
    let snap = kv.snapshot();
    let other = SharedMicroKV::from_store(
        MicroKV::create(snap.path, None, snap.nonce, false, snap.registry).with_pwd_clear("wrong"),
    );
    assert_eq!(other.get(&ns, "a").unwrap_err().error, ErrorType::CryptoError);
}
