use microkv::helpers::get_db_path_with_base_path;
use microkv::{ErrorType, MicroKV};

fn store() -> MicroKV {
    MicroKV::new_with_base_path("test", "/tmp/microkv-test")
}

#[test]
fn db_path_under_base() {
    assert_eq!(get_db_path_with_base_path("s1", "/tmp/base"), "/tmp/base/s1.kv");
    let kv = MicroKV::new_with_base_path("s1", "/tmp/base");
    assert_eq!(kv.path, "/tmp/base/s1.kv");
    assert_eq!(kv.version(), "0.3.0");
}

#[test]
fn namespace_isolation() {
    let mut kv = store();
    let a = kv.namespace("A");
    let b = kv.namespace("B");
    a.put(&mut kv, "k", &serde_json::Value::from(1)).unwrap();
    b.put(&mut kv, "k", &serde_json::Value::from(2)).unwrap();
    assert_eq!(a.get(&mut kv, "k").unwrap(), Some(serde_json::Value::from(1)));
    assert_eq!(b.get(&mut kv, "k").unwrap(), Some(serde_json::Value::from(2)));
    assert_eq!(kv.get("k").unwrap(), None);
}

#[test]
fn put_replaces_and_moves_key_last() {
    let mut kv = store().with_pwd_clear("pw");
    kv.put("k", &serde_json::Value::from("v1")).unwrap();
    kv.put("other", &serde_json::Value::from(0)).unwrap();
    kv.put("k", &serde_json::Value::from("v2")).unwrap();
    assert_eq!(kv.get("k").unwrap(), Some(serde_json::Value::from("v2")));
    assert_eq!(kv.keys().unwrap(), vec!["other".to_string(), "k".to_string()]);
}

#[test]
fn delete_absent_key_succeeds() {
    let mut kv = store();
    assert!(kv.delete("missing").is_ok());
    assert!(!kv.key_exists("missing").unwrap());
    kv.put("k", &serde_json::Value::from(true)).unwrap();
    assert!(kv.key_exists("k").unwrap());
    kv.delete("k").unwrap();
    assert!(!kv.key_exists("k").unwrap());
    assert!(kv.delete("k").is_ok());
}

#[test]
fn clear_empties_namespace_only() {
    let mut kv = store();
    let other = kv.namespace("other");
    kv.put("a", &serde_json::Value::from(1)).unwrap();
    kv.put("b", &serde_json::Value::from(2)).unwrap();
    other.put(&mut kv, "a", &serde_json::Value::from(3)).unwrap();
    kv.clear().unwrap();
    assert!(kv.keys().unwrap().is_empty());
    assert!(!kv.key_exists("a").unwrap());
    assert!(!kv.key_exists("b").unwrap());
    assert_eq!(other.keys(&mut kv).unwrap(), vec!["a".to_string()]);
}

#[test]
fn keys_in_insertion_order_and_sorted() {
    let mut kv = store();
    for k in ["pear", "apple", "Zebra", "banana", "äpfel", ""] {
        kv.put(k, &serde_json::Value::from(k)).unwrap();
    }
    assert_eq!(
        kv.keys().unwrap(),
        vec!["pear", "apple", "Zebra", "banana", "äpfel", ""]
    );
    assert_eq!(
        kv.sorted_keys().unwrap(),
        vec!["", "Zebra", "apple", "banana", "pear", "äpfel"]
    );
    assert_eq!(
        kv.keys().unwrap(),
        vec!["pear", "apple", "Zebra", "banana", "äpfel", ""]
    );
}

#[test]
fn text_round_trip_through_store() {
    let mut kv = store().with_pwd_hash([3u8; 32]);
    let text = String::from("{\"n\":7}");
    kv.put_text("t", &text).unwrap();
    assert_eq!(kv.get_text("t").unwrap(), Some(text));
    assert_eq!(kv.get_text("none").unwrap(), None);
}

#[test]
fn namespaces_are_created_on_use() {
    let mut kv = store();
    assert!(kv.namespaces().unwrap().is_empty());
    let ns = kv.namespace("x");
    assert!(!ns.key_exists(&mut kv, "k").unwrap());
    assert_eq!(kv.namespaces().unwrap(), vec!["x".to_string()]);
    kv.put("k", &serde_json::Value::from(1)).unwrap();
    let mut names = kv.namespaces().unwrap();
    names.sort();
    assert_eq!(names, vec!["".to_string(), "x".to_string()]);
    kv.delete_namespace("x").unwrap();
    assert_eq!(kv.namespaces().unwrap(), vec!["".to_string()]);
}

#[test]
fn auto_commit_flag() {
    let kv = store();
    assert!(!kv.is_auto_commit);
    let kv = kv.set_auto_commit(true);
    assert!(kv.is_auto_commit);
}

#[test]
fn password_scenario() {
    let mut kv = MicroKV::new_with_base_path("s1", "/tmp/microkv-test").with_pwd_clear("hunter2");
    kv.put("a", &serde_json::Value::from(42)).unwrap();
    let MicroKV { path, registry, nonce, is_auto_commit, .. } = kv;

    let mut reopened =
        MicroKV::create(path.clone(), None, nonce, is_auto_commit, registry).with_pwd_clear("hunter2");
    let value = reopened.get("a").unwrap().unwrap();
    let n: i64 = serde_json::from_value(value).unwrap();
    assert_eq!(n, 42);

    let MicroKV { registry, .. } = reopened;
    let mut wrong = MicroKV::create(path, None, nonce, is_auto_commit, registry).with_pwd_clear("hunter3");
    let err = wrong.get("a").unwrap_err();
    assert_eq!(err.error, ErrorType::CryptoError);
}

#[test]
fn destruct_wipes_everything() {
    let mut kv = store().with_pwd_clear("pw");
    kv.put("a", &serde_json::Value::from(1)).unwrap();
    let ns = kv.namespace("n");
    ns.put(&mut kv, "b", &serde_json::Value::from(2)).unwrap();
    kv.destruct();
    assert!(kv.namespaces().unwrap().is_empty());
    assert!(kv.pwd.is_none());
    assert_eq!(kv.path, "/tmp/microkv-test/test.kv");
}

#[test]
fn store_level_codec_methods() {
    let kv = store().with_pwd_hash([1u8; 32]);
    let value = serde_json::Value::from("x");
    let blob = kv.encode_value(&value).unwrap();
    assert_eq!(kv.decode_value(&blob).unwrap(), value);
    let other = store().with_pwd_hash([2u8; 32]);
    assert_eq!(other.decode_value(&blob).unwrap_err().error, ErrorType::CryptoError);
}
