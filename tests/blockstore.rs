use std::cmp::Ordering;

use worker_storage::blockstore::{
    Blockfile, BlockfileError, BlockfileKey, BlockfileKeyType, HashMapBlockfile,
};

fn key(prefix: &str, key: &str) -> BlockfileKey<String> {
    BlockfileKey::new(prefix.to_string(), key.to_string())
}

fn fresh() -> HashMapBlockfile<String, String> {
    HashMapBlockfile::open("test").unwrap()
}

#[test]
fn test_blockstore() {
    let mut blockfile: HashMapBlockfile<String, String> = HashMapBlockfile::open("test").unwrap();
    let key = BlockfileKey {
        prefix: "text_prefix".to_string(),
        key: "key1".to_string(),
    };
    let _res = blockfile.set(key.clone(), "value1".to_string()).unwrap();
    let value = blockfile.get(key);
    assert_eq!(value.unwrap(), "value1");
}

#[test]
fn scenario_set_get_overwrite() {
    let mut store = fresh();
    store.set(key("docs", "a"), "v1".to_string()).unwrap();
    assert_eq!(store.get(key("docs", "a")).unwrap(), "v1");
    assert_eq!(store.get(key("docs", "b")), Err(BlockfileError::KeyNotFound));
    store.set(key("docs", "a"), "v2".to_string()).unwrap();
    assert_eq!(store.get(key("docs", "a")).unwrap(), "v2");
}

#[test]
fn missing_key_on_fresh_store() {
    let store = fresh();
    assert_eq!(store.get(key("docs", "a")), Err(BlockfileError::KeyNotFound));
}

#[test]
fn missing_key_after_other_sets() {
    let mut store = fresh();
    store.set(key("docs", "a"), "v1".to_string()).unwrap();
    store.set(key("images", "b"), "v2".to_string()).unwrap();
    assert_eq!(store.get(key("docs", "b")), Err(BlockfileError::KeyNotFound));
    assert_eq!(store.get(key("images", "a")), Err(BlockfileError::KeyNotFound));
}

#[test]
fn same_key_under_other_prefix_is_distinct() {
    let mut store = fresh();
    store.set(key("p1", "k"), "one".to_string()).unwrap();
    store.set(key("p2", "k"), "two".to_string()).unwrap();
    assert_eq!(store.get(key("p1", "k")).unwrap(), "one");
    assert_eq!(store.get(key("p2", "k")).unwrap(), "two");
}

#[test]
fn overwrite_keeps_other_keys() {
    let mut store = fresh();
    store.set(key("docs", "a"), "a1".to_string()).unwrap();
    store.set(key("docs", "b"), "b1".to_string()).unwrap();
    store.set(key("docs", "a"), "a2".to_string()).unwrap();
    assert_eq!(store.get(key("docs", "a")).unwrap(), "a2");
    assert_eq!(store.get(key("docs", "b")).unwrap(), "b1");
}

#[test]
fn empty_prefix_and_key() {
    let mut store = fresh();
    store.set(key("", ""), "empty".to_string()).unwrap();
    assert_eq!(store.get(key("", "")).unwrap(), "empty");
    assert_eq!(store.get(key("", "x")), Err(BlockfileError::KeyNotFound));
}

#[test]
fn integer_keys() {
    let mut store: HashMapBlockfile<u32, String> = HashMapBlockfile::open("ints").unwrap();
    store.set(BlockfileKey::new("ids".to_string(), 7u32), "seven".to_string()).unwrap();
    store.set(BlockfileKey::new("ids".to_string(), u32::MAX), "max".to_string()).unwrap();
    assert_eq!(store.get(BlockfileKey::new("ids".to_string(), 7u32)).unwrap(), "seven");
    assert_eq!(store.get(BlockfileKey::new("ids".to_string(), u32::MAX)).unwrap(), "max");
    assert_eq!(
        store.get(BlockfileKey::new("ids".to_string(), 8u32)),
        Err(BlockfileError::KeyNotFound)
    );
}

#[test]
fn key_equality_needs_prefix_and_key() {
    assert!(key("p", "k") == key("p", "k"));
    assert!(key("p", "k") != key("q", "k"));
    assert!(key("p", "k") != key("p", "l"));
    assert!(key("p", "k") != key("q", "l"));
}

#[test]
fn key_order_prefix_first() {
    assert_eq!(key("a", "z").partial_cmp(&key("b", "a")), Some(Ordering::Less));
    assert_eq!(key("b", "a").partial_cmp(&key("a", "z")), Some(Ordering::Greater));
    assert_eq!(key("a", "b").partial_cmp(&key("a", "c")), Some(Ordering::Less));
    assert_eq!(key("a", "b").partial_cmp(&key("a", "b")), Some(Ordering::Equal));
    assert_eq!(key("ab", "a").partial_cmp(&key("a", "z")), Some(Ordering::Greater));
    assert_eq!(key("", "z").partial_cmp(&key("a", "a")), Some(Ordering::Less));
    assert!(key("docs", "a") < key("docs", "b"));
}

#[test]
fn key_type_comparisons() {
    assert_eq!("abc".to_string().key_compare(&"abd".to_string()), Some(Ordering::Less));
    assert_eq!("é".to_string().key_compare(&"z".to_string()), Some(Ordering::Greater));
    assert_eq!(5u64.key_compare(&3u64), Some(Ordering::Greater));
    assert!(3u32.key_eq(&3u32));
    assert!(!"a".to_string().key_eq(&"b".to_string()));
}
