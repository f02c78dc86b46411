use icore::long_term::LongTermMemory;
use icore::short_term::ShortTermMemory;

#[test]
fn volatile_set_then_get_returns_value() {
    let mut store = ShortTermMemory::new();
    store.set("mood".to_string(), "curious".to_string());
    assert_eq!(store.get("mood"), Some("curious".to_string()));
}

#[test]
fn volatile_last_write_wins() {
    let mut store = ShortTermMemory::new();
    store.set("k".to_string(), "first".to_string());
    store.set("k".to_string(), "second".to_string());
    assert_eq!(store.get("k"), Some("second".to_string()));
}

#[test]
fn volatile_get_missing_is_none() {
    let store = ShortTermMemory::new();
    assert_eq!(store.get("absent"), None);
}

#[test]
fn volatile_delete_removes_only_that_key() {
    let mut store = ShortTermMemory::new();
    store.set("a".to_string(), "1".to_string());
    store.set("b".to_string(), "2".to_string());
    store.delete("a");
    assert_eq!(store.get("a"), None);
    assert_eq!(store.get("b"), Some("2".to_string()));
}

#[test]
fn volatile_clear_empties_the_store() {
    let mut store = ShortTermMemory::new();
    store.set("a".to_string(), "1".to_string());
    store.set("b".to_string(), "2".to_string());
    store.clear();
    assert!(store.all().is_empty());
    assert_eq!(store.get("a"), None);
}

#[test]
fn volatile_all_returns_every_pair() {
    let mut store = ShortTermMemory::new();
    store.set("a".to_string(), "1".to_string());
    store.set("b".to_string(), "2".to_string());
    let mut pairs = store.all();
    pairs.sort();
    assert_eq!(
        pairs,
        vec![("a".to_string(), "1".to_string()), ("b".to_string(), "2".to_string())]
    );
}

#[test]
fn durable_set_twice_keeps_created_at_and_returns_second_value() {
    let mut store = LongTermMemory::new();
    store.set("k", "v1", 100);
    store.set("k", "v2", 200);
    assert_eq!(store.get("k"), Some("v2".to_string()));
    assert_eq!(store.created_at("k"), Some(100));
}

#[test]
fn durable_fresh_key_is_stamped_with_now() {
    let mut store = LongTermMemory::new();
    store.set("k", "v", 42);
    assert_eq!(store.created_at("k"), Some(42));
    assert_eq!(store.get("k"), Some("v".to_string()));
}

#[test]
fn durable_delete_removes_row() {
    let mut store = LongTermMemory::new();
    store.set("k", "v", 1);
    store.delete("k");
    assert_eq!(store.get("k"), None);
    assert_eq!(store.created_at("k"), None);
}

#[test]
fn durable_all_lists_key_value_pairs() {
    let mut store = LongTermMemory::new();
    store.set("a", "1", 10);
    store.set("b", "2", 20);
    let mut pairs = store.all();
    pairs.sort();
    assert_eq!(
        pairs,
        vec![("a".to_string(), "1".to_string()), ("b".to_string(), "2".to_string())]
    );
}
