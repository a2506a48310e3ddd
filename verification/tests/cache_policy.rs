//! A bounded map whose entries expire.

use deps_core::cache_policy::ExpiringMap;

fn key(name: &str) -> Vec<String> {
    vec![name.to_string()]
}

#[test]
fn entries_are_fresh_for_their_lifetime() {
    let mut map = ExpiringMap::new();
    map.insert(key("a"), 1, 10, 100, 2);
    assert_eq!(map.get_fresh(&key("a"), 109), Some(&1));
    assert_eq!(map.get_fresh(&key("a"), 110), None);
    // A clock that went back takes no entry for expired.
    assert_eq!(map.get_fresh(&key("a"), 50), Some(&1));
    assert_eq!(map.fetched_at(&key("a")), Some(100));
    assert_eq!(map.ttl_of(&key("a")), Some(10));
    assert_eq!(map.ttl_of(&key("b")), None);
    assert!(map.contains_key(&key("a")));
}

#[test]
fn expired_entries_leave_before_live_ones() {
    let mut map = ExpiringMap::new();
    map.insert(key("old"), 1, 1000, 0, 2);
    map.insert(key("expired"), 2, 1, 50, 2);
    map.insert(key("new"), 3, 1000, 100, 2);
    assert_eq!(map.len(), 2);
    assert!(map.contains_key(&key("old")));
    assert!(map.contains_key(&key("new")));
    assert!(!map.contains_key(&key("expired")));
}

#[test]
fn oldest_entry_leaves_when_none_expired() {
    let mut map = ExpiringMap::new();
    map.insert(key("a"), 1, 1000, 5, 2);
    map.insert(key("b"), 2, 1000, 0, 2);
    map.insert(key("c"), 3, 1000, 10, 2);
    assert!(!map.contains_key(&key("b")));
    assert_eq!(map.get_fresh(&key("a"), 10), Some(&1));
    assert_eq!(map.get_fresh(&key("c"), 10), Some(&3));
}

#[test]
fn replacing_an_entry_evicts_nothing() {
    let mut map = ExpiringMap::new();
    map.insert(key("a"), 1, 1000, 0, 2);
    map.insert(key("b"), 2, 1000, 1, 2);
    map.insert(key("a"), 3, 1000, 2, 2);
    assert_eq!(map.len(), 2);
    assert_eq!(map.get_fresh(&key("a"), 2), Some(&3));
    assert_eq!(map.get_fresh(&key("b"), 2), Some(&2));
}

#[test]
fn keys_are_compared_part_by_part() {
    let mut map = ExpiringMap::new();
    map.insert(vec!["a".to_string(), "b".to_string()], 1, 1000, 0, 9);
    assert!(!map.contains_key(&key("ab")));
    assert!(!map.contains_key(&vec!["ab".to_string(), String::new()]));
    map.remove(&vec!["a".to_string(), "b".to_string()]);
    assert_eq!(map.len(), 0);
}
