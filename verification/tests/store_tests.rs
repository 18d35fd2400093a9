use fleet_attention::store::KeyedStore;

#[test]
fn store_insert_get_remove() {
    let mut s: KeyedStore<u32> = KeyedStore::new();
    assert!(s.is_empty());
    assert_eq!(s.insert("a".to_string(), 1), None);
    assert_eq!(s.insert("b".to_string(), 2), None);
    assert_eq!(s.len(), 2);
    assert_eq!(s.get("a"), Some(&1));
    assert_eq!(s.insert("a".to_string(), 7), Some(1));
    assert_eq!(s.len(), 2);
    assert_eq!(s.get("a"), Some(&7));
    assert_eq!(s.index_of("b"), Some(1));
    assert_eq!(s.key_at(0), "a");
    assert_eq!(s.remove("a"), Some(7));
    assert_eq!(s.remove("a"), None);
    assert_eq!(s.get("a"), None);
    assert!(!s.contains_key("a"));
    assert!(s.contains_key("b"));
    assert_eq!(*s.value_at(0), 2);
}

#[test]
fn store_update_in_place() {
    let mut s: KeyedStore<u32> = KeyedStore::new();
    s.insert("x".to_string(), 10);
    *s.value_at_mut(0) += 5;
    assert_eq!(s.get("x"), Some(&15));
    assert_eq!(s.key_at(0), "x");
}
