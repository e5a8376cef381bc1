use pixelshift::cache::CacheStore;

fn put(store: &mut CacheStore, fp: u64, payload: &[u8]) -> bool {
    store.put(fp, payload.to_vec(), "image/gif".to_string(), 0)
}

#[test]
fn lookup_after_put_returns_identical_payload() {
    let mut store = CacheStore::new(4, 1_000);
    assert!(put(&mut store, 7, b"converted bytes"));
    let (payload, content_type) = store.lookup(7).expect("stored entry must be found");
    assert_eq!(payload, b"converted bytes".to_vec());
    assert_eq!(content_type, "image/gif");
    assert_eq!(store.lookup(8), None);
}

#[test]
fn item_cap_evicts_least_recently_used() {
    let mut store = CacheStore::new(2, 1_000);
    assert!(put(&mut store, 1, b"aa"));
    assert!(put(&mut store, 2, b"bb"));
    assert!(put(&mut store, 3, b"cc"));
    assert_eq!(store.lookup(1), None);
    assert!(store.lookup(2).is_some());
    assert!(store.lookup(3).is_some());
    assert_eq!(store.stats(), (2, 4));
}

#[test]
fn byte_cap_evicts_least_recently_used() {
    let mut store = CacheStore::new(10, 10);
    assert!(put(&mut store, 1, b"123456"));
    assert!(put(&mut store, 2, b"7890"));
    assert_eq!(store.stats(), (2, 10));
    assert!(put(&mut store, 3, b"abc"));
    assert_eq!(store.lookup(1), None);
    assert!(store.lookup(2).is_some());
    assert!(store.lookup(3).is_some());
    assert_eq!(store.stats(), (2, 7));
}

#[test]
fn caps_hold_after_any_sequence_of_puts() {
    let mut store = CacheStore::new(3, 50);
    for fp in 0..20u64 {
        put(&mut store, fp % 5, vec![0u8; (fp as usize * 7) % 30].as_slice());
        let (items, bytes) = store.stats();
        assert!(items <= 3);
        assert!(bytes <= 50);
    }
}

#[test]
fn touch_protects_entry_from_eviction() {
    let mut store = CacheStore::new(2, 1_000);
    assert!(put(&mut store, 1, b"aa"));
    assert!(put(&mut store, 2, b"bb"));
    store.touch(1);
    assert!(put(&mut store, 3, b"cc"));
    assert!(store.lookup(1).is_some());
    assert_eq!(store.lookup(2), None);
    assert!(store.lookup(3).is_some());
}

#[test]
fn put_replaces_entry_under_same_fingerprint() {
    let mut store = CacheStore::new(4, 1_000);
    assert!(put(&mut store, 1, b"first"));
    assert!(put(&mut store, 1, b"second"));
    let (payload, _) = store.lookup(1).unwrap();
    assert_eq!(payload, b"second".to_vec());
    assert_eq!(store.stats(), (1, 6));
}

#[test]
fn oversized_payload_is_not_stored() {
    let mut store = CacheStore::new(4, 10);
    assert!(put(&mut store, 1, b"small"));
    assert!(!put(&mut store, 2, b"payload beyond the cap"));
    assert!(store.lookup(1).is_some());
    assert_eq!(store.lookup(2), None);
    assert_eq!(store.stats(), (1, 5));
}

#[test]
fn zero_item_cap_stores_nothing() {
    let mut store = CacheStore::new(0, 1_000);
    assert!(!put(&mut store, 1, b"x"));
    assert_eq!(store.stats(), (0, 0));
}
