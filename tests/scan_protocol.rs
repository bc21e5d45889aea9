use key_snapshot::scan::{enumerate, KeyScan, MemStore, ScanAction, DEFAULT_BATCH_SIZE};
use std::collections::BTreeSet;

fn strings(items: &[&str]) -> Vec<String> {
    items.iter().map(|s| s.to_string()).collect()
}

#[test]
fn scan_starts_at_cursor_zero() {
    let s = KeyScan::new(7);
    assert!(matches!(s.next_action(), ScanAction::Fetch { cursor: 0, count: 7 }));
}

#[test]
fn scan_follows_cursors_and_ends_at_zero() {
    let mut s = KeyScan::new(2);
    s.on_batch(17, strings(&["a", "b"]));
    assert!(matches!(s.next_action(), ScanAction::Fetch { cursor: 17, count: 2 }));
    s.on_batch(0, strings(&["c"]));
    assert!(matches!(s.next_action(), ScanAction::Done));
    assert_eq!(s.into_keys(), strings(&["a", "b", "c"]));
}

#[test]
fn scan_passes_duplicates_through() {
    let mut s = KeyScan::new(DEFAULT_BATCH_SIZE);
    s.on_batch(5, strings(&["a", "b"]));
    s.on_batch(0, strings(&["b"]));
    assert_eq!(s.into_keys(), strings(&["a", "b", "b"]));
}

#[test]
fn mem_store_scan_pages() {
    let store = MemStore::new(strings(&["a", "b", "c", "d", "e"]));
    assert_eq!(store.scan(0, 2), (2, strings(&["a", "b"])));
    assert_eq!(store.scan(2, 2), (4, strings(&["c", "d"])));
    assert_eq!(store.scan(4, 2), (0, strings(&["e"])));
    assert_eq!(store.scan(9, 2), (0, Vec::new()));
}

#[test]
fn enumerate_returns_every_key_for_each_batch_size() {
    let keys = strings(&["a", "b", "c", "d", "e"]);
    let store = MemStore::new(keys.clone());
    for batch in [1usize, 2, 3, 5, 6, 1000] {
        assert_eq!(enumerate(&store, batch), keys);
    }
}

#[test]
fn enumerate_empty_store() {
    let store = MemStore::new(Vec::new());
    assert!(enumerate(&store, 1).is_empty());
}

#[test]
fn enumerate_twice_gives_same_key_set() {
    let store = MemStore::new(strings(&["x", "y", "z"]));
    let first: BTreeSet<String> = enumerate(&store, 1).into_iter().collect();
    let second: BTreeSet<String> = enumerate(&store, 2).into_iter().collect();
    assert_eq!(first, second);
}

#[test]
fn overlapping_batches_cover_exactly_the_store() {
    let mut s = KeyScan::new(2);
    s.on_batch(3, strings(&["a", "b"]));
    s.on_batch(6, strings(&["b", "c"]));
    s.on_batch(0, strings(&["a"]));
    let got: BTreeSet<String> = s.into_keys().into_iter().collect();
    let want: BTreeSet<String> = strings(&["a", "b", "c"]).into_iter().collect();
    assert_eq!(got, want);
}
