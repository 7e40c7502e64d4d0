use kv_engine::iterable::scan_impl;
use kv_engine::memtable::MemTable;
use kv_engine::{Cursor, IterOption, Iterable, MemEngine, Mutable};

#[test]
fn memtable_keeps_pairs_in_order() {
    let mut table = MemTable::new();
    assert_eq!(table.len(), 0);
    assert_eq!(table.get(b"k"), None);
    table.put(b"m", b"1");
    table.put(b"c", b"2");
    table.put(b"x", b"3");
    table.put(b"m", b"4");
    assert_eq!(table.len(), 3);
    assert_eq!(table.key_at(0), b"c");
    assert_eq!(table.key_at(1), b"m");
    assert_eq!(table.value_at(1), b"4");
    assert_eq!(table.key_at(2), b"x");
    assert_eq!(table.get(b"m"), Some(b"4".to_vec()));
    assert_eq!(table.get(b"n"), None);
    assert_eq!(table.lower_bound(b""), 0);
    assert_eq!(table.lower_bound(b"c"), 0);
    assert_eq!(table.lower_bound(b"d"), 1);
    assert_eq!(table.lower_bound(b"m"), 1);
    assert_eq!(table.lower_bound(b"x"), 2);
    assert_eq!(table.lower_bound(b"y"), 3);
    let part = table.copy_below(Some(b"x"));
    assert_eq!(part.len(), 2);
    assert_eq!(part.key_at(1), b"m");
    assert_eq!(table.copy_below(None).len(), 3);
    assert_eq!(table.copy_below(Some(b"c")).len(), 0);
    table.delete(b"m");
    table.delete(b"nothing");
    assert_eq!(table.len(), 2);
    assert_eq!(table.get(b"m"), None);
    assert_eq!(table.key_at(1), b"x");
}

fn letters() -> MemEngine {
    let mut engine = MemEngine::new();
    for key in [&b"b"[..], b"d", b"a", b"c"] {
        engine.put(key, key).unwrap();
    }
    engine
}

#[test]
fn cursor_starts_off_any_pair_and_walks_in_order() {
    let engine = letters();
    let mut it = engine.new_iterator(IterOption::default());
    assert!(!it.valid());
    assert_eq!(it.kv(), None);
    assert!(it.seek(b"b"));
    assert!(it.valid());
    assert_eq!(it.key(), b"b");
    assert_eq!(it.value(), b"b");
    assert_eq!(it.kv(), Some((b"b".to_vec(), b"b".to_vec())));
    assert!(it.next());
    assert_eq!(it.key(), b"c");
    assert!(it.next());
    assert_eq!(it.key(), b"d");
    assert!(!it.next());
    assert!(!it.valid());
    assert_eq!(it.kv(), None);
    assert!(it.seek(b""));
    assert_eq!(it.key(), b"a");
    assert!(!it.seek(b"e"));
    assert!(!it.valid());
}

#[test]
fn cursor_honours_the_upper_bound() {
    let engine = letters();
    let mut it = engine.new_iterator(IterOption::new(Some(b"c".to_vec()), true));
    assert!(it.seek(b"a"));
    assert!(it.next());
    assert_eq!(it.key(), b"b");
    assert!(!it.next());
    assert!(!it.seek(b"c"));
    let mut it = engine.new_iterator_cf("default", IterOption::default().set_upper_bound(b"a".to_vec())).unwrap();
    assert!(!it.seek(b""));
}

#[test]
fn cursor_does_not_see_later_writes() {
    let mut engine = letters();
    let mut it = engine.new_iterator(IterOption::default());
    engine.put(b"bb", b"late").unwrap();
    engine.delete(b"c").unwrap();
    assert!(it.seek(b"b"));
    assert!(it.next());
    assert_eq!(it.key(), b"c");
}

#[test]
fn scan_impl_walks_a_cursor_from_the_start_key() {
    let engine = letters();
    let mut seen: Vec<Vec<u8>> = vec![];
    let it = engine.new_iterator(IterOption::default());
    scan_impl(it, b"bb", &mut |key: &[u8], _: &[u8]| {
        seen.push(key.to_vec());
        Ok(true)
    })
    .unwrap();
    assert_eq!(seen, vec![b"c".to_vec(), b"d".to_vec()]);
    seen.clear();
    let it = engine.new_iterator(IterOption::default());
    scan_impl(it, b"z", &mut |key: &[u8], _: &[u8]| {
        seen.push(key.to_vec());
        Ok(true)
    })
    .unwrap();
    assert!(seen.is_empty());
}
