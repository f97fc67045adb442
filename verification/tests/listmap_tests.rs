use audiosync::listmap::ListMap;
use audiosync::load::index_from_json;
use audiosync::plan::scan_map;

#[test]
fn keys_are_stored_once_and_lookups_see_the_latest_value() {
    let mut map: ListMap<u64> = ListMap::new();
    map.insert("b".to_string(), 2);
    map.insert("a".to_string(), 1);
    map.insert("b".to_string(), 20);
    assert_eq!(map.len(), 2);
    assert_eq!(map.get("a"), Some(&1));
    assert_eq!(map.get("b"), Some(&20));
    assert_eq!(map.get("c"), None);
    assert!(map.contains("a"));
    assert!(!map.contains("c"));
}

#[test]
fn rows_come_out_in_key_order() {
    let mut map: ListMap<u64> = ListMap::new();
    map.insert("cherry".to_string(), 3);
    map.insert("apple".to_string(), 1);
    map.insert("banana".to_string(), 2);
    let keys: Vec<String> = (0..map.len()).map(|i| map.key_at(i).clone()).collect();
    assert_eq!(keys, vec!["apple", "banana", "cherry"]);
    assert_eq!(*map.val_at(0), 1);
    assert_eq!(*map.val_at(2), 3);
}

#[test]
fn removal_takes_out_exactly_the_named_key() {
    let mut map: ListMap<u64> = ListMap::new();
    map.insert("a".to_string(), 1);
    map.insert("b".to_string(), 2);
    map.remove("a");
    assert_eq!(map.len(), 1);
    assert!(!map.contains("a"));
    assert!(map.contains("b"));
    map.remove("never there");
    assert_eq!(map.len(), 1);
}

#[test]
fn a_scan_keeps_the_later_sighting_of_a_path() {
    let scan = scan_map(vec![
        ("x.flac".to_string(), 1),
        ("y.flac".to_string(), 2),
        ("x.flac".to_string(), 9),
    ]);
    assert_eq!(scan.len(), 2);
    assert_eq!(scan.get("x.flac"), Some(&9));
}

#[test]
fn a_numeric_field_wider_than_its_type_fails_the_load() {
    // The writer can never produce a year beyond u32, so such text is not
    // the canonical form and the load degrades to the empty index.
    let text = "{\"version\":1,\"tracks\":{\
        \"a.flac\":{\"mtime\":5,\"size\":1,\"duration\":2,\"year\":5000000000}}}";
    assert_eq!(index_from_json(text).len(), 0);
}
