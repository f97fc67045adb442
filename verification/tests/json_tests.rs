use audiosync::json::{index_json, u64_string};
use audiosync::listmap::ListMap;
use audiosync::load::index_from_json;
use audiosync::IndexEntry;

fn entry(mtime: u64) -> IndexEntry {
    IndexEntry {
        mtime,
        size: 10,
        duration: 0,
        bitrate: None,
        album: None,
        artist: None,
        title: None,
        album_artist: None,
        genre: None,
        year: None,
        track_number: None,
        track_number_total: None,
        disk_number: None,
        disk_number_total: None,
    }
}

#[test]
fn numbers_print_in_decimal() {
    assert_eq!(u64_string(0), "0");
    assert_eq!(u64_string(7), "7");
    assert_eq!(u64_string(1234567890), "1234567890");
    assert_eq!(u64_string(u64::MAX), "18446744073709551615");
}

#[test]
fn an_empty_index_serializes_to_the_bare_envelope() {
    let index: ListMap<IndexEntry> = ListMap::new();
    assert_eq!(index_json(&index), "{\"version\":1,\"tracks\":{}}");
}

#[test]
fn absent_fields_are_omitted_never_null() {
    let mut index: ListMap<IndexEntry> = ListMap::new();
    index.insert("A/song.flac".to_string(), entry(5));
    let text = index_json(&index);
    assert_eq!(
        text,
        "{\"version\":1,\"tracks\":{\"A/song.flac\":{\"mtime\":5,\"size\":10,\"duration\":0}}}"
    );
    assert!(!text.contains("null"));
}

#[test]
fn present_fields_appear_in_a_fixed_order() {
    let mut index: ListMap<IndexEntry> = ListMap::new();
    let full = IndexEntry {
        mtime: 1,
        size: 2,
        duration: 3,
        bitrate: Some(4),
        album: Some("Al".to_string()),
        artist: Some("Ar".to_string()),
        title: Some("Ti".to_string()),
        album_artist: Some("AA".to_string()),
        genre: Some("G".to_string()),
        year: Some(2001),
        track_number: Some(5),
        track_number_total: Some(6),
        disk_number: Some(7),
        disk_number_total: Some(8),
    };
    index.insert("k.flac".to_string(), full);
    assert_eq!(
        index_json(&index),
        "{\"version\":1,\"tracks\":{\"k.flac\":{\"mtime\":1,\"size\":2,\"duration\":3,\
         \"bitrate\":4,\"album\":\"Al\",\"artist\":\"Ar\",\"title\":\"Ti\",\
         \"albumArtist\":\"AA\",\"genre\":\"G\",\"year\":2001,\"trackNumber\":5,\
         \"trackNumberTotal\":6,\"diskNumber\":7,\"diskNumberTotal\":8}}}"
    );
}

#[test]
fn text_fields_are_escaped() {
    let mut index: ListMap<IndexEntry> = ListMap::new();
    let mut e = entry(1);
    e.title = Some("say \"hi\" \\ twice\n".to_string());
    index.insert("k.flac".to_string(), e);
    let text = index_json(&index);
    assert!(text.contains("\"title\":\"say \\\"hi\\\" \\\\ twice\\u000a\""));
}

#[test]
fn keys_serialize_sorted_whatever_the_insertion_order() {
    let mut one: ListMap<IndexEntry> = ListMap::new();
    one.insert("b.flac".to_string(), entry(2));
    one.insert("a.flac".to_string(), entry(1));
    let mut two: ListMap<IndexEntry> = ListMap::new();
    two.insert("a.flac".to_string(), entry(1));
    two.insert("b.flac".to_string(), entry(2));
    assert_eq!(index_json(&one), index_json(&two));
    let text = index_json(&one);
    assert!(text.find("a.flac").unwrap() < text.find("b.flac").unwrap());
}

#[test]
fn loading_what_was_written_gives_the_same_bytes_back() {
    let mut index: ListMap<IndexEntry> = ListMap::new();
    let mut e = entry(42);
    e.artist = Some("Someone".to_string());
    e.year = Some(1990);
    index.insert("A/x.flac".to_string(), e);
    index.insert("B/y.opus".to_string(), entry(7));
    let written = index_json(&index);
    let reloaded = index_from_json(written.as_str());
    assert_eq!(index_json(&reloaded), written);
}

#[test]
fn the_widest_number_survives_the_round_trip() {
    let mut index: ListMap<IndexEntry> = ListMap::new();
    index.insert("a.flac".to_string(), entry(u64::MAX));
    let written = index_json(&index);
    let reloaded = index_from_json(written.as_str());
    assert_eq!(reloaded.get("a.flac").map(|e| e.mtime), Some(u64::MAX));
    // One digit past the width of the field fails the load instead of
    // wrapping.
    let too_wide = "{\"version\":1,\"tracks\":{\
        \"a.flac\":{\"mtime\":18446744073709551616,\"size\":1,\"duration\":2}}}";
    assert_eq!(index_from_json(too_wide).len(), 0);
}

#[test]
fn malformed_index_text_degrades_to_empty() {
    assert_eq!(index_from_json("").len(), 0);
    assert_eq!(index_from_json("not json at all").len(), 0);
    assert_eq!(index_from_json("{\"version\":1}").len(), 0);
    assert_eq!(index_from_json("{\"version\":1,\"tracks\":7}").len(), 0);
    assert_eq!(index_from_json("[1,2,3]").len(), 0);
}

#[test]
fn a_repeated_key_keeps_the_later_entry() {
    let text = "{\"version\":1,\"tracks\":{\
        \"a.flac\":{\"mtime\":5,\"size\":1,\"duration\":2},\
        \"a.flac\":{\"mtime\":9,\"size\":1,\"duration\":2}}}";
    let index = index_from_json(text);
    assert_eq!(index.len(), 1);
    assert_eq!(index.get("a.flac").map(|e| e.mtime), Some(9));
}

#[test]
fn an_entry_outside_the_canonical_shape_fails_the_load() {
    // The loader reads exactly what the writer emits; an entry missing its
    // required fields is a load failure, and a load failure degrades to
    // the empty index, so the run reindexes from scratch.
    let text = "{\"version\":1,\"tracks\":{\
        \"a.flac\":{\"mtime\":5,\"size\":1,\"duration\":2},\
        \"b.flac\":{\"size\":1}}}";
    assert_eq!(index_from_json(text).len(), 0);
    let text2 = "{\"version\":1,\"tracks\":{\"c.flac\":{\"mtime\":\"soon\"}}}";
    assert_eq!(index_from_json(text2).len(), 0);
}

#[test]
fn a_canonical_text_loads_exactly_its_entries() {
    let text = "{\"version\":1,\"tracks\":{\
        \"a.flac\":{\"mtime\":5,\"size\":1,\"duration\":2},\
        \"b.flac\":{\"mtime\":8,\"size\":3,\"duration\":4,\"year\":1999}}}";
    let index = index_from_json(text);
    assert_eq!(index.len(), 2);
    assert_eq!(index.get("a.flac").map(|e| e.mtime), Some(5));
    assert_eq!(index.get("b.flac").map(|e| e.mtime), Some(8));
    assert_eq!(index.get("b.flac").and_then(|e| e.year), Some(1999));
}

#[test]
fn escaped_keys_and_fields_load_back_exactly() {
    let mut index: ListMap<IndexEntry> = ListMap::new();
    let mut e = entry(3);
    e.title = Some("a \"b\" \\ c\u{1}".to_string());
    index.insert("dir \"x\"/song.flac".to_string(), e);
    let written = index_json(&index);
    let reloaded = index_from_json(written.as_str());
    assert_eq!(reloaded.len(), 1);
    assert!(reloaded.contains("dir \"x\"/song.flac"));
    assert_eq!(
        reloaded.get("dir \"x\"/song.flac").and_then(|t| t.title.clone()),
        Some("a \"b\" \\ c\u{1}".to_string())
    );
}
