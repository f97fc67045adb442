use audiosync::json::index_json;
use audiosync::listmap::{ListMap, Row};
use audiosync::load::index_from_json;
use audiosync::plan::{apply_run, identify_changes, scan_map};
use audiosync::{artifact_stale, index_stale, IndexEntry, TagFields};

fn bare_entry(mtime: u64, size: u64) -> IndexEntry {
    IndexEntry {
        mtime,
        size,
        duration: 0,
        bitrate: None,
        album: None,
        artist: None,
        title: None,
        album_artist: None,
        genre: None,
        year: None,
        track_number: None,
        track_number_total: None,
        disk_number: None,
        disk_number_total: None,
    }
}

#[test]
fn index_staleness_follows_the_stored_time() {
    assert!(index_stale(None, 5));
    assert!(index_stale(Some(4), 5));
    assert!(!index_stale(Some(5), 5));
}

#[test]
fn artifact_staleness_is_strictly_greater() {
    assert!(artifact_stale(5, None));
    assert!(artifact_stale(6, Some(5)));
    assert!(!artifact_stale(5, Some(5)));
    assert!(!artifact_stale(5, Some(6)));
}

#[test]
fn new_files_are_processed_and_gone_files_removed() {
    let mut index: ListMap<IndexEntry> = ListMap::new();
    index.insert("A/old.flac".to_string(), bare_entry(10, 1));
    index.insert("B/kept.flac".to_string(), bare_entry(20, 2));
    let current = scan_map(vec![
        ("B/kept.flac".to_string(), 20),
        ("C/new.flac".to_string(), 30),
    ]);
    let (to_process, to_remove) = identify_changes(&index, &current);
    assert_eq!(to_process, vec!["C/new.flac".to_string()]);
    assert_eq!(to_remove, vec!["A/old.flac".to_string()]);
}

#[test]
fn a_changed_mtime_reprocesses_exactly_that_file() {
    let mut index: ListMap<IndexEntry> = ListMap::new();
    index.insert("A/x.flac".to_string(), bare_entry(10, 1));
    index.insert("B/y.flac".to_string(), bare_entry(20, 2));
    let current = scan_map(vec![
        ("A/x.flac".to_string(), 11),
        ("B/y.flac".to_string(), 20),
    ]);
    let (to_process, to_remove) = identify_changes(&index, &current);
    assert_eq!(to_process, vec!["A/x.flac".to_string()]);
    assert!(to_remove.is_empty());
}

#[test]
fn a_converged_index_plans_no_work() {
    let mut index: ListMap<IndexEntry> = ListMap::new();
    index.insert("A/x.flac".to_string(), bare_entry(10, 1));
    index.insert("B/y.flac".to_string(), bare_entry(20, 2));
    let current = scan_map(vec![
        ("A/x.flac".to_string(), 10),
        ("B/y.flac".to_string(), 20),
    ]);
    let (to_process, to_remove) = identify_changes(&index, &current);
    assert!(to_process.is_empty());
    assert!(to_remove.is_empty());
}

#[test]
fn a_completed_run_converges_on_the_scan() {
    let mut index: ListMap<IndexEntry> = ListMap::new();
    index.insert("A/old.flac".to_string(), bare_entry(10, 1));
    index.insert("B/kept.flac".to_string(), bare_entry(20, 2));
    let current = scan_map(vec![
        ("B/kept.flac".to_string(), 20),
        ("C/new.flac".to_string(), 30),
    ]);
    let (to_process, to_remove) = identify_changes(&index, &current);
    let additions: Vec<Row<IndexEntry>> = to_process
        .into_iter()
        .map(|path| Row { key: path, val: bare_entry(30, 3) })
        .collect();
    apply_run(&mut index, &to_remove, additions);
    assert_eq!(index.len(), 2);
    assert!(index.contains("B/kept.flac"));
    assert!(index.contains("C/new.flac"));
    assert!(!index.contains("A/old.flac"));
}

#[test]
fn scenario_index_lifecycle_of_one_source_file() {
    // First run over `A/song.flac` at one modification time.
    let t0: u64 = 1_700_000_000;
    let scan1 = scan_map(vec![("A/song.flac".to_string(), t0)]);
    let mut index: ListMap<IndexEntry> = ListMap::new();
    let (to_process, to_remove) = identify_changes(&index, &scan1);
    assert_eq!(to_process, vec!["A/song.flac".to_string()]);
    assert!(to_remove.is_empty());
    let additions = vec![Row { key: "A/song.flac".to_string(), val: bare_entry(t0, 9) }];
    apply_run(&mut index, &to_remove, additions);
    assert_eq!(index.len(), 1);
    assert_eq!(index.get("A/song.flac").map(|e| e.mtime), Some(t0));
    let first = index_json(&index);

    // Second run with no change: nothing to do, byte-identical index.
    let mut reloaded = index_from_json(first.as_str());
    let (to_process, to_remove) = identify_changes(&reloaded, &scan1);
    assert!(to_process.is_empty());
    assert!(to_remove.is_empty());
    apply_run(&mut reloaded, &to_remove, Vec::new());
    let second = index_json(&reloaded);
    assert_eq!(first, second);

    // Delete the file and rerun: zero entries remain.
    let scan2 = scan_map(Vec::new());
    let (to_process, to_remove) = identify_changes(&reloaded, &scan2);
    assert!(to_process.is_empty());
    assert_eq!(to_remove, vec!["A/song.flac".to_string()]);
    apply_run(&mut reloaded, &to_remove, Vec::new());
    assert_eq!(reloaded.len(), 0);
}

#[test]
fn entries_are_built_from_stat_facts_and_tag_fields() {
    let fields = TagFields {
        title: Some("Song".to_string()),
        artist: Some("Band".to_string()),
        album: None,
        album_artist: None,
        genre: Some("rock".to_string()),
        year: Some(1999),
        track_number: Some(3),
        track_number_total: Some(12),
        disk_number: None,
        disk_number_total: None,
        compilation: None,
        duration: 245,
        bitrate: Some(320),
    };
    let entry = IndexEntry::from_tags(77, 1234, fields);
    assert_eq!(entry.mtime, 77);
    assert_eq!(entry.size, 1234);
    assert_eq!(entry.duration, 245);
    assert_eq!(entry.bitrate, Some(320));
    assert_eq!(entry.title, Some("Song".to_string()));
    assert_eq!(entry.artist, Some("Band".to_string()));
    assert_eq!(entry.album, None);
    assert_eq!(entry.genre, Some("rock".to_string()));
    assert_eq!(entry.year, Some(1999));
    assert_eq!(entry.track_number, Some(3));
    assert_eq!(entry.track_number_total, Some(12));
}
