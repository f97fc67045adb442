use audiosync::paths::{
    ancestor_dirs, cover_sibling, extension_of, prune_subject, recognized_source,
    replace_extension, str_eq_ci, transcodable,
};

#[test]
fn replace_extension_swaps_the_final_extension() {
    assert_eq!(replace_extension("A/song.flac", "opus"), "A/song.opus");
    assert_eq!(replace_extension("A/song.flac", "m4a"), "A/song.m4a");
    assert_eq!(replace_extension("deep/er/tree/x.y.wav", "mp3"), "deep/er/tree/x.y.mp3");
}

#[test]
fn replace_extension_appends_when_there_is_none() {
    assert_eq!(replace_extension("dir/file", "opus"), "dir/file.opus");
    assert_eq!(replace_extension("dir.with.dots/file", "opus"), "dir.with.dots/file.opus");
}

#[test]
fn extension_of_reads_the_final_component_only() {
    assert_eq!(extension_of("A/song.flac"), Some("flac".to_string()));
    assert_eq!(extension_of("dir.with.dots/file"), None);
    assert_eq!(extension_of("plain"), None);
    assert_eq!(extension_of("x.y.z"), Some("z".to_string()));
}

#[test]
fn cover_sibling_lives_in_the_same_directory() {
    assert_eq!(cover_sibling("A/song.flac"), "A/cover.jpg");
    assert_eq!(cover_sibling("song.flac"), "cover.jpg");
    assert_eq!(cover_sibling("a/b/c.opus"), "a/b/cover.jpg");
}

#[test]
fn ancestor_dirs_lists_every_prefix_directory() {
    assert_eq!(ancestor_dirs("a/b/c.opus"), vec!["a".to_string(), "a/b".to_string()]);
    assert_eq!(ancestor_dirs("top.flac"), Vec::<String>::new());
}

#[test]
fn recognized_source_matches_case_insensitively() {
    assert!(recognized_source("x/y.flac"));
    assert!(recognized_source("x/y.FLAC"));
    assert!(recognized_source("x/y.Mp3"));
    assert!(recognized_source("x/y.ape"));
    assert!(recognized_source("x/y.wv"));
    assert!(!recognized_source("x/y.txt"));
    assert!(!recognized_source("x/noext"));
}

#[test]
fn transcodable_takes_flac_and_opus() {
    assert!(transcodable("a.flac"));
    assert!(transcodable("a.opus"));
    assert!(!transcodable("a.mp3"));
    assert!(!transcodable("a"));
}

#[test]
fn prune_subject_takes_transcoded_formats() {
    assert!(prune_subject("a.mp3"));
    assert!(prune_subject("a.opus"));
    assert!(prune_subject("a.m4a"));
    assert!(!prune_subject("a.flac"));
}

#[test]
fn case_insensitive_compare_is_ascii_only() {
    assert!(str_eq_ci("FLAC", "flac"));
    assert!(str_eq_ci("OpUs", "oPuS"));
    assert!(!str_eq_ci("flac", "flax"));
    assert!(!str_eq_ci("flac", "flacc"));
}
