use audiosync::order::{str_eq, str_lt};
use audiosync::runner::{pool_size, should_report};
use audiosync::tags;
use audiosync::AppError;

#[test]
fn the_pool_never_falls_under_four_workers() {
    assert_eq!(pool_size(1), 4);
    assert_eq!(pool_size(4), 4);
    assert_eq!(pool_size(16), 16);
}

#[test]
fn progress_reports_every_tenth_completion_and_the_last() {
    assert!(should_report(10, 95));
    assert!(should_report(95, 95));
    assert!(!should_report(11, 95));
    assert!(should_report(0, 95));
}

#[test]
fn string_order_is_lexicographic_by_code_point() {
    assert!(str_lt("a", "b"));
    assert!(str_lt("a", "ab"));
    assert!(!str_lt("ab", "a"));
    assert!(!str_lt("a", "a"));
    assert!(str_lt("A/song.flac", "B/song.flac"));
    assert!(str_lt("", "a"));
}

#[test]
fn string_equality_matches_exactly() {
    assert!(str_eq("same", "same"));
    assert!(!str_eq("same", "Same"));
    assert!(!str_eq("same", "samey"));
}

#[test]
fn reading_tags_of_a_missing_file_is_a_tag_read_error() {
    let got = tags::read("/surely/not/here/track.flac");
    assert_eq!(got.err(), Some(AppError::ReadTagError));
}

#[test]
fn copying_tags_from_a_missing_file_is_a_tag_read_error() {
    let got = tags::copy("/surely/not/here/a.flac", "/surely/not/here/b.m4a", false);
    assert_eq!(got.err(), Some(AppError::ReadTagError));
}
