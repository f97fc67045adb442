use audiosync::tidy::{nice_rel_path, strip_the, tidy_string};
use audiosync::{AppError, TagFields};

fn fields() -> TagFields {
    TagFields {
        title: None,
        artist: None,
        album: None,
        album_artist: None,
        genre: None,
        year: None,
        track_number: None,
        track_number_total: None,
        disk_number: None,
        disk_number_total: None,
        compilation: None,
        duration: 0,
        bitrate: None,
    }
}

#[test]
fn tidying_lowers_strips_and_collapses() {
    assert_eq!(tidy_string("  Hello & World  "), "hello_world");
    assert_eq!(tidy_string("Mr. Blue"), "mr_blue");
    assert_eq!(tidy_string("A~~~B"), "a_b");
    assert_eq!(tidy_string("What?!"), "what");
}

#[test]
fn tidying_transliterates_to_ascii() {
    assert_eq!(tidy_string("Béla Bartók"), "bela_bartok");
    assert_eq!(tidy_string("Motörhead"), "motorhead");
}

#[test]
fn leading_article_is_stripped_only_with_its_space() {
    assert_eq!(strip_the("the beatles"), "beatles");
    assert_eq!(strip_the("theory"), "theory");
    assert_eq!(strip_the("the"), "the");
    assert_eq!(strip_the("various"), "various");
}

#[test]
fn nice_path_files_by_artist_album_track_and_title() {
    let mut f = fields();
    f.album_artist = Some("The Beatles".to_string());
    f.album = Some("Abbey Road".to_string());
    f.title = Some("Come Together".to_string());
    f.track_number = Some(1);
    let got = nice_rel_path(&f, "whatever/src.flac");
    assert_eq!(got, Ok("the_beatles/abbey_road/01_come_together.flac".to_string()));
}

#[test]
fn compilations_file_under_various() {
    let mut f = fields();
    f.compilation = Some("1".to_string());
    f.artist = Some("Someone".to_string());
    f.album = Some("Hits".to_string());
    f.title = Some("Track".to_string());
    f.track_number = Some(12);
    let got = nice_rel_path(&f, "x.opus");
    assert_eq!(got, Ok("various/hits/12_track.opus".to_string()));
}

#[test]
fn the_artist_is_the_fallback_for_the_album_artist() {
    let mut f = fields();
    f.artist = Some("Solo Act".to_string());
    f.album = Some("Album".to_string());
    f.title = Some("Song".to_string());
    f.track_number = Some(2);
    f.disk_number = Some(3);
    let got = nice_rel_path(&f, "y.flac");
    assert_eq!(got, Ok("solo_act/album/3-02_song.flac".to_string()));
}

#[test]
fn a_bare_tag_still_yields_a_path() {
    let f = fields();
    let got = nice_rel_path(&f, "z.flac");
    assert_eq!(got, Ok("//01_.flac".to_string()));
}

#[test]
fn a_source_without_an_extension_is_a_path_error() {
    let f = fields();
    assert_eq!(nice_rel_path(&f, "no_extension"), Err(AppError::PathError));
}
