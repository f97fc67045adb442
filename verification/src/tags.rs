use vstd::prelude::*;

use crate::entry::TagFields;
use crate::error::AppError;
use lofty::config::{ParseOptions, ParsingMode, WriteOptions};
use lofty::file::{AudioFile, TaggedFile, TaggedFileExt};
use lofty::probe::Probe;
use lofty::tag::{Accessor, ItemKey, Tag, TagExt};

verus! {

#[verifier::external_type_specification]
#[verifier::external_body]
pub struct ExTaggedFile(TaggedFile);

#[verifier::external_type_specification]
#[verifier::external_body]
pub struct ExTag(Tag);

/// Relies on lofty's Probe: opens the file at `path` for reading only and
/// parses its tags in relaxed mode; the file is never modified. What comes
/// back depends on what is on disk, so nothing is promised of the parsed
/// file; every failure — the open and the parse alike — is mapped to the
/// tag-read error, and the caller treats the file as unreadable.
#[verifier::external_body]
fn probe_read(path: &str, read_cover: bool) -> (r: Result<TaggedFile, AppError>)
    ensures
        r is Err ==> r->Err_0 == AppError::ReadTagError,
{
    let mut options = ParseOptions::new();
    let options = options.parsing_mode(ParsingMode::Relaxed).read_cover_art(read_cover);
    match Probe::open(path) {
        Err(_) => Err(AppError::ReadTagError),
        Ok(probe) => probe.options(options).read().map_err(|_| AppError::ReadTagError),
    }
}

/// Relies on lofty's TaggedFileExt::primary_tag: the file's main tag block,
/// if it carries one; the tag is cloned out.
#[verifier::external_body]
fn primary_tag_of(file: &TaggedFile) -> (r: Option<Tag>) {
    file.primary_tag().map(|t| t.to_owned())
}

/// Relies on lofty's AudioFile::properties, FileProperties::duration and
/// FileProperties::overall_bitrate: the decoded duration in whole seconds,
/// and the overall bit rate where the file states one.
#[verifier::external_body]
fn audio_properties(file: &TaggedFile) -> (r: (u64, Option<u32>)) {
    let properties = file.properties();
    (properties.duration().as_secs(), properties.overall_bitrate())
}

/// Relies on lofty's Accessor getters, Tag::get_string and Tag::date: each
/// hands out the tag's stored text or number for one field, or nothing.
/// The duration and bit rate arguments pass through unchanged.
#[verifier::external_body]
fn tag_fields_of(tag: &Tag, duration: u64, bitrate: Option<u32>) -> (r: TagFields) {
    TagFields {
        title: tag.title().map(|s| s.to_string()),
        artist: tag.artist().map(|s| s.to_string()),
        album: tag.album().map(|s| s.to_string()),
        album_artist: tag.get_string(ItemKey::AlbumArtist).map(|s| s.to_string()),
        genre: tag.genre().map(|s| s.to_string()),
        year: tag.date().map(|d| d.year as u32),
        track_number: tag.track(),
        track_number_total: tag.track_total(),
        disk_number: tag.disk(),
        disk_number_total: tag.disk_total(),
        compilation: tag.get_string(ItemKey::FlagCompilation).map(|s| s.to_string()),
        duration,
        bitrate,
    }
}

/// The read capability: one file's tag fields as plain values. Every
/// failure — a file that cannot be opened or parsed, or one without a
/// primary tag — is the tag-read error. The fields depend on the file on
/// disk; all the logic that consumes them is verified for every value
/// they might take.
pub fn read(path: &str) -> (r: Result<TagFields, AppError>)
    ensures
        r is Err ==> r->Err_0 == AppError::ReadTagError,
{
    let file = match probe_read(path, false) {
        Err(e) => {
            return Err(e);
        },
        Ok(f) => f,
    };
    let (duration, bitrate) = audio_properties(&file);
    match primary_tag_of(&file) {
        None => Err(AppError::ReadTagError),
        Some(tag) => Ok(tag_fields_of(&tag, duration, bitrate)),
    }
}

/// Relies on Tag::items and Tag::push: offers every tag item of `src` to
/// `dest`, which keeps each one it can map to its own tag format.
#[verifier::external_body]
fn push_items(src: &Tag, dest: &mut Tag) {
    for item in src.items() {
        dest.push(item.clone());
    }
}

/// Relies on Tag::get_string and Tag::insert_text: stores the source's
/// publisher text as the destination's content group, where there is one.
#[verifier::external_body]
fn copy_publisher_as_grouping(src: &Tag, dest: &mut Tag) {
    if let Some(text) = src.get_string(ItemKey::Publisher) {
        dest.insert_text(ItemKey::ContentGroup, text.to_string());
    }
}

/// Relies on Tag::get_string and Tag::insert_text: carries the compilation
/// flag text over, where there is one.
#[verifier::external_body]
fn copy_compilation_flag(src: &Tag, dest: &mut Tag) {
    if let Some(text) = src.get_string(ItemKey::FlagCompilation) {
        dest.insert_text(ItemKey::FlagCompilation, text.to_string());
    }
}

/// Relies on Tag::get_string and Tag::insert_text: carries the work title
/// over, where there is one.
#[verifier::external_body]
fn copy_work(src: &Tag, dest: &mut Tag) {
    if let Some(text) = src.get_string(ItemKey::Work) {
        dest.insert_text(ItemKey::Work, text.to_string());
    }
}

/// Relies on Tag::pictures and Tag::set_picture: carries the first
/// embedded picture over, where there is one.
#[verifier::external_body]
fn copy_first_picture(src: &Tag, dest: &mut Tag) {
    if let Some(picture) = src.pictures().first() {
        dest.set_picture(0, picture.clone());
    }
}

/// Relies on TagExt::save_to_path: writes the tag onto the file at `dest`;
/// every refusal is mapped to the tag-write error.
#[verifier::external_body]
fn save_tag(tag: &Tag, dest: &str) -> (r: Result<(), AppError>)
    ensures
        r is Err ==> r->Err_0 == AppError::WriteTagError,
{
    tag.save_to_path(dest, WriteOptions::new()).map_err(|_| AppError::WriteTagError)
}

/// The tag-copy capability: the source's tag items are pushed onto the
/// destination's primary tag — publisher, compilation flag, work and, when
/// asked, the first picture carried over — and the tag is written back to
/// the destination file. A source that cannot be read or has no primary
/// tag is the tag-read error; a destination without one, or a refused
/// write, is the tag-write error; no other error comes out. Which of the
/// two legs failed depends on what is on disk, which no contract here can
/// see.
pub fn copy(src: &str, dest: &str, copy_cover: bool) -> (r: Result<(), AppError>)
    ensures
        r is Err ==> (r->Err_0 == AppError::ReadTagError || r->Err_0 == AppError::WriteTagError),
{
    let src_file = match probe_read(src, copy_cover) {
        Err(e) => {
            return Err(e);
        },
        Ok(f) => f,
    };
    let src_tag = match primary_tag_of(&src_file) {
        None => {
            return Err(AppError::ReadTagError);
        },
        Some(t) => t,
    };
    let dest_file = match probe_read(dest, false) {
        Err(e) => {
            return Err(e);
        },
        Ok(f) => f,
    };
    let mut dest_tag = match primary_tag_of(&dest_file) {
        None => {
            return Err(AppError::WriteTagError);
        },
        Some(t) => t,
    };
    push_items(&src_tag, &mut dest_tag);
    copy_publisher_as_grouping(&src_tag, &mut dest_tag);
    copy_compilation_flag(&src_tag, &mut dest_tag);
    copy_work(&src_tag, &mut dest_tag);
    if copy_cover {
        copy_first_picture(&src_tag, &mut dest_tag);
    }
    save_tag(&dest_tag, dest)
}

} // verus!
