use vstd::prelude::*;

verus! {

/// The tag fields the read capability hands back for one audio file, as
/// plain values. A field the file does not carry is `None`, never a
/// placeholder value.
pub struct TagFields {
    pub title: Option<String>,
    pub artist: Option<String>,
    pub album: Option<String>,
    pub album_artist: Option<String>,
    pub genre: Option<String>,
    pub year: Option<u32>,
    pub track_number: Option<u32>,
    pub track_number_total: Option<u32>,
    pub disk_number: Option<u32>,
    pub disk_number_total: Option<u32>,
    /// The compilation flag as stored; set means the literal text `1`.
    pub compilation: Option<String>,
    /// Audio duration in whole seconds.
    pub duration: u64,
    /// Overall bit rate, where the file states one.
    pub bitrate: Option<u32>,
}

/// The mathematical value of a `TagFields`.
pub struct TagFieldsModel {
    pub title: Option<Seq<char>>,
    pub artist: Option<Seq<char>>,
    pub album: Option<Seq<char>>,
    pub album_artist: Option<Seq<char>>,
    pub genre: Option<Seq<char>>,
    pub year: Option<u32>,
    pub track_number: Option<u32>,
    pub track_number_total: Option<u32>,
    pub disk_number: Option<u32>,
    pub disk_number_total: Option<u32>,
    pub compilation: Option<Seq<char>>,
    pub duration: u64,
    pub bitrate: Option<u32>,
}

impl View for TagFields {
    type V = TagFieldsModel;

    open spec fn view(&self) -> TagFieldsModel {
        TagFieldsModel {
            title: self.title.deep_view(),
            artist: self.artist.deep_view(),
            album: self.album.deep_view(),
            album_artist: self.album_artist.deep_view(),
            genre: self.genre.deep_view(),
            year: self.year,
            track_number: self.track_number,
            track_number_total: self.track_number_total,
            disk_number: self.disk_number,
            disk_number_total: self.disk_number_total,
            compilation: self.compilation.deep_view(),
            duration: self.duration,
            bitrate: self.bitrate,
        }
    }
}

/// One track's indexed metadata: file facts first, then the optional tag
/// fields. Absent fields stay absent through serialization.
pub struct IndexEntry {
    /// Source modification time, whole seconds since the epoch.
    pub mtime: u64,
    /// Source size in bytes.
    pub size: u64,
    /// Audio duration in whole seconds.
    pub duration: u64,
    pub bitrate: Option<u32>,
    pub album: Option<String>,
    pub artist: Option<String>,
    pub title: Option<String>,
    pub album_artist: Option<String>,
    pub genre: Option<String>,
    pub year: Option<u32>,
    pub track_number: Option<u32>,
    pub track_number_total: Option<u32>,
    pub disk_number: Option<u32>,
    pub disk_number_total: Option<u32>,
}

/// The mathematical value of an `IndexEntry`.
pub struct EntryModel {
    pub mtime: u64,
    pub size: u64,
    pub duration: u64,
    pub bitrate: Option<u32>,
    pub album: Option<Seq<char>>,
    pub artist: Option<Seq<char>>,
    pub title: Option<Seq<char>>,
    pub album_artist: Option<Seq<char>>,
    pub genre: Option<Seq<char>>,
    pub year: Option<u32>,
    pub track_number: Option<u32>,
    pub track_number_total: Option<u32>,
    pub disk_number: Option<u32>,
    pub disk_number_total: Option<u32>,
}

impl View for IndexEntry {
    type V = EntryModel;

    open spec fn view(&self) -> EntryModel {
        EntryModel {
            mtime: self.mtime,
            size: self.size,
            duration: self.duration,
            bitrate: self.bitrate,
            album: self.album.deep_view(),
            artist: self.artist.deep_view(),
            title: self.title.deep_view(),
            album_artist: self.album_artist.deep_view(),
            genre: self.genre.deep_view(),
            year: self.year,
            track_number: self.track_number,
            track_number_total: self.track_number_total,
            disk_number: self.disk_number,
            disk_number_total: self.disk_number_total,
        }
    }
}

/// The entry a completed metadata job stores: the file's own modification
/// time and size, then the tag fields exactly as read.
pub open spec fn spec_entry_from(mtime: u64, size: u64, f: TagFieldsModel) -> EntryModel {
    EntryModel {
        mtime,
        size,
        duration: f.duration,
        bitrate: f.bitrate,
        album: f.album,
        artist: f.artist,
        title: f.title,
        album_artist: f.album_artist,
        genre: f.genre,
        year: f.year,
        track_number: f.track_number,
        track_number_total: f.track_number_total,
        disk_number: f.disk_number,
        disk_number_total: f.disk_number_total,
    }
}

impl IndexEntry {
    /// Build the index entry for one source file from its stat facts and its
    /// tag fields.
    pub fn from_tags(mtime: u64, size: u64, fields: TagFields) -> (r: IndexEntry)
        ensures
            r@ == spec_entry_from(mtime, size, fields@),
    {
        IndexEntry {
            mtime,
            size,
            duration: fields.duration,
            bitrate: fields.bitrate,
            album: fields.album,
            artist: fields.artist,
            title: fields.title,
            album_artist: fields.album_artist,
            genre: fields.genre,
            year: fields.year,
            track_number: fields.track_number,
            track_number_total: fields.track_number_total,
            disk_number: fields.disk_number,
            disk_number_total: fields.disk_number_total,
        }
    }
}

} // verus!
