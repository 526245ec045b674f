//! The tag data of one audio file as plain values, and the ways in which
//! building a release from such data can fail.

use vstd::prelude::*;

verus! {

/// The fields of a file's comment-style tag container that a release is
/// built from. A field that the file does not carry is `None`.
#[derive(Debug)]
pub struct TagFields {
    pub track: Option<u32>,
    pub disc: Option<u32>,
    pub title: Option<String>,
    pub artist: Option<String>,
    pub album_artist: Option<String>,
    pub album: Option<String>,
    pub recording_date: Option<String>,
    pub year: Option<u32>,
    pub genre: Option<String>,
}

/// What was read from one file: its length in milliseconds and its tag
/// container, `None` where the file carries no such container.
#[derive(Debug)]
pub struct RawTagView {
    pub duration_millis: u128,
    pub tags: Option<TagFields>,
}

/// Why no track, album information or release could be built.
#[derive(Debug, Clone, Copy, PartialEq, Eq, Structural)]
pub enum BuildError {
    /// A file carries no tag container.
    MissingTags,
    /// A file has no track number.
    MissingTrackNumber,
    /// A file has no title.
    MissingTitle,
    /// A file has no artist.
    MissingArtist,
    /// A disc number is zero.
    InvalidDisc,
    /// There is no file at all.
    NoTracks,
    /// The last file has no album artist.
    MissingAlbumArtist,
    /// The last file has no album title.
    MissingAlbumTitle,
    /// The last file has neither a recording date nor a year.
    MissingReleaseDate,
    /// A duration, or the sum of the durations, does not fit in 32 bits.
    DurationOverflow,
}

impl RawTagView {
    /// The tag container of the file, or `MissingTags`.
    pub fn to_vorbis_tag(&self) -> (r: Result<&TagFields, BuildError>)
        ensures
            match r {
                Ok(t) => self.tags == Some(*t),
                Err(e) => self.tags is None && e == BuildError::MissingTags,
            },
    {
        match &self.tags {
            Some(t) => Ok(t),
            None => Err(BuildError::MissingTags),
        }
    }
}

/// The track number by which a file is ordered: zero where it has none.
pub open spec fn track_key(v: RawTagView) -> u32 {
    match v.tags {
        Some(t) => match t.track {
            Some(n) => n,
            None => 0,
        },
        None => 0,
    }
}

/// The disc number by which a file is ordered: zero where it has none.
pub open spec fn disc_key(v: RawTagView) -> u32 {
    match v.tags {
        Some(t) => match t.disc {
            Some(n) => n,
            None => 0,
        },
        None => 0,
    }
}

impl RawTagView {
    /// The track number used for ordering.
    pub fn track_sort_key(&self) -> (r: u32)
        ensures
            r == track_key(*self),
    {
        match &self.tags {
            Some(t) => match t.track {
                Some(n) => n,
                None => 0,
            },
            None => 0,
        }
    }

    /// The disc number used for ordering.
    pub fn disc_sort_key(&self) -> (r: u32)
        ensures
            r == disc_key(*self),
    {
        match &self.tags {
            Some(t) => match t.disc {
                Some(n) => n,
                None => 0,
            },
            None => 0,
        }
    }
}

} // verus!
