//! One track of a release, built from the tag data of one file.

use crate::tags::{BuildError, RawTagView};
use crate::text::{split_and_trim, split_trimmed, views};
use vstd::prelude::*;

verus! {

/// A track. `artists` holds at least one name.
#[derive(Debug)]
pub struct Track {
    pub duration_in_millis: u32,
    pub disc: u32,
    pub track: u32,
    pub artists: Vec<String>,
    pub title: String,
}

/// A track as plain mathematical values.
pub struct TrackView {
    pub duration_in_millis: u32,
    pub disc: u32,
    pub track: u32,
    pub artists: Seq<Seq<char>>,
    pub title: Seq<char>,
}

impl View for Track {
    type V = TrackView;

    open spec fn view(&self) -> TrackView {
        TrackView {
            duration_in_millis: self.duration_in_millis,
            disc: self.disc,
            track: self.track,
            artists: views(self.artists@),
            title: self.title@,
        }
    }
}

/// The track that a file's data gives, or the reason why it gives none.
/// The disc number defaults to 1 and may not be 0; track number, title and
/// artist are required, and are asked for in this order; last, the length
/// in milliseconds must fit in 32 bits.
pub open spec fn track_outcome(v: RawTagView) -> Result<TrackView, BuildError> {
    match v.tags {
        None => Err(BuildError::MissingTags),
        Some(t) => if t.disc == Some(0u32) {
            Err(BuildError::InvalidDisc)
        } else if t.track is None {
            Err(BuildError::MissingTrackNumber)
        } else if t.title is None {
            Err(BuildError::MissingTitle)
        } else if t.artist is None {
            Err(BuildError::MissingArtist)
        } else if v.duration_millis > u32::MAX {
            Err(BuildError::DurationOverflow)
        } else {
            Ok(
                TrackView {
                    duration_in_millis: v.duration_millis as u32,
                    disc: match t.disc {
                        Some(d) => d,
                        None => 1,
                    },
                    track: t.track->Some_0,
                    artists: split_trimmed(t.artist->Some_0@),
                    title: t.title->Some_0@,
                },
            )
        },
    }
}

impl Track {
    /// The disc number is at least 1, and there is at least one artist.
    pub open spec fn wf(&self) -> bool {
        self.disc >= 1 && self.artists@.len() >= 1
    }

    /// Builds the track of one file.
    pub fn build(v: &RawTagView) -> (r: Result<Track, BuildError>)
        ensures
            match r {
                Ok(t) => track_outcome(*v) == Ok::<TrackView, BuildError>(t@),
                Err(e) => track_outcome(*v) == Err::<TrackView, BuildError>(e),
            },
            r is Ok ==> r->Ok_0.wf(),
    {
        let tags = match &v.tags {
            Some(t) => t,
            None => {
                return Err(BuildError::MissingTags);
            },
        };
        let disc: u32 = match tags.disc {
            Some(d) => d,
            None => 1,
        };
        if disc == 0 {
            return Err(BuildError::InvalidDisc);
        }
        let track: u32 = match tags.track {
            Some(n) => n,
            None => {
                return Err(BuildError::MissingTrackNumber);
            },
        };
        let title = match &tags.title {
            Some(s) => s.clone(),
            None => {
                return Err(BuildError::MissingTitle);
            },
        };
        let artist = match &tags.artist {
            Some(s) => s,
            None => {
                return Err(BuildError::MissingArtist);
            },
        };
        if v.duration_millis > 0xffff_ffff {
            return Err(BuildError::DurationOverflow);
        }
        let artists = split_and_trim(artist.as_str());
        proof {
            crate::text::lemma_split_nonempty(tags.artist->Some_0@);
            assert(views(artists@).len() == artists@.len());
        }
        let duration_in_millis: u32 = v.duration_millis as u32;
        Ok(Track { duration_in_millis, disc, track, artists, title })
    }
}

/// The sum of the tracks' durations.
pub open spec fn total_duration(tracks: Seq<Track>) -> nat
    decreases tracks.len(),
{
    if tracks.len() == 0 {
        0
    } else {
        total_duration(tracks.drop_last()) + tracks.last().duration_in_millis as nat
    }
}

} // verus!
