//! The album-level information of a release.

use crate::tags::{BuildError, RawTagView, TagFields};
use crate::text::{decimal, show_decimal, views};
use vstd::prelude::*;

verus! {

/// Artist, title and date of an album, and its genres: each genre once, in
/// the order in which the files first name it.
#[derive(Debug)]
pub struct AlbumInfo {
    pub artist: String,
    pub title: String,
    pub release_date: String,
    pub genres: Vec<String>,
}

/// Album information as plain mathematical values.
pub struct AlbumInfoView {
    pub artist: Seq<char>,
    pub title: Seq<char>,
    pub release_date: Seq<char>,
    pub genres: Seq<Seq<char>>,
}

impl View for AlbumInfo {
    type V = AlbumInfoView;

    open spec fn view(&self) -> AlbumInfoView {
        AlbumInfoView {
            artist: self.artist@,
            title: self.title@,
            release_date: self.release_date@,
            genres: views(self.genres@),
        }
    }
}

/// The release date of a tag container: its recording date; without one,
/// its year in decimal; without either, none.
pub open spec fn release_date_of(t: TagFields) -> Option<Seq<char>> {
    match t.recording_date {
        Some(d) => Some(d@),
        None => match t.year {
            Some(y) => Some(decimal(y as nat)),
            None => None,
        },
    }
}

/// Every file carries a tag container.
pub open spec fn all_tagged(files: Seq<RawTagView>) -> bool {
    forall|i: int| 0 <= i < files.len() ==> (#[trigger] files[i]).tags is Some
}

/// The genre that a file names, if any.
pub open spec fn genre_of(v: RawTagView) -> Option<Seq<char>> {
    match v.tags {
        Some(t) => match t.genre {
            Some(g) => Some(g@),
            None => None,
        },
        None => None,
    }
}

/// The genres of the files: each file's genre in turn, unless it is among
/// those already taken.
pub open spec fn genres_of(files: Seq<RawTagView>) -> Seq<Seq<char>>
    decreases files.len(),
{
    if files.len() == 0 {
        Seq::empty()
    } else {
        let before = genres_of(files.drop_last());
        match genre_of(files.last()) {
            Some(g) => if before.contains(g) {
                before
            } else {
                before.push(g)
            },
            None => before,
        }
    }
}

/// No genre occurs twice among the genres of the files.
pub proof fn lemma_genres_distinct(files: Seq<RawTagView>)
    ensures
        genres_of(files).no_duplicates(),
    decreases files.len(),
{
    if files.len() > 0 {
        lemma_genres_distinct(files.drop_last());
    }
}

/// Every genre that a file names is among the genres of the files, and
/// every genre among them is named by a file.
pub proof fn lemma_genres_complete(files: Seq<RawTagView>)
    ensures
        forall|i: int|
            0 <= i < files.len() && genre_of(#[trigger] files[i]) is Some ==> genres_of(
                files,
            ).contains(genre_of(files[i])->Some_0),
        forall|k: int|
            0 <= k < genres_of(files).len() ==> exists|i: int|
                0 <= i < files.len() && genre_of(files[i]) == Some(#[trigger] genres_of(files)[k]),
    decreases files.len(),
{
    if files.len() > 0 {
        let head = files.drop_last();
        lemma_genres_complete(head);
        let before = genres_of(head);
        let all = genres_of(files);
        assert forall|i: int| 0 <= i < files.len() && genre_of(#[trigger] files[i]) is Some implies all.contains(
            genre_of(files[i])->Some_0,
        ) by {
            let g = genre_of(files[i])->Some_0;
            if i < head.len() {
                assert(head[i] == files[i]);
                assert(before.contains(g));
                let k = choose|k: int| 0 <= k < before.len() && before[k] == g;
                assert(all[k] == g);
            } else {
                if before.contains(g) {
                } else {
                    assert(all[before.len() as int] == g);
                }
            }
        }
        assert forall|k: int| 0 <= k < all.len() implies exists|i: int|
            0 <= i < files.len() && genre_of(files[i]) == Some(#[trigger] all[k]) by {
            if k < before.len() {
                assert(all[k] == before[k]);
                let i = choose|i: int| 0 <= i < head.len() && genre_of(head[i]) == Some(before[k]);
                assert(head[i] == files[i]);
            } else {
                assert(genre_of(files[files.len() - 1]) == Some(all[k]));
            }
        }
    }
}

/// The album information that the files give, or the reason why they give
/// none. Artist, title and date come from the last file.
pub open spec fn album_outcome(files: Seq<RawTagView>) -> Result<AlbumInfoView, BuildError> {
    if files.len() == 0 {
        Err(BuildError::NoTracks)
    } else {
        match files.last().tags {
            None => Err(BuildError::MissingTags),
            Some(t) => if t.album_artist is None {
                Err(BuildError::MissingAlbumArtist)
            } else if t.album is None {
                Err(BuildError::MissingAlbumTitle)
            } else if release_date_of(t) is None {
                Err(BuildError::MissingReleaseDate)
            } else if !all_tagged(files) {
                Err(BuildError::MissingTags)
            } else {
                Ok(
                    AlbumInfoView {
                        artist: t.album_artist->Some_0@,
                        title: t.album->Some_0@,
                        release_date: release_date_of(t)->Some_0,
                        genres: genres_of(files),
                    },
                )
            },
        }
    }
}

/// The release date of a tag container.
pub fn get_release_date(tag: &TagFields) -> (r: Option<String>)
    ensures
        match r {
            Some(d) => release_date_of(*tag) == Some(d@),
            None => release_date_of(*tag) is None,
        },
{
    if let Some(date) = &tag.recording_date {
        return Some(date.clone());
    }
    if let Some(year) = tag.year {
        return Some(show_decimal(year));
    }
    None
}

fn contains_text(list: &Vec<String>, s: &String) -> (r: bool)
    ensures
        r == views(list@).contains(s@),
{
    let mut i: usize = 0;
    while i < list.len()
        invariant
            i <= list@.len(),
            forall|k: int| 0 <= k < i ==> list@[k]@ != s@,
        decreases list@.len() - i,
    {
        if list[i] == *s {
            assert(views(list@)[i as int] == s@);
            return true;
        }
        i += 1;
    }
    assert(!views(list@).contains(s@)) by {
        if views(list@).contains(s@) {
            let k = choose|k: int| 0 <= k < views(list@).len() && views(list@)[k] == s@;
            assert(list@[k]@ == s@);
        }
    }
    false
}

/// The genres of the files, each once, in the order of first appearance.
/// Fails where a file carries no tag container.
pub fn get_genres(tagged_files: &Vec<RawTagView>) -> (r: Result<Vec<String>, BuildError>)
    ensures
        match r {
            Ok(g) => all_tagged(tagged_files@) && views(g@) == genres_of(tagged_files@)
                && views(g@).no_duplicates(),
            Err(e) => !all_tagged(tagged_files@) && e == BuildError::MissingTags,
        },
{
    let mut genres: Vec<String> = Vec::new();
    let mut i: usize = 0;
    assert(tagged_files@.take(0) =~= Seq::<RawTagView>::empty());
    assert(views(genres@) =~= genres_of(tagged_files@.take(0)));
    while i < tagged_files.len()
        invariant
            i <= tagged_files@.len(),
            all_tagged(tagged_files@.take(i as int)),
            views(genres@) == genres_of(tagged_files@.take(i as int)),
        decreases tagged_files@.len() - i,
    {
        let ghost before = tagged_files@.take(i as int);
        let ghost now = tagged_files@.take(i + 1);
        assert(now.drop_last() =~= before);
        assert(now.last() == tagged_files@[i as int]);
        let tags = match tagged_files[i].to_vorbis_tag() {
            Ok(t) => t,
            Err(e) => {
                return Err(e);
            },
        };
        assert(all_tagged(now)) by {
            assert forall|k: int| 0 <= k < now.len() implies (#[trigger] now[k]).tags is Some by {
                if k < i {
                    assert(before[k] == now[k]);
                }
            }
        }
        if let Some(genre) = &tags.genre {
            if !contains_text(&genres, genre) {
                let ghost old_genres = genres@;
                genres.push(genre.clone());
                assert(views(genres@) =~= views(old_genres).push(genre@));
            }
        }
        i += 1;
    }
    proof {
        assert(tagged_files@.take(i as int) =~= tagged_files@);
        lemma_genres_distinct(tagged_files@);
    }
    Ok(genres)
}

impl AlbumInfo {
    /// Derives the album information from the files: artist, title and date
    /// from the last file, the genres from all of them.
    pub fn build(tagged_files: &Vec<RawTagView>) -> (r: Result<AlbumInfo, BuildError>)
        ensures
            match r {
                Ok(info) => album_outcome(tagged_files@) == Ok::<AlbumInfoView, BuildError>(info@),
                Err(e) => album_outcome(tagged_files@) == Err::<AlbumInfoView, BuildError>(e),
            },
            r is Ok ==> r->Ok_0@.genres.no_duplicates(),
    {
        if tagged_files.len() == 0 {
            return Err(BuildError::NoTracks);
        }
        let last_track = &tagged_files[tagged_files.len() - 1];
        let album_tag = match last_track.to_vorbis_tag() {
            Ok(t) => t,
            Err(e) => {
                return Err(e);
            },
        };
        let artist = match &album_tag.album_artist {
            Some(s) => s.clone(),
            None => {
                return Err(BuildError::MissingAlbumArtist);
            },
        };
        let title = match &album_tag.album {
            Some(s) => s.clone(),
            None => {
                return Err(BuildError::MissingAlbumTitle);
            },
        };
        let release_date = match get_release_date(album_tag) {
            Some(d) => d,
            None => {
                return Err(BuildError::MissingReleaseDate);
            },
        };
        let genres = match get_genres(tagged_files) {
            Ok(g) => g,
            Err(e) => {
                return Err(e);
            },
        };
        Ok(AlbumInfo { artist, title, release_date, genres })
    }
}

} // verus!
