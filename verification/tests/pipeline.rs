use tracklist::albuminfo::{get_genres, get_release_date, AlbumInfo};
use tracklist::disc::Disc;
use tracklist::release::Release;
use tracklist::sorter::sort_tagged_files;
use tracklist::tags::{BuildError, RawTagView, TagFields};
use tracklist::track::Track;

fn fields(disc: Option<u32>, track: Option<u32>, title: &str) -> TagFields {
    TagFields {
        track,
        disc,
        title: Some(title.to_string()),
        artist: Some("Someone".to_string()),
        album_artist: Some("The Band".to_string()),
        album: Some("The Album".to_string()),
        recording_date: Some("2020-05-01".to_string()),
        year: Some(2020),
        genre: None,
    }
}

fn file(disc: Option<u32>, track: Option<u32>, title: &str, millis: u128) -> RawTagView {
    RawTagView { duration_millis: millis, tags: Some(fields(disc, track, title)) }
}

fn with_genre(genre: Option<&str>) -> RawTagView {
    let mut f = fields(Some(1), Some(1), "T");
    f.genre = genre.map(|g| g.to_string());
    RawTagView { duration_millis: 1000, tags: Some(f) }
}

fn titles(files: &[RawTagView]) -> Vec<String> {
    files.iter().map(|f| f.tags.as_ref().unwrap().title.clone().unwrap()).collect()
}

fn track(disc: u32, number: u32, millis: u32) -> Track {
    Track {
        duration_in_millis: millis,
        disc,
        track: number,
        artists: vec!["X".to_string()],
        title: format!("t{number}"),
    }
}

#[test]
fn sort_orders_by_disc_then_track() {
    let files = vec![
        file(Some(2), Some(1), "c", 1),
        file(Some(1), Some(2), "b", 1),
        file(Some(2), Some(2), "d", 1),
        file(Some(1), Some(1), "a", 1),
    ];
    let sorted = sort_tagged_files(files);
    assert_eq!(titles(&sorted), vec!["a", "b", "c", "d"]);
}

#[test]
fn sort_counts_missing_numbers_as_zero() {
    let files = vec![
        file(Some(1), Some(1), "b", 1),
        file(None, Some(9), "a", 1),
        RawTagView { duration_millis: 5, tags: None },
        file(Some(1), None, "c", 1),
    ];
    let sorted = sort_tagged_files(files);
    assert!(sorted[0].tags.is_none());
    assert_eq!(titles(&sorted[1..]), vec!["a", "c", "b"]);
}

#[test]
fn sort_keeps_equal_files_in_their_order() {
    let files = vec![
        file(Some(1), Some(1), "first", 1),
        file(Some(1), Some(1), "second", 1),
        file(Some(1), Some(1), "third", 1),
    ];
    let sorted = sort_tagged_files(files);
    assert_eq!(titles(&sorted), vec!["first", "second", "third"]);
}

#[test]
fn sort_is_idempotent() {
    let make = || {
        vec![
            file(Some(3), Some(2), "e", 1),
            file(Some(1), Some(2), "b", 1),
            file(Some(2), Some(7), "d", 1),
            file(Some(1), Some(1), "a", 1),
            file(Some(2), Some(1), "c", 1),
        ]
    };
    let once = sort_tagged_files(make());
    let expected = titles(&once);
    let twice = sort_tagged_files(once);
    assert_eq!(titles(&twice), expected);
    assert_eq!(expected, vec!["a", "b", "c", "d", "e"]);
}

#[test]
fn sort_of_nothing_is_nothing() {
    assert!(sort_tagged_files(Vec::new()).is_empty());
}

#[test]
fn track_is_built_from_fields() {
    let mut f = fields(Some(2), Some(7), "Song");
    f.artist = Some("A, B & C".to_string());
    let t = Track::build(&RawTagView { duration_millis: 123_456, tags: Some(f) }).unwrap();
    assert_eq!(t.duration_in_millis, 123_456);
    assert_eq!(t.disc, 2);
    assert_eq!(t.track, 7);
    assert_eq!(t.title, "Song");
    assert_eq!(t.artists, vec!["A", "B", "C"]);
}

#[test]
fn track_disc_defaults_to_one() {
    let t = Track::build(&file(None, Some(1), "x", 10)).unwrap();
    assert_eq!(t.disc, 1);
}

#[test]
fn track_keeps_empty_artist_segments() {
    let mut f = fields(Some(1), Some(1), "x");
    f.artist = Some("A,, B &".to_string());
    let t = Track::build(&RawTagView { duration_millis: 0, tags: Some(f) }).unwrap();
    assert_eq!(t.artists, vec!["A", "", "B", ""]);
}

#[test]
fn track_duration_beyond_32_bits_is_refused() {
    let t = Track::build(&file(Some(1), Some(1), "x", u32::MAX as u128)).unwrap();
    assert_eq!(t.duration_in_millis, u32::MAX);
    let long = file(Some(1), Some(1), "x", (1u128 << 32) + 5);
    assert_eq!(Track::build(&long).unwrap_err(), BuildError::DurationOverflow);
    let mut f = fields(Some(1), Some(1), "x");
    f.artist = None;
    let both = RawTagView { duration_millis: 1u128 << 32, tags: Some(f) };
    assert_eq!(Track::build(&both).unwrap_err(), BuildError::MissingArtist);
}

#[test]
fn release_of_files_has_every_disc() {
    let files = vec![
        file(Some(1), Some(1), "a", 100),
        file(Some(4), Some(1), "b", 200),
        file(None, Some(2), "c", 50),
    ];
    let release = Release::build(&sort_tagged_files(files)).unwrap();
    assert_eq!(release.discs.len(), 4);
    for (d, disc) in release.discs.iter().enumerate() {
        assert_eq!(disc.disc as usize, d + 1);
    }
    assert_eq!(release.discs[0].tracks.len(), 2);
    assert_eq!(release.discs[0].duration_in_millis, 150);
    assert!(release.discs[1].tracks.is_empty());
    assert_eq!(release.discs[1].duration_in_millis, 0);
    assert!(release.discs[2].tracks.is_empty());
    assert_eq!(release.discs[2].duration_in_millis, 0);
    assert_eq!(release.discs[3].tracks.len(), 1);
    assert_eq!(release.duration_in_millis, 350);
}

#[test]
fn release_of_files_that_last_too_long_is_refused() {
    let files = vec![
        file(Some(1), Some(1), "a", u32::MAX as u128),
        file(Some(1), Some(2), "b", u32::MAX as u128),
    ];
    assert_eq!(Release::build(&files).unwrap_err(), BuildError::DurationOverflow);
}

#[test]
fn track_errors() {
    let no_tags = RawTagView { duration_millis: 1, tags: None };
    assert_eq!(Track::build(&no_tags).unwrap_err(), BuildError::MissingTags);
    assert_eq!(no_tags.to_vorbis_tag().unwrap_err(), BuildError::MissingTags);

    let zero = file(Some(0), Some(1), "x", 1);
    assert_eq!(Track::build(&zero).unwrap_err(), BuildError::InvalidDisc);

    let no_number = file(Some(1), None, "x", 1);
    assert_eq!(Track::build(&no_number).unwrap_err(), BuildError::MissingTrackNumber);

    let mut f = fields(Some(1), Some(1), "x");
    f.title = None;
    let no_title = RawTagView { duration_millis: 1, tags: Some(f) };
    assert_eq!(Track::build(&no_title).unwrap_err(), BuildError::MissingTitle);

    let mut f = fields(Some(1), Some(1), "x");
    f.artist = None;
    let no_artist = RawTagView { duration_millis: 1, tags: Some(f) };
    assert_eq!(Track::build(&no_artist).unwrap_err(), BuildError::MissingArtist);
}

#[test]
fn disc_add_track_sums_durations() {
    let mut d = Disc::new(4);
    assert_eq!(d.disc, 4);
    assert_eq!(d.duration_in_millis, 0);
    d.add_track(track(4, 1, 1000));
    d.add_track(track(4, 2, 2500));
    assert_eq!(d.duration_in_millis, 3500);
    assert_eq!(d.tracks.len(), 2);
    assert_eq!(d.tracks[0].track, 1);
    assert_eq!(d.tracks[1].track, 2);
}

#[test]
fn genres_are_deduplicated_in_first_seen_order() {
    let files = vec![with_genre(Some("Rock")), with_genre(Some("Pop")), with_genre(Some("Rock"))];
    assert_eq!(get_genres(&files).unwrap(), vec!["Rock", "Pop"]);
    let info = AlbumInfo::build(&files).unwrap();
    assert_eq!(info.genres, vec!["Rock", "Pop"]);
}

#[test]
fn genres_are_case_sensitive_and_optional() {
    let files = vec![with_genre(Some("rock")), with_genre(None), with_genre(Some("Rock"))];
    assert_eq!(get_genres(&files).unwrap(), vec!["rock", "Rock"]);
    let untagged = vec![with_genre(Some("a")), RawTagView { duration_millis: 0, tags: None }];
    assert_eq!(get_genres(&untagged).unwrap_err(), BuildError::MissingTags);
}

#[test]
fn release_date_prefers_recording_date() {
    let mut f = fields(Some(1), Some(1), "x");
    assert_eq!(get_release_date(&f), Some("2020-05-01".to_string()));
    f.recording_date = None;
    f.year = Some(1999);
    assert_eq!(get_release_date(&f), Some("1999".to_string()));
    f.year = None;
    assert_eq!(get_release_date(&f), None);
}

#[test]
fn album_info_comes_from_the_last_file() {
    let mut first = fields(Some(1), Some(1), "x");
    first.album = Some("Other".to_string());
    let files = vec![
        RawTagView { duration_millis: 1, tags: Some(first) },
        file(Some(1), Some(2), "y", 1),
    ];
    let info = AlbumInfo::build(&files).unwrap();
    assert_eq!(info.artist, "The Band");
    assert_eq!(info.title, "The Album");
    assert_eq!(info.release_date, "2020-05-01");
    assert!(info.genres.is_empty());
}

#[test]
fn album_info_errors() {
    assert_eq!(AlbumInfo::build(&Vec::new()).unwrap_err(), BuildError::NoTracks);
    let untagged = vec![RawTagView { duration_millis: 0, tags: None }];
    assert_eq!(AlbumInfo::build(&untagged).unwrap_err(), BuildError::MissingTags);

    let mut f = fields(Some(1), Some(1), "x");
    f.album_artist = None;
    let files = vec![RawTagView { duration_millis: 0, tags: Some(f) }];
    assert_eq!(AlbumInfo::build(&files).unwrap_err(), BuildError::MissingAlbumArtist);

    let mut f = fields(Some(1), Some(1), "x");
    f.album = None;
    let files = vec![RawTagView { duration_millis: 0, tags: Some(f) }];
    assert_eq!(AlbumInfo::build(&files).unwrap_err(), BuildError::MissingAlbumTitle);

    let mut f = fields(Some(1), Some(1), "x");
    f.recording_date = None;
    f.year = None;
    let files = vec![RawTagView { duration_millis: 0, tags: Some(f) }];
    assert_eq!(AlbumInfo::build(&files).unwrap_err(), BuildError::MissingReleaseDate);
}

#[test]
fn discs_are_numbered_without_gaps() {
    let files = vec![file(Some(1), Some(1), "a", 1)];
    let tracks = vec![track(1, 1, 100), track(3, 1, 200), track(3, 2, 50)];
    let release = Release::aggregate(tracks, &files).unwrap();
    assert_eq!(release.discs.len(), 3);
    assert_eq!(release.discs[0].disc, 1);
    assert_eq!(release.discs[1].disc, 2);
    assert_eq!(release.discs[2].disc, 3);
    assert_eq!(release.discs[0].tracks.len(), 1);
    assert!(release.discs[1].tracks.is_empty());
    assert_eq!(release.discs[1].duration_in_millis, 0);
    assert_eq!(release.discs[2].tracks.len(), 2);
    assert_eq!(release.discs[2].duration_in_millis, 250);
    assert_eq!(release.duration_in_millis, 350);
    assert!(release.mofo.is_none());
}

#[test]
fn two_files_on_one_disc() {
    let files = vec![file(Some(1), Some(2), "B", 2000), file(Some(1), Some(1), "A", 1500)];
    let sorted = sort_tagged_files(files);
    assert_eq!(titles(&sorted), vec!["A", "B"]);
    let release = Release::build(&sorted).unwrap();
    assert_eq!(release.discs.len(), 1);
    assert_eq!(release.discs[0].tracks.len(), 2);
    assert_eq!(release.discs[0].tracks[0].title, "A");
    assert_eq!(release.discs[0].tracks[1].title, "B");
    assert_eq!(release.discs[0].duration_in_millis, 3500);
    assert_eq!(release.duration_in_millis, 3500);
}

#[test]
fn missing_title_yields_no_release() {
    let mut f = fields(Some(1), Some(2), "x");
    f.title = None;
    let files = vec![file(Some(1), Some(1), "A", 1), RawTagView { duration_millis: 1, tags: Some(f) }];
    let sorted = sort_tagged_files(files);
    assert_eq!(Release::build(&sorted).unwrap_err(), BuildError::MissingTitle);
}

#[test]
fn aggregate_errors() {
    let files = vec![file(Some(1), Some(1), "a", 1)];
    assert_eq!(Release::aggregate(Vec::new(), &files).unwrap_err(), BuildError::NoTracks);
    assert_eq!(Release::build(&Vec::new()).unwrap_err(), BuildError::NoTracks);
    assert_eq!(
        Release::aggregate(vec![track(1, 1, 1), track(0, 2, 1)], &files).unwrap_err(),
        BuildError::InvalidDisc
    );
    assert_eq!(
        Release::aggregate(vec![track(1, 1, u32::MAX), track(1, 2, 1)], &files).unwrap_err(),
        BuildError::DurationOverflow
    );
    assert_eq!(
        Release::aggregate(vec![track(1, 1, 1)], &Vec::new()).unwrap_err(),
        BuildError::NoTracks
    );
    let whole = Release::aggregate(vec![track(1, 1, u32::MAX - 1), track(2, 1, 1)], &files).unwrap();
    assert_eq!(whole.duration_in_millis, u32::MAX);
}

#[test]
fn reference_is_attached_once_found() {
    let files = vec![file(Some(1), Some(1), "a", 1)];
    let mut release = Release::build(&files).unwrap();
    release.attach_reference(None);
    assert!(release.mofo.is_none());
    release.attach_reference(Some("link".to_string()));
    assert_eq!(release.mofo, Some("link".to_string()));
    release.attach_reference(None);
    assert_eq!(release.mofo, Some("link".to_string()));
}
