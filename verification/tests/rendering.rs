use tracklist::albuminfo::AlbumInfo;
use tracklist::disc::Disc;
use tracklist::markup::{show_artists, show_millis};
use tracklist::reference::{find_reference, link_from, ReferenceError};
use tracklist::release::Release;
use tracklist::scanner::{is_flac_extension, scan_step, EntryKind, ScanStep};
use tracklist::text::{is_whitespace_char, join_strings, show_decimal, show_two_digits,
    split_and_trim, trim_text};
use tracklist::track::Track;

fn names(list: &[&str]) -> Vec<String> {
    list.iter().map(|s| s.to_string()).collect()
}

fn track(disc: u32, number: u32, millis: u32, artists: &[&str], title: &str) -> Track {
    Track {
        duration_in_millis: millis,
        disc,
        track: number,
        artists: names(artists),
        title: title.to_string(),
    }
}

fn info(date: &str, genres: &[&str]) -> AlbumInfo {
    AlbumInfo {
        artist: "The Band".to_string(),
        title: "The Album".to_string(),
        release_date: date.to_string(),
        genres: names(genres),
    }
}

#[test]
fn show_millis_examples() {
    assert_eq!(show_millis(0), "00:00");
    assert_eq!(show_millis(61_000), "01:01");
    assert_eq!(show_millis(3_661_000), "01:01:01");
}

#[test]
fn show_millis_drops_what_is_left_of_a_second() {
    assert_eq!(show_millis(999), "00:00");
    assert_eq!(show_millis(59_999), "00:59");
    assert_eq!(show_millis(3_599_999), "59:59");
    assert_eq!(show_millis(3_600_000), "01:00:00");
    assert_eq!(show_millis(36_000_000), "10:00:00");
    assert_eq!(show_millis(u32::MAX), "1193:02:47");
}

#[test]
fn show_artists_examples() {
    assert_eq!(show_artists(&names(&["A"])), "[artist]A[/artist]");
    assert_eq!(show_artists(&names(&["A", "B"])), "[artist]A[/artist] & [artist]B[/artist]");
    assert_eq!(
        show_artists(&names(&["A", "B", "C"])),
        "[artist]A[/artist], [artist]B[/artist] & [artist]C[/artist]"
    );
    assert_eq!(
        show_artists(&names(&["A", "B", "C", "D"])),
        "[artist]A[/artist], [artist]B[/artist], [artist]C[/artist] & [artist]D[/artist]"
    );
}

#[test]
fn show_artists_of_none() {
    assert_eq!(show_artists(&[]), "[artist][/artist]");
}

#[test]
fn show_artists_replaces_from_the_left() {
    assert_eq!(
        show_artists(&names(&["A & B", "C", "D"])),
        "[artist]A, B[/artist] & [artist]C[/artist] & [artist]D[/artist]"
    );
}

#[test]
fn decimal_numbers() {
    assert_eq!(show_decimal(0), "0");
    assert_eq!(show_decimal(7), "7");
    assert_eq!(show_decimal(10), "10");
    assert_eq!(show_decimal(1_234_567_890), "1234567890");
    assert_eq!(show_decimal(u32::MAX), "4294967295");
    assert_eq!(show_two_digits(0), "00");
    assert_eq!(show_two_digits(9), "09");
    assert_eq!(show_two_digits(10), "10");
    assert_eq!(show_two_digits(123), "123");
}

#[test]
fn joining() {
    assert_eq!(join_strings(&[], ", "), "");
    assert_eq!(join_strings(&names(&["a"]), ", "), "a");
    assert_eq!(join_strings(&names(&["a", "b", "c"]), ", "), "a, b, c");
    assert_eq!(join_strings(&names(&["", ""]), "-"), "-");
}

#[test]
fn show_artists_keeps_other_characters() {
    assert_eq!(
        show_artists(&names(&["é", "ü & ö", "x", "y"])),
        "[artist]é[/artist], [artist]ü, ö[/artist] & [artist]x[/artist] & [artist]y[/artist]"
    );
}

#[test]
fn white_space_is_what_std_calls_white_space() {
    let mut n: u32 = 0;
    while n <= 0x10FFFF {
        if let Some(c) = char::from_u32(n) {
            assert_eq!(is_whitespace_char(c), c.is_whitespace());
        }
        n += 1;
    }
}

#[test]
fn trimming_and_splitting() {
    assert_eq!(trim_text("  a b \t\n"), "a b");
    assert_eq!(trim_text("\u{3000}x\u{a0}"), "x");
    assert_eq!(trim_text("   "), "");
    assert_eq!(trim_text(""), "");
    assert_eq!(split_and_trim(""), vec![""]);
    assert_eq!(split_and_trim("Solo"), vec!["Solo"]);
    assert_eq!(split_and_trim(" A , B&C "), vec!["A", "B", "C"]);
    assert_eq!(split_and_trim(",&"), vec!["", "", ""]);
}

#[test]
fn single_disc_release_is_rendered_without_disc_header() {
    let release = Release {
        duration_in_millis: 185_000,
        discs: vec![Disc {
            duration_in_millis: 185_000,
            disc: 1,
            tracks: vec![
                track(1, 1, 61_000, &["A"], "First"),
                track(1, 2, 124_000, &["A", "B", "C"], "Second"),
            ],
        }],
        mofo: None,
        album_info: info("2020", &["Rock", "Pop"]),
    };
    let expected = "[size=5][b]The Band — The Album[/b][/size]\n\
[b]Release Year:[/b] 2020\n\
[b]Genre:[/b] Rock, Pop\n\n\
[size=4][b]Tracklist[/b][/size]\n\
[b]1[/b]. [artist]A[/artist] — First [i](01:01)[/i]\n\
[b]2[/b]. [artist]A[/artist], [artist]B[/artist] & [artist]C[/artist] — Second [i](02:04)[/i]\n\
\n\
[b]Total length:[/b] 03:05\n\n\
[b]More information:[/b] N/A";
    assert_eq!(release.to_text(), expected);
}

#[test]
fn release_with_several_discs_is_rendered_with_disc_headers() {
    let release = Release {
        duration_in_millis: 3_661_000,
        discs: vec![
            Disc { duration_in_millis: 3_600_000, disc: 1, tracks: vec![track(1, 1, 3_600_000, &["A"], "Long")] },
            Disc { duration_in_millis: 0, disc: 2, tracks: vec![] },
            Disc { duration_in_millis: 61_000, disc: 3, tracks: vec![track(3, 12, 61_000, &["B", "C"], "Short")] },
        ],
        mofo: Some("music.apple.com/us/album/1".to_string()),
        album_info: info("2020-05-01", &[]),
    };
    let expected = "[size=5][b]The Band — The Album[/b][/size]\n\
[b]Release Date:[/b] 2020-05-01\n\
[b]Genre:[/b] \n\n\
[size=4][b]Tracklist[/b][/size]\n\
[size=3][b]Disc 1[/b][/size] [i](01:00:00)[/i]\n\
[b]1[/b]. [artist]A[/artist] — Long [i](01:00:00)[/i]\n\
\n\
[size=3][b]Disc 2[/b][/size] [i](00:00)[/i]\n\
\n\
[size=3][b]Disc 3[/b][/size] [i](01:01)[/i]\n\
[b]12[/b]. [artist]B[/artist] & [artist]C[/artist] — Short [i](01:01)[/i]\n\
\n\
[b]Total length:[/b] 01:01:01\n\n\
[b]More information:[/b] music.apple.com/us/album/1";
    assert_eq!(release.to_text(), expected);
}

#[test]
fn date_label_goes_by_characters() {
    let release = Release {
        duration_in_millis: 0,
        discs: vec![],
        mofo: None,
        album_info: info("20é0", &[]),
    };
    assert!(release.to_text().contains("[b]Release Year:[/b] 20é0\n"));
}

#[test]
fn reference_is_found_in_a_text() {
    let found = find_reference("see https://music.apple.com/us/album/some-album/1234567890?i=5 now");
    assert_eq!(found, Ok(Some("https://music.apple.com/us/album/some-album/1234567890".to_string())));
    let bare = find_reference("xx beta.music.apple.com/de/playlist/mix/pl.abc123 yy");
    assert_eq!(bare, Ok(Some("beta.music.apple.com/de/playlist/mix/pl.abc123".to_string())));
}

#[test]
fn reference_is_absent_from_other_text() {
    assert_eq!(find_reference(""), Ok(None));
    assert_eq!(find_reference("https://example.com/us/album/1"), Ok(None));
    assert_eq!(find_reference("music.apple.com/us/album/"), Ok(None));
}

#[test]
fn flac_extension_in_any_case() {
    assert!(is_flac_extension("flac"));
    assert!(is_flac_extension("FLAC"));
    assert!(is_flac_extension("FlaC"));
    assert!(!is_flac_extension("fla"));
    assert!(!is_flac_extension("flacs"));
    assert!(!is_flac_extension("mp3"));
    assert!(!is_flac_extension(""));
    assert!(!is_flac_extension("flać"));
}

#[test]
fn directory_below_the_depth_limit_is_skipped() {
    assert_eq!(scan_step(EntryKind::Directory, None, 0), ScanStep::Skip);
    assert_eq!(scan_step(EntryKind::Directory, None, 1), ScanStep::Descend(0));
    assert_eq!(scan_step(EntryKind::Directory, Some("flac"), 255), ScanStep::Descend(254));
}

#[test]
fn files_are_read_by_extension() {
    assert_eq!(scan_step(EntryKind::File, Some("flac"), 0), ScanStep::Read);
    assert_eq!(scan_step(EntryKind::File, Some("Flac"), 3), ScanStep::Read);
    assert_eq!(scan_step(EntryKind::File, Some("ogg"), 3), ScanStep::Skip);
    assert_eq!(scan_step(EntryKind::File, None, 3), ScanStep::Skip);
    assert_eq!(scan_step(EntryKind::Other, Some("flac"), 3), ScanStep::Skip);
}

#[test]
fn search_outcome_is_handed_on() {
    assert_eq!(link_from(Ok(Some("link".to_string()))), Ok(Some("link".to_string())));
    assert_eq!(link_from(Ok(None)), Ok(None));
    let refused = regex::Regex::new("(").map(|_| None);
    assert!(refused.is_err());
    assert_eq!(link_from(refused), Err(ReferenceError::Pattern));
}
