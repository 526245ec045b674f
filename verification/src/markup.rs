//! Renders a release as forum markup.

use crate::disc::Disc;
use crate::release::Release;
use crate::text::{decimal, join, join_strings, replace_first, replacen, show_decimal,
    show_two_digits, two_digits, views};
use crate::track::Track;
use vstd::prelude::*;
use vstd::string::*;

verus! {

/// A duration as text: whole hours, minutes and seconds, each with at least
/// two digits, with `:` between; the hours only where there are any. What
/// is left of a second is dropped.
pub open spec fn millis_text(millis: u32) -> Seq<char> {
    let hours = (millis / 3_600_000) as nat;
    let minutes = ((millis / 60_000) % 60) as nat;
    let seconds = ((millis / 1000) % 60) as nat;
    if hours > 0 {
        two_digits(hours) + ":"@ + two_digits(minutes) + ":"@ + two_digits(seconds)
    } else {
        two_digits(minutes) + ":"@ + two_digits(seconds)
    }
}

/// The artists as text: each name between an opening and a closing tag, the
/// names joined by ` & `; with more than two names, the first occurrences of
/// ` & ` in the joined text, two fewer than there are names, become `, `.
pub open spec fn artists_text(artists: Seq<Seq<char>>) -> Seq<char> {
    let joined = "[artist]"@ + join(artists, "[/artist] & [artist]"@) + "[/artist]"@;
    if artists.len() > 2 {
        replacen(joined, " & "@, ", "@, (artists.len() - 2) as nat)
    } else {
        joined
    }
}

/// The line of one track.
pub open spec fn track_line(t: Track) -> Seq<char> {
    "[b]"@ + decimal(t.track as nat) + "[/b]. "@ + artists_text(views(t.artists@)) + " — "@
        + t.title@ + " [i]("@ + millis_text(t.duration_in_millis) + ")[/i]\n"@
}

/// The lines of the tracks, in their order.
pub open spec fn track_lines(tracks: Seq<Track>) -> Seq<char>
    decreases tracks.len(),
{
    if tracks.len() == 0 {
        Seq::empty()
    } else {
        track_lines(tracks.drop_last()) + track_line(tracks.last())
    }
}

/// The header line of a disc.
pub open spec fn disc_header(d: Disc) -> Seq<char> {
    "[size=3][b]Disc "@ + decimal(d.disc as nat) + "[/b][/size] [i]("@ + millis_text(
        d.duration_in_millis,
    ) + ")[/i]\n"@
}

/// The block of one disc: its header where the release has several discs,
/// its track lines, and an empty line.
pub open spec fn disc_block(d: Disc, several: bool) -> Seq<char> {
    (if several {
        disc_header(d)
    } else {
        Seq::empty()
    }) + track_lines(d.tracks@) + "\n"@
}

/// The blocks of the discs, in their order.
pub open spec fn disc_blocks(discs: Seq<Disc>, several: bool) -> Seq<char>
    decreases discs.len(),
{
    if discs.len() == 0 {
        Seq::empty()
    } else {
        disc_blocks(discs.drop_last(), several) + disc_block(discs.last(), several)
    }
}

/// `Date` for a date of more than four characters, else `Year`.
pub open spec fn date_label(date: Seq<char>) -> Seq<char> {
    if date.len() > 4 {
        "Date"@
    } else {
        "Year"@
    }
}

/// The link to more information, or `N/A`.
pub open spec fn reference_text(link: Option<String>) -> Seq<char> {
    match link {
        Some(l) => l@,
        None => "N/A"@,
    }
}

/// The markup of a release: header, date, genres, the blocks of the discs,
/// total length and the link to more information.
pub open spec fn rendered(r: Release) -> Seq<char> {
    "[size=5][b]"@ + r.album_info.artist@ + " — "@ + r.album_info.title@ + "[/b][/size]\n"@
        + "[b]Release "@ + date_label(r.album_info.release_date@) + ":[/b] "@
        + r.album_info.release_date@ + "\n"@ + "[b]Genre:[/b] "@ + join(
        views(r.album_info.genres@),
        ", "@,
    ) + "\n\n"@ + "[size=4][b]Tracklist[/b][/size]\n"@ + disc_blocks(r.discs@, r.discs@.len() > 1)
        + "[b]Total length:[/b] "@ + millis_text(r.duration_in_millis)
        + "\n\n[b]More information:[/b] "@ + reference_text(r.mofo)
}

/// Writes a duration in milliseconds as `MM:SS`, or as `HH:MM:SS` where it
/// reaches an hour.
pub fn show_millis(millis: u32) -> (r: String)
    ensures
        r@ == millis_text(millis),
{
    let hours: u32 = millis / 3_600_000;
    let minutes: u32 = (millis / 60_000) % 60;
    let seconds: u32 = (millis / 1000) % 60;
    let mut out = if hours > 0 {
        let mut h = show_two_digits(hours);
        h.append(":");
        h.append(show_two_digits(minutes).as_str());
        h
    } else {
        show_two_digits(minutes)
    };
    out.append(":");
    out.append(show_two_digits(seconds).as_str());
    out
}

/// Writes the artists of a track, tagged and joined.
pub fn show_artists(artists: &[String]) -> (r: String)
    ensures
        r@ == artists_text(views(artists@)),
{
    let mut out = String::from_str("[artist]");
    out.append(join_strings(artists, "[/artist] & [artist]").as_str());
    out.append("[/artist]");
    if artists.len() > 2 {
        proof {
            reveal_strlit(" & ");
        }
        replace_first(out.as_str(), " & ", ", ", artists.len() - 2)
    } else {
        out
    }
}

fn show_track(t: &Track) -> (r: String)
    ensures
        r@ == track_line(*t),
{
    let mut out = String::from_str("[b]");
    out.append(show_decimal(t.track).as_str());
    out.append("[/b]. ");
    out.append(show_artists(t.artists.as_slice()).as_str());
    out.append(" — ");
    out.append(t.title.as_str());
    out.append(" [i](");
    out.append(show_millis(t.duration_in_millis).as_str());
    out.append(")[/i]\n");
    out
}

fn show_disc(d: &Disc, several: bool) -> (r: String)
    ensures
        r@ == disc_block(*d, several),
{
    let mut out = String::new();
    if several {
        out = String::from_str("[size=3][b]Disc ");
        out.append(show_decimal(d.disc).as_str());
        out.append("[/b][/size] [i](");
        out.append(show_millis(d.duration_in_millis).as_str());
        out.append(")[/i]\n");
    }
    let mut lines = String::new();
    let mut i: usize = 0;
    while i < d.tracks.len()
        invariant
            i <= d.tracks@.len(),
            lines@ == track_lines(d.tracks@.take(i as int)),
        decreases d.tracks@.len() - i,
    {
        assert(d.tracks@.take(i + 1).drop_last() =~= d.tracks@.take(i as int));
        lines.append(show_track(&d.tracks[i]).as_str());
        i += 1;
    }
    assert(d.tracks@.take(i as int) =~= d.tracks@);
    out.append(lines.as_str());
    out.append("\n");
    out
}

impl Release {
    /// Renders the release as markup.
    pub fn to_text(&self) -> (r: String)
        ensures
            r@ == rendered(*self),
    {
        let info = &self.album_info;
        let several = self.discs.len() > 1;
        let mut out = String::from_str("[size=5][b]");
        out.append(info.artist.as_str());
        out.append(" — ");
        out.append(info.title.as_str());
        out.append("[/b][/size]\n");
        out.append("[b]Release ");
        if info.release_date.as_str().unicode_len() > 4 {
            out.append("Date");
        } else {
            out.append("Year");
        }
        out.append(":[/b] ");
        out.append(info.release_date.as_str());
        out.append("\n");
        out.append("[b]Genre:[/b] ");
        out.append(join_strings(info.genres.as_slice(), ", ").as_str());
        out.append("\n\n");
        out.append("[size=4][b]Tracklist[/b][/size]\n");
        let mut blocks = String::new();
        let mut i: usize = 0;
        while i < self.discs.len()
            invariant
                i <= self.discs@.len(),
                blocks@ == disc_blocks(self.discs@.take(i as int), several),
            decreases self.discs@.len() - i,
        {
            assert(self.discs@.take(i + 1).drop_last() =~= self.discs@.take(i as int));
            blocks.append(show_disc(&self.discs[i], several).as_str());
            i += 1;
        }
        assert(self.discs@.take(i as int) =~= self.discs@);
        out.append(blocks.as_str());
        out.append("[b]Total length:[/b] ");
        out.append(show_millis(self.duration_in_millis).as_str());
        out.append("\n\n[b]More information:[/b] ");
        match &self.mofo {
            Some(link) => {
                out.append(link.as_str());
            },
            None => {
                out.append("N/A");
            },
        }
        out
    }
}

} // verus!
