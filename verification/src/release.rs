//! A release: discs, total duration, album information and an optional
//! link to more information. Built from tracks, rendered as markup.

use crate::albuminfo::{album_outcome, AlbumInfo, AlbumInfoView};
use crate::disc::Disc;
use crate::tags::{BuildError, RawTagView};
use crate::track::{total_duration, track_outcome, Track, TrackView};
use vstd::prelude::*;

verus! {

/// A release. `discs[d]` is the disc with the number `d + 1`.
#[derive(Debug)]
pub struct Release {
    pub duration_in_millis: u32,
    pub discs: Vec<Disc>,
    pub mofo: Option<String>,
    pub album_info: AlbumInfo,
}

/// The greatest disc number among the tracks; zero for no track.
pub open spec fn max_disc(tracks: Seq<Track>) -> u32
    decreases tracks.len(),
{
    if tracks.len() == 0 {
        0
    } else {
        let before = max_disc(tracks.drop_last());
        if tracks.last().disc > before {
            tracks.last().disc
        } else {
            before
        }
    }
}

/// The tracks with the given disc number, in their order.
pub open spec fn tracks_of_disc(tracks: Seq<Track>, number: u32) -> Seq<Track> {
    tracks.filter(|t: Track| t.disc == number)
}

/// The sum of the discs' durations.
pub open spec fn discs_duration(discs: Seq<Disc>) -> nat
    decreases discs.len(),
{
    if discs.len() == 0 {
        0
    } else {
        discs_duration(discs.drop_last()) + discs.last().duration_in_millis as nat
    }
}

/// Some track has the disc number zero.
pub open spec fn has_disc_zero(tracks: Seq<Track>) -> bool {
    exists|i: int| 0 <= i < tracks.len() && (#[trigger] tracks[i]).disc == 0
}

/// The discs are those of the tracks: one for each number from 1 to the
/// greatest disc number, each with exactly the tracks of its number, in
/// their order, and with the sum of their durations.
pub open spec fn discs_hold(discs: Seq<Disc>, tracks: Seq<Track>) -> bool {
    &&& discs.len() == max_disc(tracks)
    &&& forall|d: int|
        0 <= d < discs.len() ==> {
            &&& (#[trigger] discs[d]).disc == d + 1
            &&& discs[d].tracks@ == tracks_of_disc(tracks, (d + 1) as u32)
            &&& discs[d].wf()
        }
}

/// Why the tracks and files give no release, if they give none: no track;
/// a disc number zero; durations beyond 32 bits; no album information.
pub open spec fn aggregate_error(tracks: Seq<Track>, files: Seq<RawTagView>) -> Option<
    BuildError,
> {
    if tracks.len() == 0 {
        Some(BuildError::NoTracks)
    } else if has_disc_zero(tracks) {
        Some(BuildError::InvalidDisc)
    } else if total_duration(tracks) > u32::MAX {
        Some(BuildError::DurationOverflow)
    } else {
        match album_outcome(files) {
            Err(e) => Some(e),
            Ok(_) => None,
        }
    }
}

/// The tracks are those that the files give, one for one.
pub open spec fn built_from(tracks: Seq<Track>, files: Seq<RawTagView>) -> bool {
    &&& tracks.len() == files.len()
    &&& forall|i: int|
        0 <= i < files.len() ==> track_outcome(#[trigger] files[i]) == Ok::<TrackView, BuildError>(
            tracks[i]@,
        )
}

/// The error of the first file that gives no track.
pub open spec fn first_track_error(files: Seq<RawTagView>) -> Option<BuildError>
    decreases files.len(),
{
    if files.len() == 0 {
        None
    } else {
        match first_track_error(files.drop_last()) {
            Some(e) => Some(e),
            None => match track_outcome(files.last()) {
                Err(e) => Some(e),
                Ok(_) => None,
            },
        }
    }
}

/// The disc number of a file: 1 where it names none.
pub open spec fn disc_number(v: RawTagView) -> u32 {
    match v.tags {
        Some(t) => match t.disc {
            Some(d) => d,
            None => 1,
        },
        None => 1,
    }
}

/// The greatest disc number among the files; zero for no file.
pub open spec fn greatest_disc(files: Seq<RawTagView>) -> u32
    decreases files.len(),
{
    if files.len() == 0 {
        0
    } else {
        let before = greatest_disc(files.drop_last());
        if disc_number(files.last()) > before {
            disc_number(files.last())
        } else {
            before
        }
    }
}

/// Some file has the disc number `number`.
pub open spec fn carries(files: Seq<RawTagView>, number: u32) -> bool {
    exists|i: int| 0 <= i < files.len() && disc_number(#[trigger] files[i]) == number
}

/// The sum of the files' lengths in milliseconds.
pub open spec fn source_duration(files: Seq<RawTagView>) -> nat
    decreases files.len(),
{
    if files.len() == 0 {
        0
    } else {
        source_duration(files.drop_last()) + files.last().duration_millis as nat
    }
}

/// The file has all that a track needs: a tag container with a track
/// number, a title and an artist, no disc number zero, and a length within
/// 32 bits.
pub open spec fn is_complete(v: RawTagView) -> bool {
    &&& v.tags is Some
    &&& v.tags->Some_0.disc != Some(0u32)
    &&& v.tags->Some_0.track is Some
    &&& v.tags->Some_0.title is Some
    &&& v.tags->Some_0.artist is Some
    &&& v.duration_millis <= u32::MAX
}

/// Why the files give no release, if they give none: the error of the first
/// file that gives no track; no file; lengths that add up beyond 32 bits;
/// no album information.
pub open spec fn release_error(files: Seq<RawTagView>) -> Option<BuildError> {
    match first_track_error(files) {
        Some(e) => Some(e),
        None => if files.len() == 0 {
            Some(BuildError::NoTracks)
        } else if source_duration(files) > u32::MAX {
            Some(BuildError::DurationOverflow)
        } else {
            match album_outcome(files) {
                Err(e) => Some(e),
                Ok(_) => None,
            }
        },
    }
}

/// No disc number is greater than the greatest.
pub proof fn lemma_max_disc(tracks: Seq<Track>)
    ensures
        forall|i: int| 0 <= i < tracks.len() ==> (#[trigger] tracks[i]).disc <= max_disc(tracks),
    decreases tracks.len(),
{
    if tracks.len() > 0 {
        let head = tracks.drop_last();
        lemma_max_disc(head);
        assert forall|i: int| 0 <= i < tracks.len() implies (#[trigger] tracks[i]).disc
            <= max_disc(tracks) by {
            if i < head.len() {
                assert(head[i] == tracks[i]);
            }
        }
    }
}

/// The durations of the first `k` tracks add up to no more than those of
/// all tracks.
pub proof fn lemma_total_prefix(tracks: Seq<Track>, k: int)
    requires
        0 <= k <= tracks.len(),
    ensures
        total_duration(tracks.take(k)) <= total_duration(tracks),
    decreases tracks.len(),
{
    if k == tracks.len() {
        assert(tracks.take(k) =~= tracks);
    } else {
        lemma_total_prefix(tracks.drop_last(), k);
        assert(tracks.drop_last().take(k) =~= tracks.take(k));
    }
}

/// No disc is longer than all discs together.
pub proof fn lemma_disc_within_sum(discs: Seq<Disc>, i: int)
    requires
        0 <= i < discs.len(),
    ensures
        discs[i].duration_in_millis <= discs_duration(discs),
    decreases discs.len(),
{
    if i < discs.len() - 1 {
        lemma_disc_within_sum(discs.drop_last(), i);
    }
}

/// Where one disc grows by `delta` and the others keep their durations,
/// the sum grows by `delta`.
pub proof fn lemma_sum_after_change(before: Seq<Disc>, after: Seq<Disc>, i: int, delta: nat)
    requires
        0 <= i < before.len(),
        after.len() == before.len(),
        after[i].duration_in_millis == before[i].duration_in_millis + delta,
        forall|j: int|
            0 <= j < before.len() && j != i ==> (#[trigger] after[j]).duration_in_millis
                == before[j].duration_in_millis,
    ensures
        discs_duration(after) == discs_duration(before) + delta,
    decreases before.len(),
{
    let n = before.len() - 1;
    if i < n {
        lemma_sum_after_change(before.drop_last(), after.drop_last(), i, delta);
        assert(after[n].duration_in_millis == before[n].duration_in_millis);
    } else {
        lemma_same_sum(before.drop_last(), after.drop_last());
    }
}

/// Discs with the same durations have the same sum.
pub proof fn lemma_same_sum(a: Seq<Disc>, b: Seq<Disc>)
    requires
        a.len() == b.len(),
        forall|j: int|
            0 <= j < a.len() ==> (#[trigger] b[j]).duration_in_millis == a[j].duration_in_millis,
    ensures
        discs_duration(a) == discs_duration(b),
    decreases a.len(),
{
    if a.len() > 0 {
        lemma_same_sum(a.drop_last(), b.drop_last());
        assert(b[a.len() - 1].duration_in_millis == a[a.len() - 1].duration_in_millis);
    }
}

/// The discs of a release are numbered from 1 to the greatest disc number
/// of its tracks without a gap, each track is on the disc of its number and
/// on no other, and the discs together last as long as the tracks.
pub proof fn lemma_discs_of_release(discs: Seq<Disc>, tracks: Seq<Track>)
    requires
        discs_hold(discs, tracks),
    ensures
        forall|d: int| 0 <= d < discs.len() ==> (#[trigger] discs[d]).disc == d + 1,
        forall|d: int, k: int|
            0 <= d < discs.len() && 0 <= k < discs[d].tracks@.len() ==> (
            #[trigger] discs[d].tracks@[k]).disc == d + 1,
        forall|i: int, d: int|
            0 <= i < tracks.len() && 0 <= d < discs.len() ==> (discs[d].tracks@.contains(
                #[trigger] tracks[i],
            ) <==> tracks[i].disc == #[trigger] discs[d].disc),
{
    assert forall|d: int, k: int|
        0 <= d < discs.len() && 0 <= k < discs[d].tracks@.len() implies (
    #[trigger] discs[d].tracks@[k]).disc == d + 1 by {
        let p = |t: Track| t.disc == (d + 1) as u32;
        assert(discs[d].tracks@ == tracks.filter(p));
        tracks.lemma_filter_pred(p, k);
    }
    assert forall|i: int, d: int| 0 <= i < tracks.len() && 0 <= d < discs.len() implies (
    discs[d].tracks@.contains(#[trigger] tracks[i]) <==> tracks[i].disc
        == #[trigger] discs[d].disc) by {
        let p = |t: Track| t.disc == (d + 1) as u32;
        assert(discs[d].tracks@ == tracks.filter(p));
        if tracks[i].disc == discs[d].disc {
            tracks.lemma_filter_contains(p, i);
        }
        if discs[d].tracks@.contains(tracks[i]) {
            let k = choose|k: int| 0 <= k < discs[d].tracks@.len() && discs[d].tracks@[k] == tracks[i];
            tracks.lemma_filter_pred(p, k);
        }
    }
}

fn add_to_disc(discs: &mut Vec<Disc>, at: usize, track: Track)
    requires
        at < old(discs)@.len(),
        old(discs)@[at as int].duration_in_millis + track.duration_in_millis <= u32::MAX,
    ensures
        final(discs)@.len() == old(discs)@.len(),
        forall|j: int| 0 <= j < old(discs)@.len() && j != at ==> final(discs)@[j] == old(discs)@[j],
        final(discs)@[at as int].disc == old(discs)@[at as int].disc,
        final(discs)@[at as int].tracks@ == old(discs)@[at as int].tracks@.push(track),
        final(discs)@[at as int].duration_in_millis == old(discs)@[at as int].duration_in_millis
            + track.duration_in_millis,
        old(discs)@[at as int].wf() ==> final(discs)@[at as int].wf(),
{
    discs[at].add_track(track);
}

impl Release {
    /// The discs are numbered from 1 without a gap, each lasts as long as
    /// its tracks, and the release lasts as long as its discs.
    pub open spec fn wf(&self) -> bool {
        &&& self.duration_in_millis == discs_duration(self.discs@)
        &&& forall|d: int|
            0 <= d < self.discs@.len() ==> (#[trigger] self.discs@[d]).disc == d + 1
                && self.discs@[d].wf()
    }

    /// Groups the tracks into discs and derives the album information from
    /// the files. Fails where `aggregate_error` names a reason.
    pub fn aggregate(tracks: Vec<Track>, album_source: &Vec<RawTagView>) -> (r: Result<
        Release,
        BuildError,
    >)
        ensures
            match r {
                Ok(rel) => {
                    &&& aggregate_error(tracks@, album_source@) is None
                    &&& discs_hold(rel.discs@, tracks@)
                    &&& rel.duration_in_millis == total_duration(tracks@)
                    &&& rel.wf()
                    &&& rel.mofo is None
                    &&& album_outcome(album_source@) == Ok::<AlbumInfoView, BuildError>(
                        rel.album_info@,
                    )
                },
                Err(e) => aggregate_error(tracks@, album_source@) == Some(e),
            },
    {
        let ghost all = tracks@;
        if tracks.len() == 0 {
            return Err(BuildError::NoTracks);
        }
        let mut greatest: u32 = 0;
        let mut zero = false;
        let mut total: Option<u32> = Some(0);
        let mut i: usize = 0;
        assert(all.take(0) =~= Seq::<Track>::empty());
        while i < tracks.len()
            invariant
                i <= all.len(),
                all == tracks@,
                greatest == max_disc(all.take(i as int)),
                zero ==> has_disc_zero(all),
                !zero ==> forall|k: int| 0 <= k < i ==> (#[trigger] all[k]).disc != 0,
                match total {
                    Some(t) => t == total_duration(all.take(i as int)),
                    None => total_duration(all.take(i as int)) > u32::MAX,
                },
            decreases all.len() - i,
        {
            assert(all.take(i + 1).drop_last() =~= all.take(i as int));
            assert(all.take(i + 1).last() == all[i as int]);
            let t = &tracks[i];
            if t.disc > greatest {
                greatest = t.disc;
            }
            if t.disc == 0 {
                zero = true;
            }
            total = match total {
                Some(sum) => if t.duration_in_millis <= u32::MAX - sum {
                    Some(sum + t.duration_in_millis)
                } else {
                    None
                },
                None => None,
            };
            i += 1;
        }
        assert(all.take(i as int) =~= all);
        if zero {
            return Err(BuildError::InvalidDisc);
        }
        let sum: u32 = match total {
            Some(sum) => sum,
            None => {
                return Err(BuildError::DurationOverflow);
            },
        };
        let mut discs: Vec<Disc> = Vec::new();
        let mut number: u32 = 0;
        while number < greatest
            invariant
                number <= greatest,
                discs@.len() == number,
                discs_duration(discs@) == 0,
                forall|d: int|
                    0 <= d < discs@.len() ==> {
                        &&& (#[trigger] discs@[d]).disc == d + 1
                        &&& discs@[d].tracks@ == Seq::<Track>::empty()
                        &&& discs@[d].duration_in_millis == 0
                    },
            decreases greatest - number,
        {
            let ghost before = discs@;
            discs.push(Disc::new(number + 1));
            assert(discs@.drop_last() =~= before);
            number += 1;
        }
        let mut rest = tracks;
        let ghost mut done: int = 0;
        proof {
            assert(all.skip(0) =~= all);
            lemma_max_disc(all);
            assert forall|d: int| 0 <= d < discs@.len() implies (#[trigger] discs@[d]).tracks@
                == tracks_of_disc(all.take(0), (d + 1) as u32) && discs@[d].wf() by {
                assert(tracks_of_disc(all.take(0), (d + 1) as u32) =~= Seq::<Track>::empty()) by {
                    all.take(0).lemma_filter_len(|t: Track| t.disc == (d + 1) as u32);
                }
            }
        }
        while rest.len() > 0
            invariant
                0 <= done <= all.len(),
                rest@ == all.skip(done),
                discs@.len() == greatest,
                greatest == max_disc(all),
                sum == total_duration(all),
                forall|k: int| 0 <= k < all.len() ==> 1 <= (#[trigger] all[k]).disc <= greatest,
                discs_duration(discs@) == total_duration(all.take(done)),
                forall|d: int|
                    0 <= d < discs@.len() ==> {
                        &&& (#[trigger] discs@[d]).disc == d + 1
                        &&& discs@[d].tracks@ == tracks_of_disc(all.take(done), (d + 1) as u32)
                        &&& discs@[d].wf()
                    },
            decreases rest@.len(),
        {
            let track = rest.remove(0);
            let at: usize = (track.disc - 1) as usize;
            let ghost before = discs@;
            proof {
                assert(track == all[done]);
                assert(all.skip(done).remove(0) =~= all.skip(done + 1));
                assert(all.take(done + 1).drop_last() =~= all.take(done));
                assert(all.take(done + 1) =~= all.take(done).push(track));
                lemma_disc_within_sum(before, at as int);
                lemma_total_prefix(all, done + 1);
            }
            add_to_disc(&mut discs, at, track);
            proof {
                lemma_sum_after_change(before, discs@, at as int, track.duration_in_millis as nat);
                assert forall|d: int| 0 <= d < discs@.len() implies {
                    &&& (#[trigger] discs@[d]).disc == d + 1
                    &&& discs@[d].tracks@ == tracks_of_disc(all.take(done + 1), (d + 1) as u32)
                    &&& discs@[d].wf()
                } by {
                    all.take(done).lemma_filter_push(track, |t: Track| t.disc == (d + 1) as u32);
                    if d != at {
                        assert(discs@[d] == before[d]);
                    }
                }
                done = done + 1;
            }
        }
        assert(all.take(done) =~= all);
        let album_info = match AlbumInfo::build(album_source) {
            Ok(info) => info,
            Err(e) => {
                return Err(e);
            },
        };
        Ok(Release { duration_in_millis: sum, discs, mofo: None, album_info })
    }

    /// Builds the release of the files: a track from each, in their order,
    /// then discs and album information. Fails exactly where `release_error`
    /// names a reason. The release has a disc for every number up to the
    /// greatest that a file carries, empty where no file carries the number.
    pub fn build(tagged_files: &Vec<RawTagView>) -> (r: Result<Release, BuildError>)
        ensures
            match r {
                Ok(rel) => {
                    &&& release_error(tagged_files@) is None
                    &&& rel.discs@.len() == greatest_disc(tagged_files@)
                    &&& forall|d: int|
                        0 <= d < rel.discs@.len() && !carries(tagged_files@, (d + 1) as u32) ==> (
                        #[trigger] rel.discs@[d]).tracks@.len() == 0
                            && rel.discs@[d].duration_in_millis == 0
                    &&& rel.duration_in_millis == source_duration(tagged_files@)
                    &&& rel.wf()
                    &&& rel.mofo is None
                    &&& album_outcome(tagged_files@) == Ok::<AlbumInfoView, BuildError>(
                        rel.album_info@,
                    )
                    &&& exists|tracks: Seq<Track>| #[trigger]
                        built_from(tracks, tagged_files@) && discs_hold(rel.discs@, tracks)
                },
                Err(e) => release_error(tagged_files@) == Some(e),
            },
    {
        let mut tracks: Vec<Track> = Vec::new();
        let mut i: usize = 0;
        assert(tagged_files@.take(0) =~= Seq::<RawTagView>::empty());
        while i < tagged_files.len()
            invariant
                i <= tagged_files@.len(),
                built_from(tracks@, tagged_files@.take(i as int)),
                first_track_error(tagged_files@.take(i as int)) is None,
            decreases tagged_files@.len() - i,
        {
            let ghost before = tagged_files@.take(i as int);
            let ghost now = tagged_files@.take(i + 1);
            let ghost old_tracks = tracks@;
            assert(now.drop_last() =~= before);
            assert(now.last() == tagged_files@[i as int]);
            match Track::build(&tagged_files[i]) {
                Ok(t) => {
                    tracks.push(t);
                },
                Err(e) => {
                    proof {
                        lemma_first_error_stays(tagged_files@, i + 1);
                    }
                    return Err(e);
                },
            }
            assert(built_from(tracks@, now)) by {
                assert forall|k: int| 0 <= k < now.len() implies track_outcome(#[trigger] now[k])
                    == Ok::<TrackView, BuildError>(tracks@[k]@) by {
                    if k < i {
                        assert(now[k] == before[k]);
                        assert(tracks@[k] == old_tracks[k]);
                    }
                }
            }
            i += 1;
        }
        assert(tagged_files@.take(i as int) =~= tagged_files@);
        let ghost built = tracks@;
        proof {
            lemma_built_tracks(built, tagged_files@);
        }
        let r = Release::aggregate(tracks, tagged_files);
        proof {
            if r is Ok {
                let discs = r->Ok_0.discs@;
                assert forall|d: int|
                    0 <= d < discs.len() && !carries(tagged_files@, (d + 1) as u32) implies (
                #[trigger] discs[d]).tracks@.len() == 0 && discs[d].duration_in_millis == 0 by {
                    lemma_disc_without_files_is_empty(tagged_files@, built, discs, d);
                }
            }
        }
        r
    }

    /// Attaches a link to more information, where one was found; without
    /// one the release stays as it is.
    pub fn attach_reference(&mut self, found: Option<String>)
        ensures
            final(self).mofo == (if found is Some {
                found
            } else {
                old(self).mofo
            }),
            final(self).duration_in_millis == old(self).duration_in_millis,
            final(self).discs == old(self).discs,
            final(self).album_info == old(self).album_info,
            old(self).wf() ==> final(self).wf(),
    {
        if found.is_some() {
            self.mofo = found;
        }
    }
}

/// What tracks built from files have from the files: their number, their
/// disc numbers, of which none is zero, and their durations. So whether the
/// files give a release does not depend on which tracks were built.
pub proof fn lemma_built_tracks(tracks: Seq<Track>, files: Seq<RawTagView>)
    requires
        built_from(tracks, files),
    ensures
        forall|i: int| 0 <= i < tracks.len() ==> (#[trigger] tracks[i]).disc == disc_number(files[i]),
        !has_disc_zero(tracks),
        max_disc(tracks) == greatest_disc(files),
        total_duration(tracks) == source_duration(files),
        first_track_error(files) is None,
        aggregate_error(tracks, files) == release_error(files),
    decreases files.len(),
{
    assert forall|i: int| 0 <= i < tracks.len() implies (#[trigger] tracks[i]).disc
        == disc_number(files[i]) && tracks[i].disc != 0 by {
        assert(track_outcome(files[i]) == Ok::<TrackView, BuildError>(tracks[i]@));
    }
    if files.len() > 0 {
        let n = files.len() - 1;
        let head = files.drop_last();
        assert(built_from(tracks.drop_last(), head)) by {
            assert forall|i: int| 0 <= i < head.len() implies track_outcome(#[trigger] head[i])
                == Ok::<TrackView, BuildError>(tracks.drop_last()[i]@) by {
                assert(head[i] == files[i]);
            }
        }
        lemma_built_tracks(tracks.drop_last(), head);
        assert(track_outcome(files[n]) == Ok::<TrackView, BuildError>(tracks[n]@));
    }
}

/// A disc whose number no file carries has no track and no duration.
pub proof fn lemma_disc_without_files_is_empty(
    files: Seq<RawTagView>,
    tracks: Seq<Track>,
    discs: Seq<Disc>,
    d: int,
)
    requires
        built_from(tracks, files),
        discs_hold(discs, tracks),
        0 <= d < discs.len(),
        !carries(files, (d + 1) as u32),
    ensures
        discs[d].disc == d + 1,
        discs[d].tracks@.len() == 0,
        discs[d].duration_in_millis == 0,
{
    lemma_built_tracks(tracks, files);
    let p = |t: Track| t.disc == (d + 1) as u32;
    assert(tracks.all(|x: Track| !p(x))) by {
        assert forall|i: int| 0 <= i < tracks.len() implies !p(#[trigger] tracks[i]) by {
            assert(disc_number(files[i]) != (d + 1) as u32);
        }
    }
    tracks.lemma_all_neg_filter_empty(p);
    assert(discs[d].tracks@ == tracks.filter(p));
    assert(discs[d].wf());
}

/// Files give a release wherever there is at least one, each has a track
/// number, a title, an artist, a disc number other than zero and a length
/// within 32 bits, the lengths add up within 32 bits, and the last file has
/// album artist, album title and a date.
pub proof fn lemma_complete_files_give_release(files: Seq<RawTagView>)
    requires
        files.len() > 0,
        forall|i: int| 0 <= i < files.len() ==> is_complete(#[trigger] files[i]),
        source_duration(files) <= u32::MAX,
        files.last().tags->Some_0.album_artist is Some,
        files.last().tags->Some_0.album is Some,
        crate::albuminfo::release_date_of(files.last().tags->Some_0) is Some,
    ensures
        release_error(files) is None,
{
    lemma_complete_files_give_tracks(files);
    assert(is_complete(files[files.len() - 1]));
    assert(crate::albuminfo::all_tagged(files)) by {
        assert forall|i: int| 0 <= i < files.len() implies (#[trigger] files[i]).tags is Some by {
            assert(is_complete(files[i]));
        }
    }
}

/// Complete files each give a track.
pub proof fn lemma_complete_files_give_tracks(files: Seq<RawTagView>)
    requires
        forall|i: int| 0 <= i < files.len() ==> is_complete(#[trigger] files[i]),
    ensures
        first_track_error(files) is None,
    decreases files.len(),
{
    if files.len() > 0 {
        let head = files.drop_last();
        assert forall|i: int| 0 <= i < head.len() implies is_complete(#[trigger] head[i]) by {
            assert(head[i] == files[i]);
        }
        lemma_complete_files_give_tracks(head);
        assert(is_complete(files[files.len() - 1]));
    }
}

/// An error among the first `k` files is the error of all files.
pub proof fn lemma_first_error_stays(files: Seq<RawTagView>, k: int)
    requires
        0 <= k <= files.len(),
        first_track_error(files.take(k)) is Some,
    ensures
        first_track_error(files) == first_track_error(files.take(k)),
    decreases files.len(),
{
    if k == files.len() {
        assert(files.take(k) =~= files);
    } else {
        assert(files.drop_last().take(k) =~= files.take(k));
        lemma_first_error_stays(files.drop_last(), k);
    }
}

} // verus!
