//! One disc of a release.

use crate::track::{total_duration, Track};
use vstd::prelude::*;

verus! {

/// A disc: its number, its tracks in the order in which they were added,
/// and the sum of their durations.
#[derive(Debug)]
pub struct Disc {
    pub duration_in_millis: u32,
    pub disc: u32,
    pub tracks: Vec<Track>,
}

impl Disc {
    /// The duration is the sum of the tracks' durations.
    pub open spec fn wf(&self) -> bool {
        self.duration_in_millis as nat == total_duration(self.tracks@)
    }

    /// A disc without tracks.
    pub fn new(number: u32) -> (r: Disc)
        ensures
            r.disc == number,
            r.duration_in_millis == 0,
            r.tracks@ == Seq::<Track>::empty(),
            r.wf(),
    {
        Disc { duration_in_millis: 0, disc: number, tracks: Vec::new() }
    }

    /// Appends a track and adds its duration to the disc's.
    pub fn add_track(&mut self, track: Track) -> (r: &mut Self)
        requires
            old(self).duration_in_millis + track.duration_in_millis <= u32::MAX,
        ensures
            r.duration_in_millis == old(self).duration_in_millis + track.duration_in_millis,
            r.disc == old(self).disc,
            r.tracks@ == old(self).tracks@.push(track),
            old(self).wf() ==> r.wf(),
            *final(self) == *final(r),
    {
        self.duration_in_millis += track.duration_in_millis;
        self.tracks.push(track);
        assert(self.tracks@.drop_last() =~= old(self).tracks@);
        self
    }
}

} // verus!
