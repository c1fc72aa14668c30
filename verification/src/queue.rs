//! The play queue: the order in which tracks play, the track that plays, and
//! the repeat and shuffle switches.

use crate::track::{
    distinct_identities, find_position, first_index, lemma_first_index_found,
    lemma_first_index_of_distinct, TrackRef,
};
use vstd::prelude::*;

verus! {

/// What a queue holds, as contracts speak of it.
pub struct QueueView {
    pub current: Option<TrackRef>,
    pub repeat: bool,
    pub shuffle: bool,
    pub tracks: Seq<TrackRef>,
}

/// The track that follows `current` in `tracks`: the first track where none
/// plays; the track after the playing one; past the last track (or where the
/// playing track is not queued) the first track again if `repeat` is on, and
/// none otherwise.
pub open spec fn track_after(tracks: Seq<TrackRef>, current: Option<TrackRef>, repeat: bool) -> Option<
    TrackRef,
> {
    match current {
        None => if tracks.len() > 0 {
            Some(tracks[0])
        } else {
            None
        },
        Some(track) => {
            let k = first_index(tracks, track.identity());
            if k + 1 < tracks.len() {
                Some(tracks[k + 1])
            } else if repeat && tracks.len() > 0 {
                Some(tracks[0])
            } else {
                None
            }
        },
    }
}

/// The track that precedes `current` in `tracks`: the first track where none
/// plays; the track before the playing one (the last track where the playing
/// one is not queued); before the first track the last track again if
/// `repeat` is on, and none otherwise.
pub open spec fn track_before(tracks: Seq<TrackRef>, current: Option<TrackRef>, repeat: bool) -> Option<
    TrackRef,
> {
    match current {
        None => if tracks.len() > 0 {
            Some(tracks[0])
        } else {
            None
        },
        Some(track) => {
            let k = first_index(tracks, track.identity());
            if k > 0 {
                Some(tracks[k - 1])
            } else if repeat && tracks.len() > 0 {
                Some(tracks.last())
            } else {
                None
            }
        },
    }
}

/// `fastrand::shuffle` on the queued tracks. Claimed: the tracks afterwards
/// are the same tracks, each as often as before; the order that the random
/// generator picks is left open.
#[verifier::external_body]
fn shuffle_tracks(tracks: &mut Vec<TrackRef>)
    ensures
        final(tracks)@.len() == old(tracks)@.len(),
        final(tracks)@.to_multiset() == old(tracks)@.to_multiset(),
{
    fastrand::shuffle(tracks.as_mut_slice())
}

/// The tracks in the order in which they play.
#[derive(Debug)]
pub struct Queue {
    current: Option<TrackRef>,
    repeat: bool,
    shuffle: bool,
    tracks: Vec<TrackRef>,
}

impl View for Queue {
    type V = QueueView;

    closed spec fn view(&self) -> QueueView {
        QueueView {
            current: self.current,
            repeat: self.repeat,
            shuffle: self.shuffle,
            tracks: self.tracks@,
        }
    }
}

impl Queue {
    /// An empty queue with repeat and shuffle off.
    pub fn new() -> (queue: Queue)
        ensures
            queue@.current is None,
            !queue@.repeat,
            !queue@.shuffle,
            queue@.tracks.len() == 0,
    {
        Queue { current: None, repeat: false, shuffle: false, tracks: Vec::new() }
    }

    pub fn current(&self) -> (current: Option<&TrackRef>)
        ensures
            current is Some <==> self@.current is Some,
            current matches Some(track) ==> self@.current == Some(*track),
    {
        self.current.as_ref()
    }

    /// Queues `tracks` after the queued ones; with shuffle on, shuffles the
    /// whole queue afterwards.
    pub fn extend(&mut self, tracks: Vec<TrackRef>)
        ensures
            !old(self)@.shuffle ==> final(self)@.tracks == old(self)@.tracks + tracks@,
            final(self)@.tracks.to_multiset() == (old(self)@.tracks + tracks@).to_multiset(),
            final(self)@.tracks.len() == old(self)@.tracks.len() + tracks@.len(),
            final(self)@.current == old(self)@.current,
            final(self)@.repeat == old(self)@.repeat,
            final(self)@.shuffle == old(self)@.shuffle,
    {
        let mut tracks = tracks;
        self.tracks.append(&mut tracks);
        if self.shuffle {
            shuffle_tracks(&mut self.tracks);
        }
    }

    /// Moves to the track after the playing one and returns it; where there
    /// is none, nothing changes and nothing is returned.
    pub fn next(&mut self) -> (track: Option<&TrackRef>)
        ensures
            track is Some <==> track_after(old(self)@.tracks, old(self)@.current, old(self)@.repeat) is Some,
            track matches Some(found) ==> Some(*found) == track_after(
                old(self)@.tracks,
                old(self)@.current,
                old(self)@.repeat,
            ),
            final(self)@ == (QueueView {
                current: match track_after(old(self)@.tracks, old(self)@.current, old(self)@.repeat) {
                    Some(found) => Some(found),
                    None => old(self)@.current,
                },
                ..old(self)@
            }),
    {
        let found = match &self.current {
            None => if self.tracks.len() > 0 {
                Some(self.tracks[0].clone())
            } else {
                None
            },
            Some(current) => {
                let k = find_position(self.tracks.as_slice(), current.id());
                if k < self.tracks.len() && k + 1 < self.tracks.len() {
                    Some(self.tracks[k + 1].clone())
                } else if self.repeat && self.tracks.len() > 0 {
                    Some(self.tracks[0].clone())
                } else {
                    None
                }
            },
        };
        match found {
            Some(track) => {
                self.current = Some(track);
                self.current.as_ref()
            },
            None => None,
        }
    }

    /// Moves to the track before the playing one and returns it; where there
    /// is none, nothing changes and nothing is returned.
    pub fn previous(&mut self) -> (track: Option<&TrackRef>)
        ensures
            track is Some <==> track_before(old(self)@.tracks, old(self)@.current, old(self)@.repeat) is Some,
            track matches Some(found) ==> Some(*found) == track_before(
                old(self)@.tracks,
                old(self)@.current,
                old(self)@.repeat,
            ),
            final(self)@ == (QueueView {
                current: match track_before(old(self)@.tracks, old(self)@.current, old(self)@.repeat) {
                    Some(found) => Some(found),
                    None => old(self)@.current,
                },
                ..old(self)@
            }),
    {
        let found = match &self.current {
            None => if self.tracks.len() > 0 {
                Some(self.tracks[0].clone())
            } else {
                None
            },
            Some(current) => {
                let k = find_position(self.tracks.as_slice(), current.id());
                if k > 0 {
                    Some(self.tracks[k - 1].clone())
                } else if self.repeat && self.tracks.len() > 0 {
                    Some(self.tracks[self.tracks.len() - 1].clone())
                } else {
                    None
                }
            },
        };
        match found {
            Some(track) => {
                self.current = Some(track);
                self.current.as_ref()
            },
            None => None,
        }
    }

    pub fn repeat(&self) -> (repeat: bool)
        ensures
            repeat == self@.repeat,
    {
        self.repeat
    }

    pub fn repeat_disable(&mut self)
        ensures
            final(self)@ == (QueueView { repeat: false, ..old(self)@ }),
    {
        self.repeat = false;
    }

    pub fn repeat_enable(&mut self)
        ensures
            final(self)@ == (QueueView { repeat: true, ..old(self)@ }),
    {
        self.repeat = true;
    }

    /// Makes `track` the playing track.
    pub fn set_current(&mut self, track: &TrackRef)
        ensures
            final(self)@ == (QueueView { current: Some(*track), ..old(self)@ }),
    {
        self.current = Some(track.clone());
    }

    /// Turns repeat on or off.
    pub fn set_repeat(&mut self, repeat: bool)
        ensures
            final(self)@ == (QueueView { repeat: repeat, ..old(self)@ }),
    {
        self.repeat = repeat;
    }

    /// Turns shuffle on, which shuffles the queue, or off, which keeps the
    /// order that the queue has.
    pub fn set_shuffle(&mut self, shuffle: bool)
        ensures
            final(self)@.shuffle == shuffle,
            final(self)@.current == old(self)@.current,
            final(self)@.repeat == old(self)@.repeat,
            final(self)@.tracks.len() == old(self)@.tracks.len(),
            final(self)@.tracks.to_multiset() == old(self)@.tracks.to_multiset(),
            !shuffle ==> final(self)@.tracks == old(self)@.tracks,
    {
        if shuffle {
            self.shuffle_enable();
        } else {
            self.shuffle = false;
        }
    }

    pub fn shuffle(&self) -> (shuffle: bool)
        ensures
            shuffle == self@.shuffle,
    {
        self.shuffle
    }

    /// Turns shuffle off and queues `tracks` in their order in place of the
    /// shuffled queue.
    pub fn shuffle_disable(&mut self, tracks: &[TrackRef])
        ensures
            final(self)@ == (QueueView { shuffle: false, tracks: tracks@, ..old(self)@ }),
    {
        self.shuffle = false;
        let mut ordered: Vec<TrackRef> = Vec::new();
        let mut i: usize = 0;
        while i < tracks.len()
            invariant
                i <= tracks@.len(),
                ordered@ == tracks@.take(i as int),
            decreases tracks.len() - i,
        {
            ordered.push(tracks[i].clone());
            proof {
                assert(tracks@.take(i + 1) =~= tracks@.take(i as int).push(tracks@[i as int]));
            }
            i += 1;
        }
        proof {
            assert(tracks@.take(tracks@.len() as int) =~= tracks@);
        }
        self.tracks = ordered;
    }

    /// Turns shuffle on and shuffles the queue.
    pub fn shuffle_enable(&mut self)
        ensures
            final(self)@.shuffle,
            final(self)@.current == old(self)@.current,
            final(self)@.repeat == old(self)@.repeat,
            final(self)@.tracks.len() == old(self)@.tracks.len(),
            final(self)@.tracks.to_multiset() == old(self)@.tracks.to_multiset(),
    {
        self.shuffle = true;
        shuffle_tracks(&mut self.tracks);
    }

    pub fn tracks(&self) -> (tracks: &[TrackRef])
        ensures
            tracks@ == self@.tracks,
    {
        self.tracks.as_slice()
    }
}

impl Default for Queue {
    fn default() -> (queue: Self)
        ensures
            queue@.current is None,
            !queue@.repeat,
            !queue@.shuffle,
            queue@.tracks.len() == 0,
    {
        Queue::new()
    }
}

/// Going back after going forward returns to the track that played, where no
/// track is queued twice and the playing track is queued but not last.
pub proof fn lemma_previous_undoes_next(tracks: Seq<TrackRef>, current: TrackRef, repeat: bool)
    requires
        distinct_identities(tracks),
        first_index(tracks, current.identity()) + 1 < tracks.len(),
    ensures
        ({
            let k = first_index(tracks, current.identity());
            &&& track_before(tracks, track_after(tracks, Some(current), repeat), repeat) == Some(tracks[k])
            &&& tracks[k].identity() == current.identity()
        }),
{
    let k = first_index(tracks, current.identity());
    lemma_first_index_found(tracks, current.identity());
    lemma_first_index_of_distinct(tracks, k + 1);
}

/// Going forward after going back returns to the track that played, where no
/// track is queued twice and the playing track is queued but not first.
pub proof fn lemma_next_undoes_previous(tracks: Seq<TrackRef>, current: TrackRef, repeat: bool)
    requires
        distinct_identities(tracks),
        0 < first_index(tracks, current.identity()) < tracks.len(),
    ensures
        ({
            let k = first_index(tracks, current.identity());
            &&& track_after(tracks, track_before(tracks, Some(current), repeat), repeat) == Some(tracks[k])
            &&& tracks[k].identity() == current.identity()
        }),
{
    let k = first_index(tracks, current.identity());
    lemma_first_index_found(tracks, current.identity());
    lemma_first_index_of_distinct(tracks, k - 1);
}

/// With repeat on, the queue runs round: after the last track comes the
/// first, and before the first comes the last.
pub proof fn lemma_repeat_wraps_around(tracks: Seq<TrackRef>)
    requires
        distinct_identities(tracks),
        tracks.len() > 0,
    ensures
        track_after(tracks, Some(tracks.last()), true) == Some(tracks[0]),
        track_before(tracks, Some(tracks[0]), true) == Some(tracks.last()),
{
    lemma_first_index_of_distinct(tracks, tracks.len() - 1);
    lemma_first_index_of_distinct(tracks, 0);
}

} // verus!
