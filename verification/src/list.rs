//! The track library as the player shows it: every track that was added, the
//! tracks that match the search, the track that plays and the track that the
//! keyboard has selected.

use crate::search::{
    asks_nothing, fuzzy_score, haystack, is_ranking, lemma_ranking_best_first,
    lemma_ranking_distinct, lemma_ranking_of_equal_scores, rank, scores_for, track_scores,
};
use crate::track::{
    distinct_identities, find_position, first_index, lemma_first_index_found,
    lemma_first_index_of_distinct, Track, TrackRef,
};
use vstd::prelude::*;

verus! {

/// No two tracks of `tracks` lie at the same path.
pub open spec fn distinct_paths(tracks: Seq<TrackRef>) -> bool {
    forall|k: int, l: int|
        0 <= k < l < tracks.len() ==> (#[trigger] tracks[k]).content().path@ != (#[trigger] tracks[l]).content().path@
}

/// No two of the tracks offered lie at the same path.
pub open spec fn distinct_offered_paths(tracks: Seq<Track>) -> bool {
    forall|k: int, l: int| 0 <= k < l < tracks.len() ==> (#[trigger] tracks[k]).path@ != (#[trigger] tracks[l]).path@
}

/// What a list holds, as contracts speak of it.
pub struct ListView {
    pub current: Option<TrackRef>,
    pub matching: Seq<TrackRef>,
    pub search_query: Seq<char>,
    pub selected: Option<TrackRef>,
    pub tracks: Seq<TrackRef>,
}

/// Whether some track among `known` lies at `path`.
pub open spec fn has_path(known: Seq<TrackRef>, path: Seq<u8>) -> bool {
    exists|k: int| 0 <= k < known.len() && (#[trigger] known[k]).content().path@ == path
}

/// The tracks of `tracks`, in their order, whose path is not among `known`.
pub open spec fn unseen(tracks: Seq<Track>, known: Seq<TrackRef>) -> Seq<Track>
    decreases tracks.len(),
{
    if tracks.len() == 0 {
        Seq::empty()
    } else {
        let rest = unseen(tracks.drop_last(), known);
        if has_path(known, tracks.last().path@) {
            rest
        } else {
            rest.push(tracks.last())
        }
    }
}

/// The track that moving the selection down picks: the first match where
/// nothing is selected, the match after the selected track, or the selected
/// track itself where it is the last match or no match at all.
pub open spec fn selection_after(matching: Seq<TrackRef>, selected: Option<TrackRef>) -> Option<
    TrackRef,
> {
    match selected {
        None => if matching.len() > 0 {
            Some(matching[0])
        } else {
            None
        },
        Some(track) => {
            let k = first_index(matching, track.identity());
            if k + 1 < matching.len() {
                Some(matching[k + 1])
            } else {
                Some(track)
            }
        },
    }
}

/// The track that moving the selection up picks: the first match where
/// nothing is selected, the match before the selected track (the last match
/// where the selected track does not match), or the selected track itself
/// where it is the first match or nothing matches.
pub open spec fn selection_before(matching: Seq<TrackRef>, selected: Option<TrackRef>) -> Option<
    TrackRef,
> {
    match selected {
        None => if matching.len() > 0 {
            Some(matching[0])
        } else {
            None
        },
        Some(track) => {
            let k = first_index(matching, track.identity());
            if k > 0 {
                Some(matching[k - 1])
            } else {
                Some(track)
            }
        },
    }
}

/// Whether two paths are the same bytes.
fn same_bytes(first: &Vec<u8>, second: &Vec<u8>) -> (same: bool)
    ensures
        same == (first@ == second@),
{
    if first.len() != second.len() {
        return false;
    }
    let mut i: usize = 0;
    while i < first.len()
        invariant
            first@.len() == second@.len(),
            i <= first@.len(),
            forall|j: int| 0 <= j < i ==> first@[j] == second@[j],
        decreases first.len() - i,
    {
        if first[i] != second[i] {
            return false;
        }
        i += 1;
    }
    assert(first@ =~= second@);
    true
}

/// The tracks, the search and the selection of the player.
#[derive(Debug)]
pub struct List {
    current: Option<TrackRef>,
    matching: Vec<TrackRef>,
    search_query: String,
    selected: Option<TrackRef>,
    tracks: Vec<TrackRef>,
}

impl View for List {
    type V = ListView;

    closed spec fn view(&self) -> ListView {
        ListView {
            current: self.current,
            matching: self.matching@,
            search_query: self.search_query@,
            selected: self.selected,
            tracks: self.tracks@,
        }
    }
}

impl List {
    /// Every track knows its position in the list, and the matching tracks
    /// are the ranking of all tracks for the search query.
    pub open spec fn wf(&self) -> bool {
        &&& forall|j: int| 0 <= j < self@.tracks.len() ==> #[trigger] self@.tracks[j].identity() == j
        &&& is_ranking(
            self@.tracks,
            track_scores(self@.search_query, self@.tracks),
            self@.matching,
        )
    }

    /// An empty list with an empty search.
    pub fn new() -> (list: List)
        ensures
            list.wf(),
            list@.current is None,
            list@.selected is None,
            list@.tracks.len() == 0,
            list@.matching.len() == 0,
            list@.search_query.len() == 0,
    {
        let list = List {
            current: None,
            matching: Vec::new(),
            search_query: String::new(),
            selected: None,
            tracks: Vec::new(),
        };
        proof {
            let order = Seq::<int>::empty();
            assert(order.map_values(|j: int| list@.tracks[j]) =~= list@.matching);
            assert(crate::search::is_ranked_order(
                track_scores(list@.search_query, list@.tracks),
                order,
            ));
        }
        list
    }

    /// Ranks the tracks anew for the search query.
    fn refresh_matching(&mut self)
        requires
            forall|j: int|
                0 <= j < old(self)@.tracks.len() ==> #[trigger] old(self)@.tracks[j].identity() == j,
        ensures
            final(self).wf(),
            final(self)@.tracks == old(self)@.tracks,
            final(self)@.search_query == old(self)@.search_query,
            final(self)@.current == old(self)@.current,
            final(self)@.selected == old(self)@.selected,
            asks_nothing(old(self)@.search_query) ==> final(self)@.matching == old(self)@.tracks,
    {
        let scores = scores_for(self.search_query.as_str(), &self.tracks);
        self.matching = rank(&self.tracks, &scores);
        proof {
            assert(self@.tracks == old(self)@.tracks);
            assert(is_ranking(self@.tracks, track_scores(self@.search_query, self@.tracks), self@.matching));
            if asks_nothing(self@.search_query) {
                lemma_ranking_of_equal_scores(self@.tracks, scores@, self@.matching, 0);
            }
        }
    }

    pub fn current(&self) -> (current: Option<&TrackRef>)
        ensures
            current is Some <==> self@.current is Some,
            current matches Some(track) ==> self@.current == Some(*track),
    {
        self.current.as_ref()
    }

    /// Adds the tracks whose path the list does not hold yet, in their order,
    /// ranks the tracks anew, and returns the tracks it added.
    pub fn extend(&mut self, tracks: Vec<Track>) -> (added: Vec<TrackRef>)
        requires
            old(self).wf(),
            old(self)@.tracks.len() + tracks@.len() <= usize::MAX,
        ensures
            final(self).wf(),
            added@.len() == unseen(tracks@, old(self)@.tracks).len(),
            forall|k: int|
                0 <= k < added@.len() ==> (#[trigger] added@[k]).identity() == old(self)@.tracks.len() + k && added@[k].content() == unseen(tracks@, old(self)@.tracks)[k],
            final(self)@.tracks == old(self)@.tracks + added@,
            is_ranking(
                final(self)@.tracks,
                track_scores(final(self)@.search_query, final(self)@.tracks),
                final(self)@.matching,
            ),
            final(self)@.search_query == old(self)@.search_query,
            final(self)@.current == old(self)@.current,
            final(self)@.selected == old(self)@.selected,
            asks_nothing(final(self)@.search_query) ==> final(self)@.matching == final(self)@.tracks,
    {
        let ghost known = self@.tracks;
        let known_len = self.tracks.len();
        let mut added: Vec<TrackRef> = Vec::new();
        for track in it: tracks.into_iter()
            invariant
                known_len == known.len(),
                self@.tracks == known + added@,
                self@.search_query == old(self)@.search_query,
                self@.current == old(self)@.current,
                self@.selected == old(self)@.selected,
                forall|j: int| 0 <= j < self@.tracks.len() ==> #[trigger] self@.tracks[j].identity() == j,
                it.seq() == tracks@,
                known.len() + tracks@.len() <= usize::MAX,
                added@.len() == unseen(tracks@.take(it.index() as int), known).len(),
                added@.len() <= it.index(),
                forall|k: int| 0 <= k < added@.len() ==> (#[trigger] added@[k]).identity() == known.len() + k,
                forall|k: int|
                    0 <= k < added@.len() ==> (#[trigger] added@[k]).content() == unseen(
                        tracks@.take(it.index() as int),
                        known,
                    )[k],
        {
            let ghost before = tracks@.take(it.index() as int);
            proof {
                assert(tracks@.take(it.index() + 1).drop_last() =~= before);
                assert(tracks@.take(it.index() + 1).last() == track);
            }
            let mut known_path = false;
            let mut k: usize = 0;
            while k < known_len
                invariant
                    known_len == known.len(),
                    k <= known_len,
                    self@.tracks == known + added@,
                    known_path <==> exists|j: int| 0 <= j < k && (#[trigger] known[j]).content().path@
                        == track.path@,
                decreases known_len - k,
            {
                if same_bytes(&self.tracks[k].track().path, &track.path) {
                    known_path = true;
                }
                proof {
                    if self.tracks@[k as int].content().path@ == track.path@ {
                        assert(known[k as int].content().path@ == track.path@);
                    }
                }
                k += 1;
            }
            if !known_path {
                let id = self.tracks.len();
                let track_ref = TrackRef::new(id, track);
                self.tracks.push(track_ref.clone());
                added.push(track_ref);
            }
        }
        proof {
            assert(tracks@.take(tracks@.len() as int) =~= tracks@);
        }
        self.refresh_matching();
        added
    }

    pub fn matching(&self) -> (matching: &[TrackRef])
        ensures
            matching@ == self@.matching,
    {
        self.matching.as_slice()
    }

    /// Searches for `query`: the matching tracks become the ranking of all
    /// tracks for it.
    pub fn search(&mut self, query: String)
        requires
            old(self).wf(),
        ensures
            final(self).wf(),
            final(self)@.search_query == query@,
            is_ranking(
                final(self)@.tracks,
                track_scores(query@, final(self)@.tracks),
                final(self)@.matching,
            ),
            final(self)@.tracks == old(self)@.tracks,
            final(self)@.current == old(self)@.current,
            final(self)@.selected == old(self)@.selected,
            asks_nothing(query@) ==> final(self)@.matching == final(self)@.tracks,
    {
        self.search_query = query;
        self.refresh_matching();
    }

    pub fn search_query(&self) -> (search_query: &str)
        ensures
            search_query@ == self@.search_query,
    {
        self.search_query.as_str()
    }

    /// Moves the selection down the matching tracks.
    pub fn select_next(&mut self)
        requires
            old(self).wf(),
        ensures
            final(self).wf(),
            final(self)@ == (ListView {
                selected: selection_after(old(self)@.matching, old(self)@.selected),
                ..old(self)@
            }),
    {
        let next = match &self.selected {
            None => if self.matching.len() > 0 {
                Some(self.matching[0].clone())
            } else {
                None
            },
            Some(selected) => {
                let k = find_position(self.matching.as_slice(), selected.id());
                if k < self.matching.len() && k + 1 < self.matching.len() {
                    Some(self.matching[k + 1].clone())
                } else {
                    Some(selected.clone())
                }
            },
        };
        self.selected = next;
    }

    /// Moves the selection up the matching tracks.
    pub fn select_previous(&mut self)
        requires
            old(self).wf(),
        ensures
            final(self).wf(),
            final(self)@ == (ListView {
                selected: selection_before(old(self)@.matching, old(self)@.selected),
                ..old(self)@
            }),
    {
        let previous = match &self.selected {
            None => if self.matching.len() > 0 {
                Some(self.matching[0].clone())
            } else {
                None
            },
            Some(selected) => {
                let k = find_position(self.matching.as_slice(), selected.id());
                if k > 0 {
                    Some(self.matching[k - 1].clone())
                } else {
                    Some(selected.clone())
                }
            },
        };
        self.selected = previous;
    }

    pub fn selected(&self) -> (selected: Option<&TrackRef>)
        ensures
            selected is Some <==> self@.selected is Some,
            selected matches Some(track) ==> self@.selected == Some(*track),
    {
        self.selected.as_ref()
    }

    /// Makes `track` both the playing and the selected track.
    pub fn set_current_and_selected(&mut self, track: &TrackRef)
        requires
            old(self).wf(),
        ensures
            final(self).wf(),
            final(self)@ == (ListView {
                current: Some(*track),
                selected: Some(*track),
                ..old(self)@
            }),
    {
        self.current = Some(track.clone());
        self.selected = Some(track.clone());
    }

    pub fn tracks(&self) -> (tracks: &[TrackRef])
        ensures
            tracks@ == self@.tracks,
    {
        self.tracks.as_slice()
    }
}

impl Default for List {
    fn default() -> (list: Self)
        ensures
            list.wf(),
            list@.current is None,
            list@.selected is None,
            list@.tracks.len() == 0,
            list@.matching.len() == 0,
            list@.search_query.len() == 0,
    {
        List::new()
    }
}

/// The matching tracks are tracks of the list, and none of them twice.
pub proof fn lemma_matching_holds_list_tracks(list: List)
    requires
        list.wf(),
    ensures
        distinct_identities(list@.matching),
        forall|k: int|
            0 <= k < list@.matching.len() ==> 0 <= #[trigger] list@.matching[k].identity()
                < list@.tracks.len() && list@.matching[k] == list@.tracks[list@.matching[k].identity() as int],
{
    lemma_ranking_distinct(
        list@.tracks,
        track_scores(list@.search_query, list@.tracks),
        list@.matching,
    );
}

/// Moving the selection up after moving it down returns to the selected
/// track, where it matches and is not the last match.
pub proof fn lemma_select_previous_undoes_select_next(list: List)
    requires
        list.wf(),
        list@.selected is Some,
        first_index(list@.matching, list@.selected->0.identity()) + 1 < list@.matching.len(),
    ensures
        ({
            let k = first_index(list@.matching, list@.selected->0.identity());
            &&& selection_before(list@.matching, selection_after(list@.matching, list@.selected))
                == Some(list@.matching[k])
            &&& list@.matching[k].identity() == list@.selected->0.identity()
        }),
{
    let k = first_index(list@.matching, list@.selected->0.identity());
    lemma_matching_holds_list_tracks(list);
    lemma_first_index_found(list@.matching, list@.selected->0.identity());
    lemma_first_index_of_distinct(list@.matching, k + 1);
}

/// Moving the selection down after moving it up returns to the selected
/// track, where it matches and is not the first match.
pub proof fn lemma_select_next_undoes_select_previous(list: List)
    requires
        list.wf(),
        list@.selected is Some,
        0 < first_index(list@.matching, list@.selected->0.identity()) < list@.matching.len(),
    ensures
        ({
            let k = first_index(list@.matching, list@.selected->0.identity());
            &&& selection_after(list@.matching, selection_before(list@.matching, list@.selected))
                == Some(list@.matching[k])
            &&& list@.matching[k].identity() == list@.selected->0.identity()
        }),
{
    let k = first_index(list@.matching, list@.selected->0.identity());
    lemma_matching_holds_list_tracks(list);
    lemma_first_index_found(list@.matching, list@.selected->0.identity());
    lemma_first_index_of_distinct(list@.matching, k - 1);
}

/// No track that extending adds lies at a path that the list already held.
pub proof fn lemma_added_paths_are_new(tracks: Seq<Track>, known: Seq<TrackRef>)
    ensures
        forall|k: int|
            0 <= k < unseen(tracks, known).len() ==> !has_path(
                known,
                (#[trigger] unseen(tracks, known)[k]).path@,
            ),
    decreases tracks.len(),
{
    if tracks.len() > 0 {
        lemma_added_paths_are_new(tracks.drop_last(), known);
    }
}

/// Each track offered either lies at a path already known or is added.
proof fn lemma_offered_tracks_are_kept(tracks: Seq<Track>, known: Seq<TrackRef>)
    ensures
        forall|i: int|
            0 <= i < tracks.len() ==> has_path(known, (#[trigger] tracks[i]).path@) || unseen(
                tracks,
                known,
            ).contains(tracks[i]),
    decreases tracks.len(),
{
    if tracks.len() > 0 {
        let rest = tracks.drop_last();
        lemma_offered_tracks_are_kept(rest, known);
        assert forall|i: int|
            0 <= i < tracks.len() implies has_path(known, (#[trigger] tracks[i]).path@) || unseen(
            tracks,
            known,
        ).contains(tracks[i]) by {
            if i < tracks.len() - 1 {
                assert(tracks[i] == rest[i]);
                if !has_path(known, tracks[i].path@) {
                    let k = choose|k: int|
                        0 <= k < unseen(rest, known).len() && unseen(rest, known)[k] == rest[i];
                    assert(unseen(tracks, known)[k] == tracks[i]);
                }
            } else if !has_path(known, tracks[i].path@) {
                assert(unseen(tracks, known).last() == tracks[i]);
            }
        }
    }
}

/// Where every track offered lies at a path that the list already holds,
/// extending adds nothing.
pub proof fn lemma_known_paths_add_nothing(tracks: Seq<Track>, known: Seq<TrackRef>)
    requires
        forall|i: int| 0 <= i < tracks.len() ==> has_path(known, (#[trigger] tracks[i]).path@),
    ensures
        unseen(tracks, known).len() == 0,
    decreases tracks.len(),
{
    if tracks.len() > 0 {
        let rest = tracks.drop_last();
        assert forall|i: int| 0 <= i < rest.len() implies has_path(known, (#[trigger] rest[i]).path@) by {
            assert(rest[i] == tracks[i]);
        }
        lemma_known_paths_add_nothing(rest, known);
        assert(has_path(known, tracks[tracks.len() - 1].path@));
    }
}

/// Offering the same tracks a second time adds nothing: after the tracks that
/// the first time added, every path offered is known.
pub proof fn lemma_extend_again_adds_nothing(
    tracks: Seq<Track>,
    known: Seq<TrackRef>,
    added: Seq<TrackRef>,
)
    requires
        added.len() == unseen(tracks, known).len(),
        forall|k: int| 0 <= k < added.len() ==> (#[trigger] added[k]).content() == unseen(tracks, known)[k],
    ensures
        unseen(tracks, known + added).len() == 0,
{
    lemma_offered_tracks_are_kept(tracks, known);
    let all = known + added;
    assert forall|i: int| 0 <= i < tracks.len() implies has_path(all, (#[trigger] tracks[i]).path@) by {
        if has_path(known, tracks[i].path@) {
            let k = choose|k: int| 0 <= k < known.len() && (#[trigger] known[k]).content().path@ == tracks[i].path@;
            assert(all[k] == known[k]);
        } else {
            let k = choose|k: int| 0 <= k < unseen(tracks, known).len() && unseen(tracks, known)[k] == tracks[i];
            assert(all[known.len() + k] == added[k]);
            assert(added[k].content() == tracks[i]);
        }
    }
    lemma_known_paths_add_nothing(tracks, all);
}

/// Each track that extending adds is one of the tracks offered.
proof fn lemma_unseen_are_offered(tracks: Seq<Track>, known: Seq<TrackRef>)
    ensures
        forall|k: int|
            0 <= k < unseen(tracks, known).len() ==> exists|i: int|
                0 <= i < tracks.len() && tracks[i] == #[trigger] unseen(tracks, known)[k],
    decreases tracks.len(),
{
    if tracks.len() > 0 {
        let rest = tracks.drop_last();
        lemma_unseen_are_offered(rest, known);
        assert forall|k: int| 0 <= k < unseen(tracks, known).len() implies exists|i: int|
            0 <= i < tracks.len() && tracks[i] == #[trigger] unseen(tracks, known)[k] by {
            if k < unseen(rest, known).len() {
                assert(unseen(tracks, known)[k] == unseen(rest, known)[k]);
                let i = choose|i: int| 0 <= i < rest.len() && rest[i] == unseen(rest, known)[k];
                assert(tracks[i] == rest[i]);
            } else {
                assert(tracks[tracks.len() - 1] == unseen(tracks, known)[k]);
            }
        }
    }
}

/// Offered tracks at distinct paths leave the added tracks at distinct paths.
proof fn lemma_unseen_paths_distinct(tracks: Seq<Track>, known: Seq<TrackRef>)
    requires
        distinct_offered_paths(tracks),
    ensures
        forall|k: int, l: int|
            0 <= k < l < unseen(tracks, known).len() ==> (#[trigger] unseen(tracks, known)[k]).path@
                != (#[trigger] unseen(tracks, known)[l]).path@,
    decreases tracks.len(),
{
    if tracks.len() > 0 {
        let rest = tracks.drop_last();
        assert forall|k: int, l: int| 0 <= k < l < rest.len() implies (#[trigger] rest[k]).path@
            != (#[trigger] rest[l]).path@ by {
            assert(rest[k] == tracks[k] && rest[l] == tracks[l]);
        }
        lemma_unseen_paths_distinct(rest, known);
        lemma_unseen_are_offered(rest, known);
        let all = unseen(tracks, known);
        let part = unseen(rest, known);
        assert forall|k: int, l: int| 0 <= k < l < all.len() implies (#[trigger] all[k]).path@
            != (#[trigger] all[l]).path@ by {
            assert(all[k] == part[k]);
            if l < part.len() {
                assert(all[l] == part[l]);
            } else {
                let i = choose|i: int| 0 <= i < rest.len() && rest[i] == part[k];
                assert(tracks[i] == rest[i]);
                assert(all[l] == tracks[tracks.len() - 1]);
            }
        }
    }
}

/// Extending a list whose tracks lie at distinct paths with tracks that lie
/// at distinct paths leaves the list's tracks at distinct paths.
pub proof fn lemma_extend_keeps_paths_distinct(
    tracks: Seq<Track>,
    known: Seq<TrackRef>,
    added: Seq<TrackRef>,
)
    requires
        distinct_paths(known),
        distinct_offered_paths(tracks),
        added.len() == unseen(tracks, known).len(),
        forall|k: int| 0 <= k < added.len() ==> (#[trigger] added[k]).content() == unseen(tracks, known)[k],
    ensures
        distinct_paths(known + added),
{
    lemma_added_paths_are_new(tracks, known);
    lemma_unseen_paths_distinct(tracks, known);
    let all = known + added;
    let fresh = unseen(tracks, known);
    assert forall|k: int, l: int| 0 <= k < l < all.len() implies (#[trigger] all[k]).content().path@
        != (#[trigger] all[l]).content().path@ by {
        if l < known.len() {
            assert(all[k] == known[k] && all[l] == known[l]);
        } else if k < known.len() {
            let m = l - known.len();
            assert(all[l] == added[m]);
            assert(added[m].content() == fresh[m]);
            assert(!has_path(known, fresh[m].path@));
            assert(all[k] == known[k]);
        } else {
            assert(all[k] == added[k - known.len()] && all[l] == added[l - known.len()]);
            assert(added[k - known.len()].content() == fresh[k - known.len()]);
            assert(added[l - known.len()].content() == fresh[l - known.len()]);
        }
    }
}

/// The matching tracks of a list are those of its tracks that the fuzzy
/// search finds, best first: each has a score for the search query, each
/// track with a score is among them, an earlier one never scores lower than
/// a later one, and of two that score the same the one added first comes
/// first.
pub proof fn lemma_matching_best_first(list: List)
    requires
        list.wf(),
    ensures
        forall|k: int|
            0 <= k < list@.matching.len() ==> fuzzy_score(
                list@.search_query,
                haystack(#[trigger] list@.matching[k].content()),
            ) is Some,
        forall|k: int, l: int|
            0 <= k < l < list@.matching.len() ==> fuzzy_score(
                list@.search_query,
                haystack(#[trigger] list@.matching[k].content()),
            )->0 >= fuzzy_score(list@.search_query, haystack(#[trigger] list@.matching[l].content()))->0,
        forall|j: int|
            0 <= j < list@.tracks.len() && fuzzy_score(
                list@.search_query,
                haystack(#[trigger] list@.tracks[j].content()),
            ) is Some ==> list@.matching.contains(list@.tracks[j]),
        forall|k: int, l: int|
            0 <= k < l < list@.matching.len() && fuzzy_score(
                list@.search_query,
                haystack(#[trigger] list@.matching[k].content()),
            ) == fuzzy_score(list@.search_query, haystack(#[trigger] list@.matching[l].content()))
                ==> list@.matching[k].identity() < list@.matching[l].identity(),
{
    lemma_ranking_best_first(list@.search_query, list@.tracks, list@.matching);
}

/// Extending skips a track only for its very path: a track offered whose
/// path, byte for byte, no held track has is added, no track added has the
/// path of a held track, and a track whose path a held track has is not added.
pub proof fn lemma_extend_skips_exactly_held_paths(tracks: Seq<Track>, known: Seq<TrackRef>)
    ensures
        forall|i: int|
            0 <= i < tracks.len() && (forall|k: int|
                0 <= k < known.len() ==> (#[trigger] known[k]).content().path@ != tracks[i].path@)
                ==> unseen(tracks, known).contains(#[trigger] tracks[i]),
        forall|m: int, k: int|
            0 <= m < unseen(tracks, known).len() && 0 <= k < known.len() ==> (#[trigger] known[k]).content().path@
                != (#[trigger] unseen(tracks, known)[m]).path@,
        forall|i: int, k: int|
            0 <= i < tracks.len() && 0 <= k < known.len() && (#[trigger] known[k]).content().path@
                == (#[trigger] tracks[i]).path@ ==> !unseen(tracks, known).contains(tracks[i]),
{
    lemma_offered_tracks_are_kept(tracks, known);
    lemma_added_paths_are_new(tracks, known);
    let fresh = unseen(tracks, known);
    assert forall|i: int|
        0 <= i < tracks.len() && (forall|k: int|
            0 <= k < known.len() ==> (#[trigger] known[k]).content().path@ != tracks[i].path@)
        implies fresh.contains(#[trigger] tracks[i]) by {
        if has_path(known, tracks[i].path@) {
            let k = choose|k: int| 0 <= k < known.len() && (#[trigger] known[k]).content().path@ == tracks[i].path@;
            assert(known[k].content().path@ != tracks[i].path@);
        }
    }
    assert forall|m: int, k: int|
        0 <= m < fresh.len() && 0 <= k < known.len() implies (#[trigger] known[k]).content().path@
        != (#[trigger] fresh[m]).path@ by {
        assert(!has_path(known, fresh[m].path@));
    }
    assert forall|i: int, k: int|
        0 <= i < tracks.len() && 0 <= k < known.len() && (#[trigger] known[k]).content().path@
            == (#[trigger] tracks[i]).path@ implies !fresh.contains(tracks[i]) by {
        if fresh.contains(tracks[i]) {
            let m = choose|m: int| 0 <= m < fresh.len() && fresh[m] == tracks[i];
            assert(!has_path(known, fresh[m].path@));
            assert(known[k].content().path@ == fresh[m].path@);
        }
    }
}

} // verus!
