//! Fuzzy search over tracks: the text that a search looks at, the scores that
//! nucleo gives it, and the ranking of the tracks that match.

use crate::track::{distinct_identities, text_or_empty, Track, TrackRef};
use nucleo::pattern::{CaseMatching, Normalization, Pattern};
use nucleo::{Matcher, Utf32String};
use vstd::prelude::*;

verus! {

/// The text that a search looks at: album, artist and title, one space apart.
pub open spec fn haystack(track: Track) -> Seq<char> {
    text_or_empty(track.album) + seq![' '] + text_or_empty(track.artist) + seq![' ']
        + text_or_empty(track.title)
}

/// What nucleo's fuzzy matcher makes of `haystack` for `query`, the query read
/// as a pattern that ignores case and normalises letters smartly: a score where
/// the haystack matches, nothing where it does not.
pub uninterp spec fn fuzzy_score(query: Seq<char>, haystack: Seq<char>) -> Option<u32>;

/// A word of a query that asks for nothing: what is left of it once a leading
/// `!` is taken off, then a leading `^` or `'`, is empty or a lone `$`.
pub open spec fn empty_word(word: Seq<char>) -> bool {
    let kept = if word.len() > 0 && word[0] == '!' {
        word.drop_first()
    } else {
        word
    };
    let bare = if kept.len() > 0 && (kept[0] == '^' || kept[0] == '\'') {
        kept.drop_first()
    } else {
        kept
    };
    bare.len() == 0 || bare == seq!['$']
}

/// A query in which nucleo finds no word to match: it holds no backslash, so
/// that every space parts two words, and each run of it between spaces (or
/// its ends) is a word that asks for nothing. The empty query, a query of
/// spaces, or one such as `!` or `^ $`.
pub open spec fn asks_nothing(query: Seq<char>) -> bool {
    &&& forall|k: int| 0 <= k < query.len() ==> query[k] != '\\'
    &&& forall|i: int, j: int|
        0 <= i <= j <= query.len() && (i == 0 || query[i - 1] == ' ') && (j == query.len()
            || query[j] == ' ') && (forall|k: int| i <= k < j ==> query[k] != ' ')
            ==> #[trigger] empty_word(query.subrange(i, j))
}

/// The score of each track for `query`, in the order of the tracks.
pub open spec fn track_scores(query: Seq<char>, tracks: Seq<TrackRef>) -> Seq<Option<u32>> {
    Seq::new(tracks.len(), |j: int| fuzzy_score(query, haystack(tracks[j].content())))
}

/// nucleo's `Matcher`, carried through as an opaque value.
#[verifier::external_type_specification]
#[verifier::external_body]
pub struct ExMatcher(Matcher);

/// `nucleo::Matcher::default`: scratch space for scoring, set up with nucleo's
/// default configuration. Nothing is claimed of it.
#[verifier::external_body]
fn new_matcher() -> Matcher {
    Matcher::default()
}

/// nucleo's `Pattern::parse(query, CaseMatching::Ignore, Normalization::Smart)`
/// scored with `Pattern::score` on `haystack`. Claimed: the result is
/// `fuzzy_score` of the two texts (the matcher is scratch space only), and a
/// query that asks for nothing scores `Some(0)` everywhere: `Pattern::parse`
/// splits it at its spaces, `Atom::parse` strips each word's `!`, `^`, `'` and
/// `$` down to an empty needle, the empty atoms are dropped, and
/// `Pattern::score` returns `Some(0)` for a pattern without atoms.
#[verifier::external_body]
fn score(matcher: &mut Matcher, query: &str, haystack: &str) -> (score: Option<u32>)
    ensures
        score == fuzzy_score(query@, haystack@),
        asks_nothing(query@) ==> score == Some(0u32),
{
    Pattern::parse(query, CaseMatching::Ignore, Normalization::Smart).score(
        Utf32String::from(haystack).slice(..),
        matcher,
    )
}

/// Builds the text that a search looks at for `track`.
pub fn haystack_of(track: &Track) -> (text: String)
    ensures
        text@ == haystack(*track),
{
    proof {
        reveal_strlit(" ");
    }
    let mut text = String::from_str(track.album_str());
    text.append(" ");
    text.append(track.artist_str());
    text.append(" ");
    text.append(track.title_str());
    text
}

/// Scores every track for `query`.
pub fn scores_for(query: &str, tracks: &Vec<TrackRef>) -> (scores: Vec<Option<u32>>)
    ensures
        scores@ == track_scores(query@, tracks@),
        asks_nothing(query@) ==> forall|j: int| 0 <= j < scores@.len() ==> scores@[j] == Some(0u32),
{
    let mut matcher = new_matcher();
    let mut scores: Vec<Option<u32>> = Vec::new();
    let mut i: usize = 0;
    while i < tracks.len()
        invariant
            i <= tracks.len(),
            scores@.len() == i,
            forall|j: int|
                0 <= j < i ==> #[trigger] scores@[j] == fuzzy_score(
                    query@,
                    haystack(tracks@[j].content()),
                ),
            asks_nothing(query@) ==> forall|j: int| 0 <= j < i ==> #[trigger] scores@[j] == Some(0u32),
        decreases tracks.len() - i,
    {
        let text = haystack_of(tracks[i].track());
        let found = score(&mut matcher, query, text.as_str());
        scores.push(found);
        i += 1;
    }
    assert(scores@ =~= track_scores(query@, tracks@));
    scores
}

/// The score at position `j`, zero where there is none.
pub open spec fn score_at(scores: Seq<Option<u32>>, j: int) -> u32 {
    match scores[j] {
        Some(score) => score,
        None => 0,
    }
}

/// Position `first` comes before position `second` in a ranking: a higher
/// score first, and of two equal scores the earlier position first.
pub open spec fn ranks_before(scores: Seq<Option<u32>>, first: int, second: int) -> bool {
    ||| score_at(scores, first) > score_at(scores, second)
    ||| (score_at(scores, first) == score_at(scores, second) && first < second)
}

/// `order` lists, best first, exactly the positions that have a score.
pub open spec fn is_ranked_order(scores: Seq<Option<u32>>, order: Seq<int>) -> bool {
    &&& forall|k: int|
        0 <= k < order.len() ==> 0 <= #[trigger] order[k] < scores.len() && scores[order[k]] is Some
    &&& forall|k: int, l: int|
        0 <= k < l < order.len() ==> ranks_before(scores, #[trigger] order[k], #[trigger] order[l])
    &&& forall|j: int| 0 <= j < scores.len() && (#[trigger] scores[j]) is Some ==> order.contains(j)
}

/// `ranked` holds the entries that have a score, the best first, and of equal
/// scores the earlier entry first.
pub open spec fn is_ranking(
    entries: Seq<TrackRef>,
    scores: Seq<Option<u32>>,
    ranked: Seq<TrackRef>,
) -> bool {
    exists|order: Seq<int>|
        is_ranked_order(scores, order) && ranked == order.map_values(|j: int| entries[j])
}

/// The first position in the non-increasing `scores` that holds a score
/// below `score`, found by halving.
fn insertion_point(scores: &Vec<u32>, score: u32) -> (p: usize)
    requires
        forall|k: int, l: int| 0 <= k < l < scores@.len() ==> #[trigger] scores@[k] >= #[trigger] scores@[l],
    ensures
        p <= scores@.len(),
        forall|k: int| 0 <= k < p ==> #[trigger] scores@[k] >= score,
        p < scores@.len() ==> scores@[p as int] < score,
{
    let mut low: usize = 0;
    let mut high: usize = scores.len();
    while low < high
        invariant
            low <= high <= scores@.len(),
            forall|k: int, l: int| 0 <= k < l < scores@.len() ==> #[trigger] scores@[k] >= #[trigger] scores@[l],
            forall|k: int| 0 <= k < low ==> #[trigger] scores@[k] >= score,
            forall|k: int| high <= k < scores@.len() ==> #[trigger] scores@[k] < score,
        decreases high - low,
    {
        let middle = low + (high - low) / 2;
        if scores[middle] >= score {
            assert forall|k: int| 0 <= k < middle + 1 implies #[trigger] scores@[k] >= score by {
                if k < middle {
                    assert(scores@[k] >= scores@[middle as int]);
                }
            }
            low = middle + 1;
        } else {
            assert forall|k: int| middle <= k < scores@.len() implies #[trigger] scores@[k] < score by {
                if k > middle {
                    assert(scores@[middle as int] >= scores@[k]);
                }
            }
            high = middle;
        }
    }
    low
}

/// Keeps the entries that have a score and orders them by score, the best
/// first; of equal scores the earlier entry comes first.
pub fn rank(entries: &Vec<TrackRef>, scores: &Vec<Option<u32>>) -> (ranked: Vec<TrackRef>)
    requires
        entries.len() == scores.len(),
    ensures
        is_ranking(entries@, scores@, ranked@),
{
    let mut ranked: Vec<TrackRef> = Vec::new();
    let mut ranked_scores: Vec<u32> = Vec::new();
    let ghost mut order: Seq<int> = Seq::empty();
    let mut i: usize = 0;
    while i < entries.len()
        invariant
            entries.len() == scores.len(),
            i <= entries.len(),
            ranked@.len() == order.len(),
            ranked_scores@.len() == order.len(),
            forall|k: int| 0 <= k < order.len() ==> 0 <= #[trigger] order[k] < i,
            forall|k: int|
                0 <= k < order.len() ==> scores@[order[k]] == Some(#[trigger] ranked_scores@[k]),
            forall|k: int| 0 <= k < order.len() ==> #[trigger] ranked@[k] == entries@[order[k]],
            forall|k: int, l: int|
                0 <= k < l < order.len() ==> ranks_before(
                    scores@,
                    #[trigger] order[k],
                    #[trigger] order[l],
                ),
            forall|j: int| 0 <= j < i && (#[trigger] scores@[j]) is Some ==> order.contains(j),
        decreases entries.len() - i,
    {
        match scores[i] {
            Some(score) => {
                proof {
                    assert forall|k: int, l: int|
                        0 <= k < l < ranked_scores@.len() implies #[trigger] ranked_scores@[k]
                        >= #[trigger] ranked_scores@[l] by {
                        assert(ranks_before(scores@, order[k], order[l]));
                    }
                }
                let p = insertion_point(&ranked_scores, score);
                let ghost old_order = order;
                let ghost old_scores = ranked_scores@;
                proof {
                    assert forall|k: int| p <= k < old_order.len() implies #[trigger] old_scores[k]
                        < score by {
                        if k > p {
                            assert(ranks_before(scores@, old_order[p as int], old_order[k]));
                        }
                    }
                }
                ranked.insert(p, entries[i].clone());
                ranked_scores.insert(p, score);
                proof {
                    order = old_order.insert(p as int, i as int);
                    assert forall|k: int, l: int| 0 <= k < l < order.len() implies ranks_before(
                        scores@,
                        #[trigger] order[k],
                        #[trigger] order[l],
                    ) by {
                        if k < p && l < p {
                            assert(ranks_before(scores@, old_order[k], old_order[l]));
                        } else if k < p && l == p {
                            assert(old_scores[k] >= score);
                        } else if k < p && l > p {
                            assert(ranks_before(scores@, old_order[k], old_order[l - 1]));
                        } else if k == p {
                            assert(old_scores[l - 1] < score);
                        } else {
                            assert(ranks_before(scores@, old_order[k - 1], old_order[l - 1]));
                        }
                    }
                    assert forall|j: int|
                        0 <= j < i + 1 && (#[trigger] scores@[j]) is Some implies order.contains(
                        j,
                    ) by {
                        if j == i {
                            assert(order[p as int] == j);
                        } else {
                            assert(old_order.contains(j));
                            let k = choose|k: int| 0 <= k < old_order.len() && old_order[k] == j;
                            if k < p {
                                assert(order[k] == j);
                            } else {
                                assert(order[k + 1] == j);
                            }
                        }
                    }
                }
            },
            None => {
                proof {
                    assert forall|j: int|
                        0 <= j < i + 1 && (#[trigger] scores@[j]) is Some implies order.contains(
                        j,
                    ) by {
                        if j < i {
                        }
                    }
                }
            },
        }
        i += 1;
    }
    proof {
        assert forall|k: int| 0 <= k < order.len() implies 0 <= #[trigger] order[k] < scores@.len()
            && scores@[order[k]] is Some by {
            assert(scores@[order[k]] == Some(ranked_scores@[k]));
        }
        assert(is_ranked_order(scores@, order));
        assert(ranked@ =~= order.map_values(|j: int| entries@[j]));
    }
    ranked
}

/// A ranking of entries whose identities are their positions repeats no
/// entry, and holds only entries that have a score.
pub proof fn lemma_ranking_distinct(
    entries: Seq<TrackRef>,
    scores: Seq<Option<u32>>,
    ranked: Seq<TrackRef>,
)
    requires
        is_ranking(entries, scores, ranked),
        entries.len() == scores.len(),
        forall|j: int| 0 <= j < entries.len() ==> #[trigger] entries[j].identity() == j,
    ensures
        distinct_identities(ranked),
        forall|k: int|
            0 <= k < ranked.len() ==> 0 <= #[trigger] ranked[k].identity() < entries.len()
                && ranked[k] == entries[ranked[k].identity() as int]
                && scores[ranked[k].identity() as int] is Some,
{
    let order = choose|order: Seq<int>|
        is_ranked_order(scores, order) && ranked == order.map_values(|j: int| entries[j]);
    assert forall|k: int| 0 <= k < ranked.len() implies 0 <= #[trigger] ranked[k].identity()
        < entries.len() && ranked[k] == entries[ranked[k].identity() as int] && scores[ranked[
        k].identity() as int] is Some by {
        assert(ranked[k] == entries[order[k]]);
    }
    assert forall|k: int, l: int| 0 <= k < l < ranked.len() implies #[trigger] ranked[k].identity()
        != #[trigger] ranked[l].identity() by {
        assert(ranks_before(scores, order[k], order[l]));
        assert(ranked[k] == entries[order[k]]);
        assert(ranked[l] == entries[order[l]]);
    }
}

/// Where every entry scores the same, the ranking keeps every entry in its
/// place.
pub proof fn lemma_ranking_of_equal_scores(
    entries: Seq<TrackRef>,
    scores: Seq<Option<u32>>,
    ranked: Seq<TrackRef>,
    score: u32,
)
    requires
        is_ranking(entries, scores, ranked),
        entries.len() == scores.len(),
        forall|j: int| 0 <= j < scores.len() ==> #[trigger] scores[j] == Some(score),
    ensures
        ranked == entries,
{
    let order = choose|order: Seq<int>|
        is_ranked_order(scores, order) && ranked == order.map_values(|j: int| entries[j]);
    let n = entries.len() as int;
    // The order only grows, so each of its values is at least its position.
    assert forall|k: int| 0 <= k < order.len() implies #[trigger] order[k] >= k by {
        lemma_order_at_least_position(scores, order, k);
    }
    // Each position holds its own index, by induction on the position.
    assert forall|k: int| 0 <= k < n implies k < order.len() && #[trigger] order[k] == k by {
        lemma_order_is_identity(scores, order, k, score);
    }
    if order.len() > n {
        assert(order[n] >= n);
        assert(order[n] < n);
    }
    if n > 0 {
        lemma_order_is_identity(scores, order, n - 1, score);
    }
    assert(order.len() == n);
    assert(ranked =~= entries);
}

proof fn lemma_order_at_least_position(scores: Seq<Option<u32>>, order: Seq<int>, k: int)
    requires
        is_ranked_order(scores, order),
        0 <= k < order.len(),
        forall|j: int, l: int|
            0 <= j < scores.len() && 0 <= l < scores.len() ==> score_at(scores, j) == score_at(
                scores,
                l,
            ),
    ensures
        order[k] >= k,
    decreases k,
{
    if k > 0 {
        lemma_order_at_least_position(scores, order, k - 1);
        assert(ranks_before(scores, order[k - 1], order[k]));
    } else {
        assert(0 <= order[0]);
    }
}

proof fn lemma_order_is_identity(scores: Seq<Option<u32>>, order: Seq<int>, k: int, score: u32)
    requires
        is_ranked_order(scores, order),
        0 <= k < scores.len(),
        forall|j: int| 0 <= j < scores.len() ==> #[trigger] scores[j] == Some(score),
        forall|m: int| 0 <= m < order.len() ==> #[trigger] order[m] >= m,
    ensures
        k < order.len(),
        order[k] == k,
    decreases k,
{
    if k > 0 {
        lemma_order_is_identity(scores, order, k - 1, score);
    }
    assert(scores[k] == Some(score));
    assert(order.contains(k));
    let m = choose|m: int| 0 <= m < order.len() && order[m] == k;
    assert(order[m] >= m);
    if m < k {
        lemma_order_is_identity(scores, order, m, score);
    }
}

/// A search lists the tracks that match, best first: every listed track has
/// a fuzzy score for the query, every track with a score is listed, and of
/// two listed tracks the earlier one never scores lower than the later one.
/// Of two that score the same, where each entry's identity is its position,
/// the earlier entry comes first.
pub proof fn lemma_ranking_best_first(query: Seq<char>, entries: Seq<TrackRef>, ranked: Seq<TrackRef>)
    requires
        is_ranking(entries, track_scores(query, entries), ranked),
    ensures
        forall|k: int|
            0 <= k < ranked.len() ==> fuzzy_score(query, haystack(#[trigger] ranked[k].content())) is Some,
        forall|k: int, l: int|
            0 <= k < l < ranked.len() ==> fuzzy_score(query, haystack(#[trigger] ranked[k].content()))->0
                >= fuzzy_score(query, haystack(#[trigger] ranked[l].content()))->0,
        forall|j: int|
            0 <= j < entries.len() && fuzzy_score(query, haystack(#[trigger] entries[j].content())) is Some
                ==> ranked.contains(entries[j]),
        (forall|j: int| 0 <= j < entries.len() ==> #[trigger] entries[j].identity() == j) ==> forall|
            k: int,
            l: int,
        |
            0 <= k < l < ranked.len() && fuzzy_score(query, haystack(#[trigger] ranked[k].content()))
                == fuzzy_score(query, haystack(#[trigger] ranked[l].content())) ==> ranked[k].identity()
                < ranked[l].identity(),
{
    let scores = track_scores(query, entries);
    let order = choose|order: Seq<int>|
        is_ranked_order(scores, order) && ranked == order.map_values(|j: int| entries[j]);
    assert forall|k: int| 0 <= k < ranked.len() implies fuzzy_score(
        query,
        haystack(#[trigger] ranked[k].content()),
    ) is Some by {
        assert(ranked[k] == entries[order[k]]);
        assert(scores[order[k]] is Some);
    }
    assert forall|k: int, l: int| 0 <= k < l < ranked.len() implies fuzzy_score(
        query,
        haystack(#[trigger] ranked[k].content()),
    )->0 >= fuzzy_score(query, haystack(#[trigger] ranked[l].content()))->0 by {
        assert(ranks_before(scores, order[k], order[l]));
        assert(ranked[k] == entries[order[k]]);
        assert(ranked[l] == entries[order[l]]);
        assert(scores[order[k]] is Some && scores[order[l]] is Some);
    }
    assert forall|j: int|
        0 <= j < entries.len() && fuzzy_score(query, haystack(#[trigger] entries[j].content())) is Some
        implies ranked.contains(entries[j]) by {
        assert(scores[j] is Some);
        assert(order.contains(j));
        let k = choose|k: int| 0 <= k < order.len() && order[k] == j;
        assert(ranked[k] == entries[j]);
    }
    if forall|j: int| 0 <= j < entries.len() ==> #[trigger] entries[j].identity() == j {
        assert forall|k: int, l: int|
            0 <= k < l < ranked.len() && fuzzy_score(query, haystack(#[trigger] ranked[k].content()))
                == fuzzy_score(query, haystack(#[trigger] ranked[l].content())) implies ranked[k].identity()
            < ranked[l].identity() by {
            assert(ranks_before(scores, order[k], order[l]));
            assert(ranked[k] == entries[order[k]]);
            assert(ranked[l] == entries[order[l]]);
            assert(scores[order[k]] is Some && scores[order[l]] is Some);
        }
    }
}

} // verus!
