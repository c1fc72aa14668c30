//! Trigram similarity between a query and a text: both are lowercased and
//! padded with two spaces on each side, and compared by the sets of three
//! consecutive characters that they hold.

use vstd::prelude::*;

verus! {

/// A run of three consecutive characters.
pub type Trigram = (char, char, char);

/// `value` with two spaces before and after it.
pub open spec fn padded(value: Seq<char>) -> Seq<char> {
    seq![' ', ' '] + value + seq![' ', ' ']
}

/// The three characters of `text` from position `i` on.
pub open spec fn window(text: Seq<char>, i: int) -> Trigram {
    (text[i], text[i + 1], text[i + 2])
}

/// The trigrams of the padded `value`.
pub open spec fn trigram_set(value: Seq<char>) -> Set<Trigram> {
    Set::new(
        |trigram: Trigram|
            exists|i: int| 0 <= i < padded(value).len() - 2 && window(padded(value), i) == trigram,
    )
}

/// What `str::to_lowercase` makes of a text: the lowercase mapping of
/// Unicode, which may change the length of the text.
pub uninterp spec fn lowercase(text: Seq<char>) -> Seq<char>;

/// `str::to_lowercase`. Claimed: the result is `lowercase` of the text.
#[verifier::external_body]
fn to_lowercase(text: &str) -> (lower: String)
    ensures
        lower@ == lowercase(text@),
{
    text.to_lowercase()
}

/// The characters of `value` with two spaces before and after them.
fn padded_chars(value: &str) -> (chars: Vec<char>)
    ensures
        chars@ == padded(value@),
{
    let mut chars: Vec<char> = Vec::new();
    chars.push(' ');
    chars.push(' ');
    for c in it: value.chars()
        invariant
            it.seq() == value@,
            chars@ == seq![' ', ' '] + it.seq().take(it.index() as int),
    {
        proof {
            assert(it.seq().take(it.index() + 1) =~= it.seq().take(it.index() as int).push(c));
        }
        chars.push(c);
    }
    proof {
        assert(value@.take(value@.len() as int) =~= value@);
    }
    chars.push(' ');
    chars.push(' ');
    proof {
        assert(chars@ =~= padded(value@));
    }
    chars
}

fn contains_trigram(trigrams: &Vec<Trigram>, trigram: Trigram) -> (found: bool)
    ensures
        found == trigrams@.contains(trigram),
{
    let mut i: usize = 0;
    while i < trigrams.len()
        invariant
            i <= trigrams@.len(),
            forall|j: int| 0 <= j < i ==> trigrams@[j] != trigram,
        decreases trigrams.len() - i,
    {
        let (a, b, c) = trigrams[i];
        if a == trigram.0 && b == trigram.1 && c == trigram.2 {
            assert(trigrams@[i as int] == trigram);
            return true;
        }
        i += 1;
    }
    false
}

/// The trigrams of the padded `value`, each once.
pub fn to_trigrams(value: &str) -> (trigrams: Vec<Trigram>)
    ensures
        trigrams@.no_duplicates(),
        trigrams@.to_set() == trigram_set(value@),
        trigrams@.len() >= 1,
{
    let chars = padded_chars(value);
    let mut trigrams: Vec<Trigram> = Vec::new();
    let mut i: usize = 0;
    while i < chars.len() - 2
        invariant
            chars@ == padded(value@),
            i <= chars@.len() - 2,
            trigrams@.no_duplicates(),
            forall|t: Trigram|
                trigrams@.contains(t) <==> exists|j: int| 0 <= j < i && #[trigger] window(chars@, j) == t,
        decreases chars.len() - i,
    {
        let trigram = (chars[i], chars[i + 1], chars[i + 2]);
        assert(trigram == window(chars@, i as int));
        let ghost before = trigrams@;
        let found = contains_trigram(&trigrams, trigram);
        if !found {
            trigrams.push(trigram);
        }
        proof {
            assert forall|t: Trigram| trigrams@.contains(t) <==> (before.contains(t) || t == trigram) by {
                if trigrams@.contains(t) {
                    let k = choose|k: int| 0 <= k < trigrams@.len() && trigrams@[k] == t;
                    if k < before.len() {
                        assert(before[k] == t);
                    }
                }
                if before.contains(t) {
                    let k = choose|k: int| 0 <= k < before.len() && before[k] == t;
                    assert(trigrams@[k] == t);
                }
                if t == trigram && !found {
                    assert(trigrams@[trigrams@.len() - 1] == t);
                }
            }
            assert forall|t: Trigram| trigrams@.contains(t) <==> exists|j: int|
                0 <= j < i + 1 && #[trigger] window(chars@, j) == t by {
                if exists|j: int| 0 <= j < i + 1 && #[trigger] window(chars@, j) == t {
                    let j = choose|j: int| 0 <= j < i + 1 && #[trigger] window(chars@, j) == t;
                    if j < i {
                        assert(exists|j: int| 0 <= j < i && #[trigger] window(chars@, j) == t);
                    }
                }
                if before.contains(t) {
                    let j = choose|j: int| 0 <= j < i && #[trigger] window(chars@, j) == t;
                    assert(0 <= j < i + 1 && window(chars@, j) == t);
                }
            }
            if !found {
                assert forall|k: int, l: int| 0 <= k < l < trigrams@.len() implies trigrams@[k]
                    != trigrams@[l] by {
                    if l == trigrams@.len() - 1 {
                        assert(before.contains(trigrams@[k]));
                    }
                }
            }
        }
        i += 1;
    }
    assert(trigrams@.to_set() =~= trigram_set(value@));
    assert(trigrams@.contains(window(chars@, 0)));
    trigrams
}

/// The number of trigrams that `query` and `value` share, and the number of
/// trigrams of each, the texts taken as they are.
pub fn trigram_counts(query: &str, value: &str) -> (counts: (usize, usize, usize))
    ensures
        counts.0 == trigram_set(query@).intersect(trigram_set(value@)).len(),
        counts.1 == trigram_set(query@).len(),
        counts.2 == trigram_set(value@).len(),
        counts.1 >= 1,
        counts.2 >= 1,
        counts.0 <= counts.1,
        counts.0 <= counts.2,
{
    let query_trigrams = to_trigrams(query);
    let value_trigrams = to_trigrams(value);
    let mut shared: Vec<Trigram> = Vec::new();
    let mut i: usize = 0;
    while i < query_trigrams.len()
        invariant
            i <= query_trigrams@.len(),
            query_trigrams@.no_duplicates(),
            shared@.no_duplicates(),
            forall|t: Trigram|
                shared@.contains(t) <==> (exists|j: int|
                    0 <= j < i && #[trigger] query_trigrams@[j] == t) && value_trigrams@.contains(t),
        decreases query_trigrams.len() - i,
    {
        let trigram = query_trigrams[i];
        let ghost before = shared@;
        let found = contains_trigram(&value_trigrams, trigram);
        if found {
            proof {
                if shared@.contains(trigram) {
                    let j = choose|j: int| 0 <= j < i && #[trigger] query_trigrams@[j] == trigram;
                    assert(query_trigrams@[j] == query_trigrams@[i as int]);
                }
            }
            shared.push(trigram);
        }
        proof {
            assert forall|t: Trigram| shared@.contains(t) <==> (before.contains(t) || (found && t
                == trigram)) by {
                if shared@.contains(t) {
                    let k = choose|k: int| 0 <= k < shared@.len() && shared@[k] == t;
                    if k < before.len() {
                        assert(before[k] == t);
                    }
                }
                if before.contains(t) {
                    let k = choose|k: int| 0 <= k < before.len() && before[k] == t;
                    assert(shared@[k] == t);
                }
                if found && t == trigram {
                    assert(shared@[shared@.len() - 1] == t);
                }
            }
            assert forall|t: Trigram| shared@.contains(t) <==> (exists|j: int|
                0 <= j < i + 1 && #[trigger] query_trigrams@[j] == t) && value_trigrams@.contains(
                t,
            ) by {
                if exists|j: int| 0 <= j < i + 1 && #[trigger] query_trigrams@[j] == t {
                    let j = choose|j: int| 0 <= j < i + 1 && #[trigger] query_trigrams@[j] == t;
                    if j < i {
                        assert(exists|j: int| 0 <= j < i && #[trigger] query_trigrams@[j] == t);
                    }
                }
                if before.contains(t) {
                    let j = choose|j: int| 0 <= j < i && #[trigger] query_trigrams@[j] == t;
                    assert(0 <= j < i + 1 && query_trigrams@[j] == t);
                }
            }
            if found {
                assert forall|k: int, l: int| 0 <= k < l < shared@.len() implies shared@[k]
                    != shared@[l] by {
                    if l == shared@.len() - 1 {
                        assert(before.contains(shared@[k]));
                    }
                }
            }
        }
        i += 1;
    }
    proof {
        assert(shared@.to_set() =~= query_trigrams@.to_set().intersect(value_trigrams@.to_set()))
            by {
            assert forall|t: Trigram| query_trigrams@.contains(t) implies exists|j: int|
                0 <= j < query_trigrams@.len() && #[trigger] query_trigrams@[j] == t by {
            }
        }
        shared@.unique_seq_to_set();
        query_trigrams@.unique_seq_to_set();
        value_trigrams@.unique_seq_to_set();
        vstd::set_lib::lemma_len_intersect(query_trigrams@.to_set(), value_trigrams@.to_set());
        assert(query_trigrams@.to_set().intersect(value_trigrams@.to_set()) =~= value_trigrams@.to_set().intersect(query_trigrams@.to_set()));
        vstd::set_lib::lemma_len_intersect(value_trigrams@.to_set(), query_trigrams@.to_set());
    }
    (shared.len(), query_trigrams.len(), value_trigrams.len())
}

/// How alike `query` and `value` are: the number of trigrams that their
/// lowercased texts share, and the number of trigrams of each.
pub fn similarity(query: &str, value: &str) -> (counts: (usize, usize, usize))
    ensures
        counts.0 == trigram_set(lowercase(query@)).intersect(trigram_set(lowercase(value@))).len(),
        counts.1 == trigram_set(lowercase(query@)).len(),
        counts.2 == trigram_set(lowercase(value@)).len(),
        counts.1 >= 1,
        counts.2 >= 1,
        counts.0 <= counts.1,
        counts.0 <= counts.2,
{
    let query = to_lowercase(query);
    let value = to_lowercase(value);
    trigram_counts(query.as_str(), value.as_str())
}

/// Trigram similarity is symmetric, and a text shares all its trigrams with
/// itself: the shared count is the same both ways round, and for a text
/// against itself it is the count of its trigrams.
pub proof fn lemma_similarity_symmetric_and_reflexive(first: Seq<char>, second: Seq<char>)
    ensures
        trigram_set(first).intersect(trigram_set(second)).len() == trigram_set(second).intersect(
            trigram_set(first),
        ).len(),
        trigram_set(first).intersect(trigram_set(first)).len() == trigram_set(first).len(),
{
    assert(trigram_set(first).intersect(trigram_set(second)) =~= trigram_set(second).intersect(
        trigram_set(first),
    ));
    assert(trigram_set(first).intersect(trigram_set(first)) =~= trigram_set(first));
}

} // verus!
