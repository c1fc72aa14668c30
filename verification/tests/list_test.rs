use prism::list::List;
use prism::track::{Track, TrackRef};

fn new_track(title: &str) -> Track {
    Track {
        title: Some(title.to_string()),
        ..Default::default()
    }
}

fn new_track_at(title: &str, path: &str) -> Track {
    Track {
        title: Some(title.to_string()),
        path: path.as_bytes().to_vec(),
        ..Default::default()
    }
}

fn ids(tracks: &[TrackRef]) -> Vec<usize> {
    tracks.iter().map(|track| track.id()).collect()
}

#[test]
fn returns_the_current_track() {
    let mut list = List::default();
    let track = list.extend(vec![new_track("track")]).remove(0);
    list.set_current_and_selected(&track);

    assert_eq!(list.current().unwrap().id(), track.id());
}

#[test]
fn adds_and_deduplicates_tracks() {
    let mut list = List::default();
    let track = new_track("track");

    let added = list.extend(vec![track.clone()]);
    assert_eq!(added.len(), 1);
    assert_eq!(added[0].track().title, track.title);
    assert_eq!(ids(list.matching()), ids(&added));

    assert!(list.extend(vec![track.clone()]).is_empty());
    assert_eq!(ids(list.matching()), ids(&added));
}

#[test]
fn updates_matching() {
    let mut list = List::default();
    list.search("track_1".into());
    let added = list.extend(vec![new_track("track_1"), new_track("track_2")]);

    assert_eq!(ids(list.matching()), vec![added[0].id()]);
}

#[test]
fn returns_matching_tracks() {
    let mut list = List::default();
    let added = list.extend(vec![new_track("track")]);

    assert_eq!(ids(list.matching()), ids(&added));
}

#[test]
fn updates_matching_and_search_query() {
    let mut list = List::default();
    let added = list.extend(vec![new_track("track_1"), new_track("track_2")]);
    list.search("track_1".into());

    assert_eq!(ids(list.matching()), vec![added[0].id()]);
    assert_eq!(list.search_query(), "track_1");
}

#[test]
fn returns_the_search_query() {
    let mut list = List::default();
    list.search("search_query".into());

    assert_eq!(list.search_query(), "search_query");
}

#[test]
fn selects_the_first_track_when_none_is_selected() {
    let mut list = List::default();
    let added = list.extend(vec![new_track("track_1"), new_track("track_2")]);
    list.select_next();

    assert_eq!(list.selected().unwrap().id(), added[0].id());
}

#[test]
fn selects_the_last_track_when_already_at_last() {
    let mut list = List::default();
    let added = list.extend(vec![new_track("track_1"), new_track("track_2")]);
    list.set_current_and_selected(&added[1]);
    list.select_next();

    assert_eq!(list.selected().unwrap().id(), added[1].id());
}

#[test]
fn selects_the_next_track() {
    let mut list = List::default();
    let added = list.extend(vec![new_track("track_1"), new_track("track_2")]);
    list.set_current_and_selected(&added[0]);
    list.select_next();

    assert_eq!(list.selected().unwrap().id(), added[1].id());
}

#[test]
fn selects_the_first_track_when_already_at_first() {
    let mut list = List::default();
    let added = list.extend(vec![new_track("track_1"), new_track("track_2")]);
    list.set_current_and_selected(&added[0]);
    list.select_previous();

    assert_eq!(list.selected().unwrap().id(), added[0].id());
}

#[test]
fn list_test_selects_the_first_track_when_none_is_selected() {
    let mut list = List::default();
    let added = list.extend(vec![new_track("track_1"), new_track("track_2")]);
    list.select_previous();

    assert_eq!(list.selected().unwrap().id(), added[0].id());
}

#[test]
fn selects_the_previous_track() {
    let mut list = List::default();
    let added = list.extend(vec![new_track("track_1"), new_track("track_2")]);
    list.set_current_and_selected(&added[1]);
    list.select_previous();

    assert_eq!(list.selected().unwrap().id(), added[0].id());
}

#[test]
fn returns_the_selected_track() {
    let mut list = List::default();
    let track = list.extend(vec![new_track("track")]).remove(0);
    list.set_current_and_selected(&track);

    assert_eq!(list.selected().unwrap().id(), track.id());
}

#[test]
fn updates_the_current_and_the_selected_tracks() {
    let mut list = List::default();
    let track = list.extend(vec![new_track("track")]).remove(0);
    list.set_current_and_selected(&track);

    assert_eq!(list.current().unwrap().id(), track.id());
    assert_eq!(list.selected().unwrap().id(), track.id());
}

#[test]
fn extend_skips_paths_already_held_but_not_repeats_within_one_batch() {
    let mut list = List::new();
    let first = list.extend(vec![new_track_at("a", "/music/a.flac")]);
    assert_eq!(ids(&first), vec![0]);
    let second = list.extend(vec![
        new_track_at("a again", "/music/a.flac"),
        new_track_at("b", "/music/b.flac"),
        new_track_at("b twice", "/music/b.flac"),
    ]);
    assert_eq!(ids(&second), vec![1, 2]);
    assert_eq!(second[0].track().title.as_deref(), Some("b"));
    assert_eq!(second[1].track().title.as_deref(), Some("b twice"));
    assert_eq!(ids(list.tracks()), vec![0, 1, 2]);
}

#[test]
fn extending_with_the_same_tracks_again_adds_nothing() {
    let mut list = List::new();
    let batch = vec![
        new_track_at("a", "/music/a.flac"),
        new_track_at("b", "/music/b.flac"),
    ];
    assert_eq!(list.extend(batch.clone()).len(), 2);
    assert!(list.extend(batch).is_empty());
    assert_eq!(list.tracks().len(), 2);
}

#[test]
fn an_empty_search_lists_every_track_in_order() {
    let mut list = List::new();
    let added = list.extend(vec![
        new_track_at("zebra", "/z"),
        new_track_at("apple", "/a"),
        new_track_at("mango", "/m"),
    ]);
    list.search("apple".into());
    assert_eq!(ids(list.matching()), vec![added[1].id()]);
    list.search(String::new());
    assert_eq!(ids(list.matching()), ids(list.tracks()));
}

#[test]
fn search_ranks_better_matches_first() {
    let mut list = List::new();
    let added = list.extend(vec![
        new_track_at("a long title with abba hidden", "/1"),
        new_track_at("abba", "/2"),
        new_track_at("nothing here", "/3"),
    ]);
    list.search("abba".into());
    let matching = ids(list.matching());
    assert_eq!(matching.len(), 2);
    assert!(matching.contains(&added[0].id()));
    assert!(matching.contains(&added[1].id()));
    assert!(!matching.contains(&added[2].id()));
}

#[test]
fn search_looks_at_album_and_artist_too() {
    let mut list = List::new();
    let added = list.extend(vec![
        Track {
            album: Some("Discovery".into()),
            artist: Some("Daft Punk".into()),
            title: Some("One More Time".into()),
            path: "/d".into(),
            ..Default::default()
        },
        new_track_at("unrelated", "/u"),
    ]);
    list.search("daft".into());
    assert_eq!(ids(list.matching()), vec![added[0].id()]);
    list.search("DISCOVERY".into());
    assert_eq!(ids(list.matching()), vec![added[0].id()]);
}

#[test]
fn selection_moves_down_and_back_up() {
    let mut list = List::new();
    let added = list.extend(vec![
        new_track_at("1", "/1"),
        new_track_at("2", "/2"),
        new_track_at("3", "/3"),
    ]);
    list.set_current_and_selected(&added[1]);
    list.select_next();
    assert_eq!(list.selected().unwrap().id(), added[2].id());
    list.select_previous();
    assert_eq!(list.selected().unwrap().id(), added[1].id());
    list.select_previous();
    assert_eq!(list.selected().unwrap().id(), added[0].id());
    list.select_next();
    assert_eq!(list.selected().unwrap().id(), added[1].id());
}

#[test]
fn selection_outside_the_matches_moves_to_the_last_match_upwards() {
    let mut list = List::new();
    let added = list.extend(vec![
        new_track_at("red", "/r"),
        new_track_at("green", "/g"),
        new_track_at("blue", "/b"),
    ]);
    list.set_current_and_selected(&added[2]);
    list.search("re".into());
    let matching = ids(list.matching());
    assert!(!matching.contains(&added[2].id()));
    list.select_next();
    assert_eq!(list.selected().unwrap().id(), added[2].id());
    list.select_previous();
    assert_eq!(list.selected().unwrap().id(), *matching.last().unwrap());
}

#[test]
fn nothing_is_selected_in_an_empty_list() {
    let mut list = List::new();
    list.select_next();
    assert!(list.selected().is_none());
    list.select_previous();
    assert!(list.selected().is_none());
    assert!(list.current().is_none());
}

#[test]
fn a_search_of_spaces_only_lists_every_track_in_order() {
    let mut list = List::new();
    list.extend(vec![
        new_track_at("zebra", "/z"),
        new_track_at("apple", "/a"),
        new_track_at("mango", "/m"),
    ]);
    list.search("   ".into());
    assert_eq!(ids(list.matching()), vec![0, 1, 2]);
}

#[test]
fn distinct_paths_stay_distinct_after_extending() {
    let mut list = List::new();
    list.extend(vec![new_track_at("a", "/a"), new_track_at("b", "/b")]);
    list.extend(vec![
        new_track_at("b again", "/b"),
        new_track_at("c", "/c"),
        new_track_at("a again", "/a"),
    ]);
    let paths: Vec<&[u8]> = list.tracks().iter().map(|track| track.track().path.as_slice()).collect();
    assert_eq!(paths, vec![&b"/a"[..], &b"/b"[..], &b"/c"[..]]);
}

#[test]
fn a_batch_of_known_paths_adds_nothing() {
    let mut list = List::new();
    list.extend(vec![new_track_at("a", "/a"), new_track_at("b", "/b")]);
    let added = list.extend(vec![new_track_at("b other", "/b"), new_track_at("a other", "/a")]);
    assert!(added.is_empty());
    assert_eq!(ids(list.tracks()), vec![0, 1]);
    assert_eq!(list.tracks()[0].track().title.as_deref(), Some("a"));
}

#[test]
fn a_search_whose_words_ask_for_nothing_lists_every_track_in_order() {
    let mut list = List::new();
    list.extend(vec![
        new_track_at("zebra", "/z"),
        new_track_at("apple", "/a"),
        new_track_at("mango", "/m"),
    ]);
    for query in ["!", "^", "'", "$", "!^$", "^ $  !'"] {
        list.search(query.into());
        assert_eq!(ids(list.matching()), vec![0, 1, 2], "query {query:?}");
    }
    list.search("!apple".into());
    assert_eq!(ids(list.matching()), vec![0, 2]);
}
