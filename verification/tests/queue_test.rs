use prism::list::List;
use prism::queue::Queue;
use prism::track::{Track, TrackRef};

fn tracks(titles: &[&str]) -> Vec<TrackRef> {
    let mut list = List::new();
    list.extend(
        titles
            .iter()
            .map(|title| Track {
                title: Some(title.to_string()),
                path: format!("/{title}").into_bytes(),
                ..Default::default()
            })
            .collect(),
    )
}

fn ids(tracks: &[TrackRef]) -> Vec<usize> {
    tracks.iter().map(|track| track.id()).collect()
}

#[test]
fn adds_tracks() {
    let mut queue = Queue::default();
    let track = tracks(&["track"]);
    queue.extend(track.clone());

    assert_eq!(ids(queue.tracks()), ids(&track));
}

#[test]
fn shuffles_tracks_when_shuffle_is_enabled() {
    fastrand::seed(2);
    let mut queue = Queue::default();
    queue.set_shuffle(true);
    let added = tracks(&["track_1", "track_2"]);
    queue.extend(added.clone());

    assert_eq!(ids(queue.tracks()), vec![added[1].id(), added[0].id()]);
}

#[test]
fn returns_none_when_at_the_last_track() {
    let mut queue = Queue::default();
    let track = tracks(&["track"]);
    queue.extend(track.clone());
    queue.set_current(&track[0]);

    assert!(queue.next().is_none());
}

#[test]
fn returns_the_first_track_when_at_the_last_track_with_repeat() {
    let mut queue = Queue::default();
    let track = tracks(&["track"]);
    queue.extend(track.clone());
    queue.set_current(&track[0]);
    queue.set_repeat(true);

    assert_eq!(queue.next().unwrap().id(), track[0].id());
    assert_eq!(queue.current().unwrap().id(), track[0].id());
}

#[test]
fn returns_the_first_track_when_none_is_current() {
    let mut queue = Queue::default();
    let track = tracks(&["track"]);
    queue.extend(track.clone());

    assert_eq!(queue.next().unwrap().id(), track[0].id());
    assert_eq!(queue.current().unwrap().id(), track[0].id());
}

#[test]
fn returns_the_next_track() {
    let mut queue = Queue::default();
    let added = tracks(&["track_1", "track_2"]);
    queue.extend(added.clone());
    queue.set_current(&added[0]);

    assert_eq!(queue.next().unwrap().id(), added[1].id());
    assert_eq!(queue.current().unwrap().id(), added[1].id());
}

#[test]
fn returns_none_when_at_the_first_track() {
    let mut queue = Queue::default();
    let track = tracks(&["track"]);
    queue.extend(track.clone());
    queue.set_current(&track[0]);

    assert!(queue.previous().is_none());
}

#[test]
fn queue_test_returns_the_first_track_when_none_is_current() {
    let mut queue = Queue::default();
    let track = tracks(&["track"]);
    queue.extend(track.clone());

    assert_eq!(queue.previous().unwrap().id(), track[0].id());
    assert_eq!(queue.current().unwrap().id(), track[0].id());
}

#[test]
fn returns_the_last_track_when_at_the_first_track_with_repeat() {
    let mut queue = Queue::default();
    let track = tracks(&["track"]);
    queue.extend(track.clone());
    queue.set_current(&track[0]);
    queue.set_repeat(true);

    assert_eq!(queue.previous().unwrap().id(), track[0].id());
    assert_eq!(queue.current().unwrap().id(), track[0].id());
}

#[test]
fn returns_the_previous_track() {
    let mut queue = Queue::default();
    let added = tracks(&["track_1", "track_2"]);
    queue.extend(added.clone());
    queue.set_current(&added[1]);

    assert_eq!(queue.previous().unwrap().id(), added[0].id());
    assert_eq!(queue.current().unwrap().id(), added[0].id());
}

#[test]
fn toggles_repeat_on() {
    assert!(!Queue::default().repeat());
}

#[test]
fn updates_the_current_track() {
    let mut queue = Queue::default();
    let track = tracks(&["track"]);
    queue.extend(track.clone());
    queue.set_current(&track[0]);

    assert_eq!(queue.current().unwrap().id(), track[0].id());
}

#[test]
fn updates_the_repeat_value() {
    let mut queue = Queue::default();
    queue.set_repeat(true);

    assert!(queue.repeat());
}

#[test]
fn updates_the_shuffle_value() {
    fastrand::seed(2);
    let mut queue = Queue::default();
    let added = tracks(&["track_1", "track_2"]);
    queue.extend(added.clone());
    queue.set_shuffle(true);

    assert!(queue.shuffle());
    assert_eq!(ids(queue.tracks()), vec![added[1].id(), added[0].id()]);
}

#[test]
fn returns_the_shuffle_value() {
    assert!(!Queue::default().shuffle());
}

#[test]
fn repeat_wraps_around_both_ways() {
    let mut queue = Queue::new();
    let added = tracks(&["1", "2", "3"]);
    queue.extend(added.clone());
    queue.set_repeat(true);
    queue.set_current(&added[2]);
    assert_eq!(queue.next().unwrap().id(), added[0].id());
    assert_eq!(queue.previous().unwrap().id(), added[2].id());
}

#[test]
fn previous_undoes_next() {
    let mut queue = Queue::new();
    let added = tracks(&["1", "2", "3"]);
    queue.extend(added.clone());
    queue.set_current(&added[0]);
    assert_eq!(queue.next().unwrap().id(), added[1].id());
    assert_eq!(queue.previous().unwrap().id(), added[0].id());
    queue.set_current(&added[2]);
    assert_eq!(queue.previous().unwrap().id(), added[1].id());
    assert_eq!(queue.next().unwrap().id(), added[2].id());
}

#[test]
fn a_track_outside_the_queue_goes_back_to_the_last() {
    let mut queue = Queue::new();
    let added = tracks(&["1", "2", "3"]);
    queue.extend(added[..2].to_vec());
    queue.set_current(&added[2]);
    assert_eq!(queue.previous().unwrap().id(), added[1].id());
    queue.set_current(&added[2]);
    assert!(queue.next().is_none());
    assert_eq!(queue.current().unwrap().id(), added[2].id());
    queue.set_repeat(true);
    assert_eq!(queue.next().unwrap().id(), added[0].id());
}

#[test]
fn an_empty_queue_has_no_next_or_previous() {
    let mut queue = Queue::new();
    assert!(queue.next().is_none());
    assert!(queue.previous().is_none());
    queue.set_repeat(true);
    assert!(queue.next().is_none());
    assert!(queue.current().is_none());
}

#[test]
fn shuffling_keeps_the_same_tracks_and_disabling_restores_the_order() {
    let mut queue = Queue::new();
    let added = tracks(&["1", "2", "3", "4", "5", "6", "7", "8"]);
    queue.extend(added.clone());
    queue.shuffle_enable();
    assert!(queue.shuffle());
    let mut shuffled = ids(queue.tracks());
    shuffled.sort();
    assert_eq!(shuffled, ids(&added));
    queue.shuffle_disable(&added);
    assert!(!queue.shuffle());
    assert_eq!(ids(queue.tracks()), ids(&added));
}

#[test]
fn extending_a_shuffled_queue_keeps_every_track() {
    let mut queue = Queue::new();
    let added = tracks(&["1", "2", "3", "4"]);
    queue.set_shuffle(true);
    queue.extend(added[..2].to_vec());
    queue.extend(added[2..].to_vec());
    let mut all = ids(queue.tracks());
    all.sort();
    assert_eq!(all, ids(&added));
}

#[test]
fn repeat_switches_on_and_off() {
    let mut queue = Queue::new();
    queue.repeat_enable();
    assert!(queue.repeat());
    queue.repeat_disable();
    assert!(!queue.repeat());
}
