use prism::composition::main::{Event, Main, Message};
use prism::composition::track_list::{self, TrackList};
use prism::track::Track;

fn track(title: &str) -> Track {
    Track {
        title: Some(title.to_string()),
        path: format!("/{title}").into_bytes(),
        ..Default::default()
    }
}

fn played(event: Event) -> Option<usize> {
    match event {
        Event::Play(track) => Some(track.id()),
        _ => None,
    }
}

fn library(titles: &[&str]) -> Main {
    let mut main = Main::new();
    let event = main.update(Message::ListExtend(titles.iter().map(|title| track(title)).collect()));
    assert!(matches!(event, Event::Nothing));
    main
}

#[test]
fn next_plays_through_the_queue_and_marks_the_list() {
    let mut main = library(&["a", "b", "c"]);
    assert_eq!(played(main.update(Message::ButtonNextPress)), Some(0));
    assert_eq!(played(main.update(Message::ButtonNextPress)), Some(1));
    assert_eq!(main.list().current().unwrap().id(), 1);
    assert_eq!(main.list().selected().unwrap().id(), 1);
    assert_eq!(main.queue().current().unwrap().id(), 1);
    assert_eq!(played(main.update(Message::ButtonPreviousPress)), Some(0));
    assert_eq!(played(main.update(Message::ButtonPreviousPress)), None);
}

#[test]
fn repeat_makes_the_queue_run_round() {
    let mut main = library(&["a", "b"]);
    let _ = main.update(Message::ButtonRepeatPress);
    assert!(main.queue().repeat());
    let _ = main.update(Message::ButtonNextPress);
    let _ = main.update(Message::ButtonNextPress);
    assert_eq!(played(main.update(Message::ButtonNextPress)), Some(0));
    let _ = main.update(Message::ButtonRepeatPress);
    assert!(!main.queue().repeat());
}

#[test]
fn shuffle_off_restores_the_library_order() {
    let mut main = library(&["a", "b", "c", "d", "e"]);
    let _ = main.update(Message::ButtonShufflePress);
    assert!(main.queue().shuffle());
    let mut ids: Vec<usize> = main.queue().tracks().iter().map(|t| t.id()).collect();
    ids.sort();
    assert_eq!(ids, vec![0, 1, 2, 3, 4]);
    let _ = main.update(Message::ListExtend(vec![track("f")]));
    assert_eq!(main.queue().tracks().len(), 6);
    let _ = main.update(Message::ButtonShufflePress);
    assert!(!main.queue().shuffle());
    let ids: Vec<usize> = main.queue().tracks().iter().map(|t| t.id()).collect();
    assert_eq!(ids, vec![0, 1, 2, 3, 4, 5]);
}

#[test]
fn enter_plays_the_selected_track() {
    let mut main = library(&["a", "b", "c"]);
    assert_eq!(played(main.update(Message::KeyboardKeyEnterPress)), None);
    let _ = main.update(Message::KeyboardKeyArrowDownPress);
    let _ = main.update(Message::KeyboardKeyArrowDownPress);
    let _ = main.update(Message::KeyboardKeyArrowUpPress);
    let _ = main.update(Message::KeyboardKeyArrowDownPress);
    assert_eq!(played(main.update(Message::KeyboardKeyEnterPress)), Some(1));
    assert_eq!(played(main.update(Message::ButtonNextPress)), Some(2));
}

#[test]
fn pressing_a_track_plays_it_and_search_narrows_the_list() {
    let mut main = library(&["apple", "banana", "cherry"]);
    let banana = main.list().tracks()[1].clone();
    assert_eq!(played(main.update(Message::ListPress(banana))), Some(1));
    let _ = main.update(Message::SearchTextInput("cher".into()));
    let matching: Vec<usize> = main.list().matching().iter().map(|t| t.id()).collect();
    assert_eq!(matching, vec![2]);
    assert_eq!(main.list().search_query(), "cher");
    assert!(matches!(main.update(Message::ButtonFileOpenPress), Event::FileOpen));
    assert!(matches!(main.update(Message::ButtonFolderOpenPress), Event::FolderOpen));
}

#[test]
fn extending_twice_queues_new_tracks_only() {
    let mut main = library(&["a", "b"]);
    let _ = main.update(Message::ListExtend(vec![track("a"), track("c")]));
    let ids: Vec<usize> = main.queue().tracks().iter().map(|t| t.id()).collect();
    assert_eq!(ids, vec![0, 1, 2]);
    assert_eq!(main.list().tracks().len(), 3);
}

#[test]
fn the_track_list_screen_asks_the_queue_to_follow() {
    let mut screen = TrackList::new();
    let added = match screen.update(track_list::Message::TracksExtend(vec![track("a"), track("b")])) {
        track_list::Event::QueueExtend(added) => added,
        _ => panic!("expected tracks to queue"),
    };
    assert_eq!(added.len(), 2);
    let _ = screen.update(track_list::Message::KeyboardKeyArrowDownPress);
    match screen.update(track_list::Message::KeyboardKeyEnterPress) {
        track_list::Event::QueueSetCurrent(track) => assert_eq!(track.id(), 0),
        _ => panic!("expected the selected track"),
    }
    assert!(matches!(
        screen.update(track_list::Message::TrackPlay(added[1].clone())),
        track_list::Event::Nothing
    ));
    assert_eq!(screen.list().current().unwrap().id(), 1);
    match screen.update(track_list::Message::TrackPress(added[0].clone())) {
        track_list::Event::QueueSetCurrent(track) => assert_eq!(track.id(), 0),
        _ => panic!("expected the pressed track"),
    }
    let _ = screen.update(track_list::Message::SearchTextInput("b".into()));
    assert_eq!(screen.list().matching().len(), 1);
    assert!(matches!(
        screen.update(track_list::Message::TracksExtend(vec![track("a")])),
        track_list::Event::QueueExtend(added) if added.is_empty()
    ));
    assert!(matches!(
        screen.update(track_list::Message::ButtonFileOpenPress),
        track_list::Event::FileOpen
    ));
}
