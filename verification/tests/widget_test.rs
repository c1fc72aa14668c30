use prism::track::Track;
use prism::widget::toolbar::{self, Toolbar};
use prism::widget::track_list::{Event, Message, Modifiers, TrackList};

fn table(count: usize) -> TrackList {
    let mut table = TrackList::new();
    let tracks = (0..count)
        .map(|index| Track {
            title: Some(format!("track {index}")),
            ..Default::default()
        })
        .collect();
    let _ = table.update(Message::TrackListExtend(tracks));
    table
}

fn selected(table: &TrackList, count: usize) -> Vec<usize> {
    (0..count).filter(|row| table.is_selected(*row)).collect()
}

fn activated_title(event: Event) -> Option<String> {
    match event {
        Event::TrackActivated(track) => track.title,
        Event::Nothing => None,
    }
}

#[test]
fn arrows_move_a_single_selection() {
    let mut table = table(3);
    let _ = table.update(Message::ArrowDownPress);
    assert_eq!(selected(&table, 3), vec![0]);
    let _ = table.update(Message::ArrowDownPress);
    assert_eq!(selected(&table, 3), vec![1]);
    let _ = table.update(Message::ArrowDownPress);
    let _ = table.update(Message::ArrowDownPress);
    assert_eq!(selected(&table, 3), vec![2]);
    let _ = table.update(Message::ArrowUpPress);
    let _ = table.update(Message::ArrowUpPress);
    let _ = table.update(Message::ArrowUpPress);
    assert_eq!(selected(&table, 3), vec![0]);
}

#[test]
fn shift_arrows_stretch_the_selection_from_the_anchor() {
    let mut table = table(5);
    let _ = table.update(Message::TrackPress(1));
    let _ = table.update(Message::KeyboardModifiersChange(Modifiers {
        control: false,
        shift: true,
    }));
    let _ = table.update(Message::ArrowDownPress);
    let _ = table.update(Message::ArrowDownPress);
    assert_eq!(selected(&table, 5), vec![1, 2, 3]);
    let _ = table.update(Message::ArrowUpPress);
    let _ = table.update(Message::ArrowUpPress);
    let _ = table.update(Message::ArrowUpPress);
    assert_eq!(selected(&table, 5), vec![0, 1]);
}

#[test]
fn arrows_do_nothing_in_an_empty_table() {
    let mut table = TrackList::new();
    let _ = table.update(Message::ArrowDownPress);
    assert!(table.tracks().is_empty());
    assert!(!table.is_selected(0));
}

#[test]
fn control_clicks_toggle_rows() {
    let mut table = table(4);
    let _ = table.update(Message::TrackPress(0));
    let _ = table.update(Message::KeyboardModifiersChange(Modifiers {
        control: true,
        shift: false,
    }));
    let _ = table.update(Message::TrackPress(2));
    assert_eq!(selected(&table, 4), vec![0, 2]);
    let _ = table.update(Message::TrackPress(0));
    assert_eq!(selected(&table, 4), vec![2]);
}

#[test]
fn shift_clicks_select_a_span() {
    let mut table = table(6);
    let _ = table.update(Message::TrackPress(4));
    let _ = table.update(Message::KeyboardModifiersChange(Modifiers {
        control: false,
        shift: true,
    }));
    let _ = table.update(Message::TrackPress(1));
    assert_eq!(selected(&table, 6), vec![1, 2, 3, 4]);
    let _ = table.update(Message::KeyboardModifiersChange(Modifiers {
        control: true,
        shift: true,
    }));
    let _ = table.update(Message::TrackPress(5));
    assert_eq!(selected(&table, 6), vec![1, 2, 3, 4, 5]);
}

#[test]
fn next_and_previous_step_the_active_track() {
    let mut table = table(3);
    assert_eq!(activated_title(table.update(Message::NextPress)), Some("track 0".into()));
    assert_eq!(activated_title(table.update(Message::NextPress)), Some("track 1".into()));
    assert_eq!(activated_title(table.update(Message::NextPress)), Some("track 2".into()));
    assert_eq!(activated_title(table.update(Message::NextPress)), Some("track 2".into()));
    assert_eq!(table.active(), Some(2));
    assert_eq!(activated_title(table.update(Message::PreviousPress)), Some("track 1".into()));
    assert_eq!(activated_title(table.update(Message::TrackDoubleClick(0))), Some("track 0".into()));
    assert_eq!(activated_title(table.update(Message::PreviousPress)), Some("track 0".into()));
}

#[test]
fn next_does_nothing_in_an_empty_table() {
    let mut table = TrackList::new();
    assert!(activated_title(table.update(Message::NextPress)).is_none());
    assert!(table.active().is_none());
}

#[test]
fn the_toolbar_asks_for_paths_and_hands_tracks_on() {
    let mut bar = Toolbar::new();
    assert!(matches!(bar.update(toolbar::Message::FileOpen), toolbar::Event::PickFile));
    assert!(matches!(bar.update(toolbar::Message::FolderOpen), toolbar::Event::PickFolder));
    assert!(matches!(bar.update(toolbar::Message::PathPick(None)), toolbar::Event::Nothing));
    match bar.update(toolbar::Message::PathPick(Some("/music".into()))) {
        toolbar::Event::ReadPath(path) => assert_eq!(path, "/music"),
        _ => panic!("expected a path to read"),
    }
    match bar.update(toolbar::Message::TrackListExtend(vec![Track::default()])) {
        toolbar::Event::TrackListExtended(tracks) => assert_eq!(tracks.len(), 1),
        _ => panic!("expected the tracks"),
    }
}
