//! The track list screen on its own: it keeps the list, and asks the queue
//! beside it to follow.

use crate::list::{selection_after, selection_before, unseen, List, ListView};
use crate::track::{Track, TrackRef};
use vstd::prelude::*;

verus! {

/// What the user asked of the track list.
#[derive(Debug)]
pub enum Message {
    ButtonFileOpenPress,
    ButtonFolderOpenPress,
    KeyboardKeyArrowDownPress,
    KeyboardKeyArrowUpPress,
    KeyboardKeyEnterPress,
    SearchTextInput(String),
    TrackPlay(TrackRef),
    TrackPress(TrackRef),
    TracksExtend(Vec<Track>),
}

/// What the screens around the track list must do after a message.
#[derive(Debug)]
pub enum Event {
    Nothing,
    /// Ask for a file and read the tracks in it.
    FileOpen,
    /// Ask for a folder and read the tracks in it.
    FolderOpen,
    /// Queue these tracks, which the list has just added.
    QueueExtend(Vec<TrackRef>),
    /// Play this track next in the queue.
    QueueSetCurrent(TrackRef),
}

/// The track list screen.
#[derive(Debug)]
pub struct TrackList {
    list: List,
}

impl View for TrackList {
    type V = ListView;

    closed spec fn view(&self) -> ListView {
        self.list@
    }
}

impl TrackList {
    pub closed spec fn wf(&self) -> bool {
        self.list.wf()
    }

    pub fn new() -> (track_list: TrackList)
        ensures
            track_list.wf(),
            track_list@.tracks.len() == 0,
            track_list@.matching.len() == 0,
            track_list@.search_query.len() == 0,
            track_list@.current is None,
            track_list@.selected is None,
    {
        TrackList { list: List::new() }
    }

    pub fn list(&self) -> (list: &List)
        ensures
            list@ == self@,
            self.wf() ==> list.wf(),
    {
        &self.list
    }

    /// Handles `message`.
    pub fn update(&mut self, message: Message) -> (event: Event)
        requires
            old(self).wf(),
            message matches Message::TracksExtend(tracks) ==> old(self)@.tracks.len() + tracks@.len()
                <= usize::MAX,
        ensures
            final(self).wf(),
            match message {
                Message::ButtonFileOpenPress => event == Event::FileOpen && final(self)@ == old(self)@,
                Message::ButtonFolderOpenPress => event == Event::FolderOpen && final(self)@ == old(self)@,
                Message::KeyboardKeyArrowDownPress => event == Event::Nothing && final(self)@ == (
                ListView {
                    selected: selection_after(old(self)@.matching, old(self)@.selected),
                    ..old(self)@
                }),
                Message::KeyboardKeyArrowUpPress => event == Event::Nothing && final(self)@ == (
                ListView {
                    selected: selection_before(old(self)@.matching, old(self)@.selected),
                    ..old(self)@
                }),
                Message::KeyboardKeyEnterPress => match old(self)@.selected {
                    Some(track) => event == Event::QueueSetCurrent(track) && final(self)@ == (
                    ListView { current: Some(track), selected: Some(track), ..old(self)@ }),
                    None => event == Event::Nothing && final(self)@ == old(self)@,
                },
                Message::SearchTextInput(query) => {
                    &&& event == Event::Nothing
                    &&& final(self)@ == ListView {
                        search_query: query@,
                        matching: final(self)@.matching,
                        ..old(self)@
                    }
                    &&& crate::search::is_ranking(
                        old(self)@.tracks,
                        crate::search::track_scores(query@, old(self)@.tracks),
                        final(self)@.matching,
                    )
                },
                Message::TrackPlay(track) => event == Event::Nothing && final(self)@ == (ListView {
                    current: Some(track),
                    selected: Some(track),
                    ..old(self)@
                }),
                Message::TrackPress(track) => event == Event::QueueSetCurrent(track)
                    && final(self)@ == (ListView {
                    current: Some(track),
                    selected: Some(track),
                    ..old(self)@
                }),
                Message::TracksExtend(tracks) => match event {
                    Event::QueueExtend(added) => {
                        &&& added@.len() == unseen(tracks@, old(self)@.tracks).len()
                        &&& forall|k: int|
                            0 <= k < added@.len() ==> (#[trigger] added@[k]).identity() == old(self)@.tracks.len() + k && added@[k].content() == unseen(
                                tracks@,
                                old(self)@.tracks,
                            )[k]
                        &&& final(self)@.tracks == old(self)@.tracks + added@
                        &&& crate::search::is_ranking(
                            final(self)@.tracks,
                            crate::search::track_scores(
                                final(self)@.search_query,
                                final(self)@.tracks,
                            ),
                            final(self)@.matching,
                        )
                        &&& final(self)@.search_query == old(self)@.search_query
                        &&& final(self)@.current == old(self)@.current
                        &&& final(self)@.selected == old(self)@.selected
                    },
                    _ => false,
                },
            },
    {
        match message {
            Message::ButtonFileOpenPress => Event::FileOpen,
            Message::ButtonFolderOpenPress => Event::FolderOpen,
            Message::KeyboardKeyArrowDownPress => {
                self.list.select_next();
                Event::Nothing
            },
            Message::KeyboardKeyArrowUpPress => {
                self.list.select_previous();
                Event::Nothing
            },
            Message::KeyboardKeyEnterPress => {
                let selected = match self.list.selected() {
                    Some(track) => Some(track.clone()),
                    None => None,
                };
                match selected {
                    Some(track) => {
                        self.list.set_current_and_selected(&track);
                        Event::QueueSetCurrent(track)
                    },
                    None => Event::Nothing,
                }
            },
            Message::SearchTextInput(query) => {
                self.list.search(query);
                Event::Nothing
            },
            Message::TrackPlay(track) => {
                self.list.set_current_and_selected(&track);
                Event::Nothing
            },
            Message::TrackPress(track) => {
                self.list.set_current_and_selected(&track);
                Event::QueueSetCurrent(track)
            },
            Message::TracksExtend(tracks) => {
                let added = self.list.extend(tracks);
                Event::QueueExtend(added)
            },
        }
    }
}

} // verus!
