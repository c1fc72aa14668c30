//! The player's main screen: the track list and the play queue side by side.
//! Each message updates both and answers with what the player must do.

use crate::list::{selection_after, selection_before, List, ListView};
use crate::queue::{track_after, track_before, Queue, QueueView};
use crate::track::{Track, TrackRef};
use vstd::prelude::*;

verus! {

/// What the user asked of the main screen.
#[derive(Debug)]
pub enum Message {
    ButtonFileOpenPress,
    ButtonFolderOpenPress,
    ButtonNextPress,
    ButtonPreviousPress,
    ButtonRepeatPress,
    ButtonShufflePress,
    KeyboardKeyArrowDownPress,
    KeyboardKeyArrowUpPress,
    KeyboardKeyEnterPress,
    ListExtend(Vec<Track>),
    ListPress(TrackRef),
    SearchTextInput(String),
}

/// What the player must do after a message.
#[derive(Debug)]
pub enum Event {
    Nothing,
    /// Ask for a file and read the tracks in it.
    FileOpen,
    /// Ask for a folder and read the tracks in it.
    FolderOpen,
    /// Play this track.
    Play(TrackRef),
}

/// What the main screen holds, as contracts speak of it.
pub struct MainView {
    pub list: ListView,
    pub queue: QueueView,
}

/// The track list and the play queue of the player.
#[derive(Debug)]
pub struct Main {
    list: List,
    queue: Queue,
}

impl View for Main {
    type V = MainView;

    closed spec fn view(&self) -> MainView {
        MainView { list: self.list@, queue: self.queue@ }
    }
}

/// The list with `track` both playing and selected.
pub open spec fn with_current_and_selected(list: ListView, track: TrackRef) -> ListView {
    ListView { current: Some(track), selected: Some(track), ..list }
}

impl Main {
    /// The list is well formed, and the queue holds the list's tracks: each
    /// exactly as often, and in the list's order while shuffle is off.
    pub closed spec fn wf(&self) -> bool {
        &&& self.list.wf()
        &&& self@.queue.tracks.to_multiset() == self@.list.tracks.to_multiset()
        &&& !self@.queue.shuffle ==> self@.queue.tracks == self@.list.tracks
    }

    /// The list of the screen.
    pub closed spec fn list_spec(&self) -> List {
        self.list
    }

    pub fn new() -> (main: Main)
        ensures
            main.wf(),
            main@.list.tracks.len() == 0,
            main@.list.matching.len() == 0,
            main@.list.search_query.len() == 0,
            main@.list.current is None,
            main@.list.selected is None,
            main@.queue.tracks.len() == 0,
            main@.queue.current is None,
            !main@.queue.repeat,
            !main@.queue.shuffle,
    {
        let main = Main { list: List::new(), queue: Queue::new() };
        proof {
            assert(main@.queue.tracks =~= main@.list.tracks);
        }
        main
    }

    pub fn list(&self) -> (list: &List)
        ensures
            *list == self.list_spec(),
            list@ == self@.list,
            self.wf() ==> list.wf(),
    {
        &self.list
    }

    pub fn queue(&self) -> (queue: &Queue)
        ensures
            queue@ == self@.queue,
    {
        &self.queue
    }

    /// Plays `track`: it becomes the playing and the selected track of the
    /// list and the playing track of the queue.
    fn play(&mut self, track: TrackRef) -> (event: Event)
        requires
            old(self).wf(),
        ensures
            final(self).wf(),
            final(self)@ == (MainView {
                list: with_current_and_selected(old(self)@.list, track),
                queue: QueueView { current: Some(track), ..old(self)@.queue },
            }),
            event == Event::Play(track),
    {
        self.list.set_current_and_selected(&track);
        self.queue.set_current(&track);
        Event::Play(track)
    }

    /// Handles `message`.
    pub fn update(&mut self, message: Message) -> (event: Event)
        requires
            old(self).wf(),
            message matches Message::ListExtend(tracks) ==> old(self)@.list.tracks.len()
                + tracks@.len() <= usize::MAX,
        ensures
            final(self).wf(),
            match message {
                Message::ButtonFileOpenPress => event == Event::FileOpen && final(self)@ == old(self)@,
                Message::ButtonFolderOpenPress => event == Event::FolderOpen && final(self)@ == old(self)@,
                Message::ButtonNextPress => match track_after(
                    old(self)@.queue.tracks,
                    old(self)@.queue.current,
                    old(self)@.queue.repeat,
                ) {
                    Some(track) => event == Event::Play(track) && final(self)@ == (MainView {
                        list: with_current_and_selected(old(self)@.list, track),
                        queue: QueueView { current: Some(track), ..old(self)@.queue },
                    }),
                    None => event == Event::Nothing && final(self)@ == old(self)@,
                },
                Message::ButtonPreviousPress => match track_before(
                    old(self)@.queue.tracks,
                    old(self)@.queue.current,
                    old(self)@.queue.repeat,
                ) {
                    Some(track) => event == Event::Play(track) && final(self)@ == (MainView {
                        list: with_current_and_selected(old(self)@.list, track),
                        queue: QueueView { current: Some(track), ..old(self)@.queue },
                    }),
                    None => event == Event::Nothing && final(self)@ == old(self)@,
                },
                Message::ButtonRepeatPress => event == Event::Nothing && final(self)@ == (MainView {
                    queue: QueueView { repeat: !old(self)@.queue.repeat, ..old(self)@.queue },
                    ..old(self)@
                }),
                Message::ButtonShufflePress => {
                    &&& event == Event::Nothing
                    &&& final(self)@.list == old(self)@.list
                    &&& final(self)@.queue.shuffle == !old(self)@.queue.shuffle
                    &&& final(self)@.queue.current == old(self)@.queue.current
                    &&& final(self)@.queue.repeat == old(self)@.queue.repeat
                    &&& final(self)@.queue.tracks.to_multiset()
                        == old(self)@.list.tracks.to_multiset()
                    &&& old(self)@.queue.shuffle
                        ==> final(self)@.queue.tracks == old(self)@.list.tracks
                },
                Message::KeyboardKeyArrowDownPress => event == Event::Nothing && final(self)@ == (
                MainView {
                    list: ListView {
                        selected: selection_after(
                            old(self)@.list.matching,
                            old(self)@.list.selected,
                        ),
                        ..old(self)@.list
                    },
                    ..old(self)@
                }),
                Message::KeyboardKeyArrowUpPress => event == Event::Nothing && final(self)@ == (
                MainView {
                    list: ListView {
                        selected: selection_before(
                            old(self)@.list.matching,
                            old(self)@.list.selected,
                        ),
                        ..old(self)@.list
                    },
                    ..old(self)@
                }),
                Message::KeyboardKeyEnterPress => match old(self)@.list.selected {
                    Some(track) => event == Event::Play(track) && final(self)@ == (MainView {
                        list: with_current_and_selected(old(self)@.list, track),
                        queue: QueueView { current: Some(track), ..old(self)@.queue },
                    }),
                    None => event == Event::Nothing && final(self)@ == old(self)@,
                },
                Message::ListExtend(tracks) => {
                    &&& event == Event::Nothing
                    &&& final(self)@.list.tracks.len() >= old(self)@.list.tracks.len()
                    &&& final(self)@.list.tracks.subrange(0, old(self)@.list.tracks.len() as int)
                        == old(self)@.list.tracks
                    &&& final(self)@.list.tracks.len() - old(self)@.list.tracks.len()
                        == crate::list::unseen(tracks@, old(self)@.list.tracks).len()
                    &&& forall|k: int|
                        old(self)@.list.tracks.len() <= k < final(self)@.list.tracks.len() ==> (
                        #[trigger] final(self)@.list.tracks[k]).content() == crate::list::unseen(
                            tracks@,
                            old(self)@.list.tracks,
                        )[k - old(self)@.list.tracks.len()]
                    &&& final(self)@.list.search_query == old(self)@.list.search_query
                    &&& final(self)@.list.current == old(self)@.list.current
                    &&& final(self)@.list.selected == old(self)@.list.selected
                    &&& crate::search::is_ranking(
                        final(self)@.list.tracks,
                        crate::search::track_scores(
                            final(self)@.list.search_query,
                            final(self)@.list.tracks,
                        ),
                        final(self)@.list.matching,
                    )
                    &&& final(self)@.queue.current == old(self)@.queue.current
                    &&& final(self)@.queue.repeat == old(self)@.queue.repeat
                    &&& final(self)@.queue.shuffle == old(self)@.queue.shuffle
                    &&& final(self)@.queue.tracks.to_multiset()
                        == final(self)@.list.tracks.to_multiset()
                    &&& !final(self)@.queue.shuffle
                        ==> final(self)@.queue.tracks == final(self)@.list.tracks
                },
                Message::ListPress(track) => event == Event::Play(track) && final(self)@ == (
                MainView {
                    list: with_current_and_selected(old(self)@.list, track),
                    queue: QueueView { current: Some(track), ..old(self)@.queue },
                }),
                Message::SearchTextInput(query) => {
                    &&& event == Event::Nothing
                    &&& final(self)@.queue == old(self)@.queue
                    &&& final(self)@.list == ListView {
                        search_query: query@,
                        matching: final(self)@.list.matching,
                        ..old(self)@.list
                    }
                    &&& crate::search::is_ranking(
                        old(self)@.list.tracks,
                        crate::search::track_scores(query@, old(self)@.list.tracks),
                        final(self)@.list.matching,
                    )
                },
            },
    {
        match message {
            Message::ButtonFileOpenPress => Event::FileOpen,
            Message::ButtonFolderOpenPress => Event::FolderOpen,
            Message::ButtonNextPress => {
                let found = match self.queue.next() {
                    Some(track) => Some(track.clone()),
                    None => None,
                };
                match found {
                    Some(track) => self.play(track),
                    None => Event::Nothing,
                }
            },
            Message::ButtonPreviousPress => {
                let found = match self.queue.previous() {
                    Some(track) => Some(track.clone()),
                    None => None,
                };
                match found {
                    Some(track) => self.play(track),
                    None => Event::Nothing,
                }
            },
            Message::ButtonRepeatPress => {
                if self.queue.repeat() {
                    self.queue.repeat_disable();
                } else {
                    self.queue.repeat_enable();
                }
                Event::Nothing
            },
            Message::ButtonShufflePress => {
                if self.queue.shuffle() {
                    self.queue.shuffle_disable(self.list.tracks());
                } else {
                    self.queue.shuffle_enable();
                }
                Event::Nothing
            },
            Message::KeyboardKeyArrowDownPress => {
                self.list.select_next();
                Event::Nothing
            },
            Message::KeyboardKeyArrowUpPress => {
                self.list.select_previous();
                Event::Nothing
            },
            Message::KeyboardKeyEnterPress => {
                let selected = match self.list.selected() {
                    Some(track) => Some(track.clone()),
                    None => None,
                };
                match selected {
                    Some(track) => self.play(track),
                    None => Event::Nothing,
                }
            },
            Message::ListExtend(tracks) => {
                let ghost old_list = self@.list.tracks;
                let ghost old_queue = self@.queue.tracks;
                let added = self.list.extend(tracks);
                let ghost added_view = added@;
                self.queue.extend(added);
                proof {
                    vstd::seq_lib::lemma_multiset_commutative(old_list, added_view);
                    vstd::seq_lib::lemma_multiset_commutative(old_queue, added_view);
                    assert(self@.list.tracks.subrange(0, old_list.len() as int) =~= old_list);
                    assert(forall|k: int|
                        old_list.len() <= k < self@.list.tracks.len() ==> (
                        #[trigger] self@.list.tracks[k]) == added_view[k - old_list.len()]);
                }
                Event::Nothing
            },
            Message::ListPress(track) => self.play(track),
            Message::SearchTextInput(query) => {
                self.list.search(query);
                Event::Nothing
            },
        }
    }
}

/// The queue holds the list's tracks: each exactly as often, and in the
/// list's order while shuffle is off.
pub proof fn lemma_queue_holds_list_tracks(main: Main)
    requires
        main.wf(),
    ensures
        main@.queue.tracks.to_multiset() == main@.list.tracks.to_multiset(),
        !main@.queue.shuffle ==> main@.queue.tracks == main@.list.tracks,
        main.list_spec().wf(),
        main.list_spec()@ == main@.list,
{
}

} // verus!
