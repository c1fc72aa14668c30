//! A track table with a keyboard and mouse selection: arrows move it, shift
//! stretches it from an anchor, control toggles single rows, and next and
//! previous step the active track.

use crate::track::{same_track, Track};
use std::collections::HashSet;
use vstd::prelude::*;

verus! {

broadcast use vstd::std_specs::hash::group_hash_axioms;

/// The modifier keys that the table listens to.
#[derive(Clone, Copy, Debug, Default, PartialEq, Eq)]
pub struct Modifiers {
    pub control: bool,
    pub shift: bool,
}

impl Modifiers {
    pub fn control(&self) -> (control: bool)
        ensures
            control == self.control,
    {
        self.control
    }

    pub fn shift(&self) -> (shift: bool)
        ensures
            shift == self.shift,
    {
        self.shift
    }
}

/// What the user did to the table.
#[derive(Debug)]
pub enum Message {
    ArrowDownPress,
    ArrowUpPress,
    KeyboardModifiersChange(Modifiers),
    NextPress,
    PreviousPress,
    TrackDoubleClick(usize),
    TrackListExtend(Vec<Track>),
    TrackPress(usize),
}

/// What the screen around the table must do.
#[derive(Debug)]
pub enum Event {
    Nothing,
    /// Play this track.
    TrackActivated(Track),
}

/// `event` hands the player a track that says the same as `track`.
pub open spec fn activates(event: Event, track: Track) -> bool {
    event matches Event::TrackActivated(activated) && same_track(activated, track)
}

/// What the table holds, as contracts speak of it.
pub struct TrackListView {
    pub active: Option<usize>,
    pub anchor: Option<usize>,
    pub keyboard_modifiers: Modifiers,
    pub selected: Set<usize>,
    pub shift_arrow_index: Option<usize>,
    pub tracks: Seq<Track>,
}

/// The rows from `first` to `second`, both included, in either order.
pub open spec fn span(first: usize, second: usize) -> Set<usize> {
    Set::new(
        |row: usize|
            (first <= row <= second) || (second <= row <= first),
    )
}

/// The row from which an arrow moves: where the shift selection ends, or
/// else the anchor.
pub open spec fn arrow_start(view: TrackListView) -> Option<usize> {
    if view.shift_arrow_index is Some {
        view.shift_arrow_index
    } else {
        view.anchor
    }
}

/// The row that an arrow moves to: one down (at most the last row) or one up
/// (at least the first row) from where the shift selection ends, or else from
/// the anchor; the first row where neither is set.
pub open spec fn arrow_target(view: TrackListView, down: bool) -> usize {
    let from = if view.shift_arrow_index is Some {
        view.shift_arrow_index
    } else {
        view.anchor
    };
    match from {
        Some(row) => if down {
            if row + 1 < view.tracks.len() {
                (row + 1) as usize
            } else {
                (view.tracks.len() - 1) as usize
            }
        } else {
            if row > 0 {
                (row - 1) as usize
            } else {
                0
            }
        },
        None => 0,
    }
}

/// The table after an arrow press: nothing changes in an empty table; with
/// shift the selection stretches from the anchor to the new row; without it
/// the new row alone is selected and becomes the anchor.
pub open spec fn after_arrow(view: TrackListView, down: bool) -> TrackListView {
    if view.tracks.len() == 0 {
        view
    } else {
        let row = arrow_target(view, down);
        if view.keyboard_modifiers.shift {
            let anchor = match view.anchor {
                Some(anchor) => anchor,
                None => row,
            };
            TrackListView { shift_arrow_index: Some(row), selected: span(anchor, row), ..view }
        } else {
            TrackListView {
                anchor: Some(row),
                selected: set![row],
                shift_arrow_index: None,
                ..view
            }
        }
    }
}

/// The table after a click on `row`: with shift the selection stretches from
/// the anchor to the row (added to it with control as well, in place of it
/// otherwise); with control alone the row is toggled and becomes the anchor;
/// a plain click selects the row alone and makes it the anchor.
pub open spec fn after_press(view: TrackListView, row: usize) -> TrackListView {
    if view.keyboard_modifiers.shift {
        let anchor = match view.anchor {
            Some(anchor) => anchor,
            None => row,
        };
        let kept = if view.keyboard_modifiers.control {
            view.selected
        } else {
            Set::empty()
        };
        TrackListView { shift_arrow_index: Some(row), selected: kept.union(span(anchor, row)), ..view }
    } else if view.keyboard_modifiers.control {
        let toggled = if view.selected.contains(row) {
            view.selected.remove(row)
        } else {
            view.selected.insert(row)
        };
        TrackListView { anchor: Some(row), selected: toggled, shift_arrow_index: None, ..view }
    } else {
        TrackListView { anchor: Some(row), selected: set![row], shift_arrow_index: None, ..view }
    }
}

/// A table of tracks with a selection and an active track.
#[derive(Debug)]
pub struct TrackList {
    active: Option<usize>,
    anchor: Option<usize>,
    keyboard_modifiers: Modifiers,
    selected: HashSet<usize>,
    shift_arrow_index: Option<usize>,
    tracks: Vec<Track>,
}

impl View for TrackList {
    type V = TrackListView;

    closed spec fn view(&self) -> TrackListView {
        TrackListView {
            active: self.active,
            anchor: self.anchor,
            keyboard_modifiers: self.keyboard_modifiers,
            selected: self.selected@,
            shift_arrow_index: self.shift_arrow_index,
            tracks: self.tracks@,
        }
    }
}

/// Adds the rows from `first` to `second` to `selected`.
fn select_span(selected: &mut HashSet<usize>, first: usize, second: usize)
    ensures
        final(selected)@ == old(selected)@.union(span(first, second)),
{
    let (low, high) = if first <= second {
        (first, second)
    } else {
        (second, first)
    };
    let ghost start = selected@;
    let mut row = low;
    loop
        invariant_except_break
            low <= row <= high,
            selected@ == start.union(Set::new(|r: usize| low <= r < row)),
        ensures
            selected@ == start.union(Set::new(|r: usize| low <= r <= high)),
        decreases high - row,
    {
        selected.insert(row);
        if row == high {
            assert(selected@ =~= start.union(Set::new(|r: usize| low <= r <= high)));
            break;
        }
        row += 1;
        assert(selected@ =~= start.union(Set::new(|r: usize| low <= r < row)));
    }
    assert(span(first, second) =~= Set::new(|r: usize| low <= r <= high));
}

impl TrackList {
    /// The active track is a row of the table.
    pub closed spec fn wf(&self) -> bool {
        self.active matches Some(row) ==> row < self.tracks@.len()
    }

    pub fn new() -> (track_list: TrackList)
        ensures
            track_list.wf(),
            track_list@.active is None,
            track_list@.anchor is None,
            track_list@.keyboard_modifiers == (Modifiers { control: false, shift: false }),
            track_list@.selected == Set::<usize>::empty(),
            track_list@.shift_arrow_index is None,
            track_list@.tracks.len() == 0,
    {
        TrackList {
            active: None,
            anchor: None,
            keyboard_modifiers: Modifiers { control: false, shift: false },
            selected: HashSet::new(),
            shift_arrow_index: None,
            tracks: Vec::new(),
        }
    }

    pub fn tracks(&self) -> (tracks: &[Track])
        ensures
            tracks@ == self@.tracks,
    {
        self.tracks.as_slice()
    }

    pub fn active(&self) -> (active: Option<usize>)
        ensures
            active == self@.active,
            self.wf() ==> (active matches Some(row) ==> row < self@.tracks.len()),
    {
        self.active
    }

    pub fn is_selected(&self, row: usize) -> (selected: bool)
        ensures
            selected == self@.selected.contains(row),
    {
        self.selected.contains(&row)
    }

    /// Makes `row` the active track and hands it to the player.
    fn activate_track(&mut self, row: usize) -> (event: Event)
        requires
            row < old(self)@.tracks.len(),
        ensures
            final(self).wf(),
            final(self)@ == (TrackListView { active: Some(row), ..old(self)@ }),
            activates(event, old(self)@.tracks[row as int]),
    {
        self.active = Some(row);
        Event::TrackActivated(self.tracks[row].clone())
    }

    /// Moves the selection one row down or up.
    fn arrow_press(&mut self, down: bool)
        requires
            old(self).wf(),
            down && old(self)@.tracks.len() > 0 ==> arrow_start(old(self)@) != Some(usize::MAX),
        ensures
            final(self).wf(),
            final(self)@ == after_arrow(old(self)@, down),
    {
        if self.tracks.len() == 0 {
            return ;
        }
        let from = if self.shift_arrow_index.is_some() {
            self.shift_arrow_index
        } else {
            self.anchor
        };
        let row = match from {
            Some(current) => if down {
                if current < self.tracks.len() - 1 {
                    current + 1
                } else {
                    self.tracks.len() - 1
                }
            } else {
                if current > 0 {
                    current - 1
                } else {
                    0
                }
            },
            None => 0,
        };
        if self.keyboard_modifiers.shift() {
            self.shift_arrow_index = Some(row);
            let anchor = match self.anchor {
                Some(anchor) => anchor,
                None => row,
            };
            self.selected.clear();
            select_span(&mut self.selected, anchor, row);
            proof {
                assert(self@.selected =~= span(anchor, row));
            }
        } else {
            self.anchor = Some(row);
            self.selected.clear();
            self.selected.insert(row);
            self.shift_arrow_index = None;
            proof {
                assert(self@.selected =~= set![row]);
            }
        }
    }

    /// Handles `message`.
    pub fn update(&mut self, message: Message) -> (event: Event)
        requires
            old(self).wf(),
            message matches Message::TrackDoubleClick(row) ==> row < old(self)@.tracks.len(),
            message is ArrowDownPress && old(self)@.tracks.len() > 0 ==> arrow_start(old(self)@)
                != Some(usize::MAX),
        ensures
            final(self).wf(),
            final(self)@.tracks.len() <= usize::MAX,
            match message {
                Message::ArrowDownPress => event == Event::Nothing && final(self)@ == after_arrow(
                    old(self)@,
                    true,
                ),
                Message::ArrowUpPress => event == Event::Nothing && final(self)@ == after_arrow(
                    old(self)@,
                    false,
                ),
                Message::KeyboardModifiersChange(modifiers) => event == Event::Nothing
                    && final(self)@ == (TrackListView {
                    keyboard_modifiers: modifiers,
                    ..old(self)@
                }),
                Message::NextPress => if old(self)@.tracks.len() == 0 {
                    event == Event::Nothing && final(self)@ == old(self)@
                } else {
                    let row = match old(self)@.active {
                        Some(row) => if row + 1 < old(self)@.tracks.len() {
                            row + 1
                        } else {
                            old(self)@.tracks.len() - 1
                        },
                        None => 0,
                    };
                    activates(event, old(self)@.tracks[row]) && final(self)@ == (
                    TrackListView { active: Some(row as usize), ..old(self)@ })
                },
                Message::PreviousPress => if old(self)@.tracks.len() == 0 {
                    event == Event::Nothing && final(self)@ == old(self)@
                } else {
                    let row = match old(self)@.active {
                        Some(row) => if row > 0 {
                            row - 1
                        } else {
                            0
                        },
                        None => 0,
                    };
                    activates(event, old(self)@.tracks[row]) && final(self)@ == (
                    TrackListView { active: Some(row as usize), ..old(self)@ })
                },
                Message::TrackDoubleClick(row) => activates(event, old(self)@.tracks[row as int]) && final(self)@ == (TrackListView { active: Some(row), ..old(self)@ }),
                Message::TrackListExtend(tracks) => event == Event::Nothing && final(self)@ == (
                TrackListView { tracks: old(self)@.tracks + tracks@, ..old(self)@ }),
                Message::TrackPress(row) => event == Event::Nothing && final(self)@ == after_press(
                    old(self)@,
                    row,
                ),
            },
    {
        let length: usize = self.tracks.len();
        assert(self@.tracks.len() == length);
        match message {
            Message::ArrowDownPress => {
                self.arrow_press(true);
                Event::Nothing
            },
            Message::ArrowUpPress => {
                self.arrow_press(false);
                Event::Nothing
            },
            Message::KeyboardModifiersChange(keyboard_modifiers) => {
                self.keyboard_modifiers = keyboard_modifiers;
                Event::Nothing
            },
            Message::NextPress => {
                if self.tracks.len() == 0 {
                    return Event::Nothing;
                }
                let row = match self.active {
                    Some(row) => if row < self.tracks.len() - 1 {
                        row + 1
                    } else {
                        self.tracks.len() - 1
                    },
                    None => 0,
                };
                self.activate_track(row)
            },
            Message::PreviousPress => {
                if self.tracks.len() == 0 {
                    return Event::Nothing;
                }
                let row = match self.active {
                    Some(row) => if row > 0 {
                        row - 1
                    } else {
                        0
                    },
                    None => 0,
                };
                self.activate_track(row)
            },
            Message::TrackDoubleClick(row) => self.activate_track(row),
            Message::TrackListExtend(tracks) => {
                let mut tracks = tracks;
                self.tracks.append(&mut tracks);
                let extended: usize = self.tracks.len();
                assert(self@.tracks.len() == extended);
                Event::Nothing
            },
            Message::TrackPress(row) => {
                let ghost before = self@;
                if self.keyboard_modifiers.shift() {
                    let anchor = match self.anchor {
                        Some(anchor) => anchor,
                        None => row,
                    };
                    if !self.keyboard_modifiers.control() {
                        self.selected.clear();
                    }
                    self.shift_arrow_index = Some(row);
                    select_span(&mut self.selected, anchor, row);
                    proof {
                        let kept = if before.keyboard_modifiers.control {
                            before.selected
                        } else {
                            Set::empty()
                        };
                        assert(self@.selected =~= kept.union(span(anchor, row)));
                    }
                } else if self.keyboard_modifiers.control() {
                    if !self.selected.remove(&row) {
                        self.selected.insert(row);
                    }
                    self.anchor = Some(row);
                    self.shift_arrow_index = None;
                    proof {
                        let toggled = if before.selected.contains(row) {
                            before.selected.remove(row)
                        } else {
                            before.selected.insert(row)
                        };
                        assert(self@.selected =~= toggled);
                    }
                } else {
                    self.anchor = Some(row);
                    self.selected.clear();
                    self.selected.insert(row);
                    self.shift_arrow_index = None;
                    proof {
                        assert(self@.selected =~= set![row]);
                    }
                }
                Event::Nothing
            },
        }
    }
}

/// What a click does. With shift, the rows from the anchor (the clicked row
/// where there is none) to the clicked row, both included, are selected, and
/// the rows selected before stay selected only where control is held too;
/// the anchor stays, and the clicked row is where the shift selection ends.
/// With control alone the clicked row flips in or out of the selection and
/// becomes the anchor. A plain click selects the clicked row alone and makes
/// it the anchor. Neither kind of click leaves a shift selection behind
/// without shift.
pub proof fn lemma_click_selection(view: TrackListView, row: usize)
    ensures
        ({
            let after = after_press(view, row);
            let anchor = match view.anchor {
                Some(anchor) => anchor,
                None => row,
            };
            &&& after.tracks == view.tracks
            &&& after.active == view.active
            &&& after.keyboard_modifiers == view.keyboard_modifiers
            &&& view.keyboard_modifiers.shift ==> {
                &&& after.anchor == view.anchor
                &&& after.shift_arrow_index == Some(row)
                &&& forall|x: usize|
                    #[trigger] after.selected.contains(x) <==> ((anchor <= x && x <= row) || (row <= x
                        && x <= anchor) || (view.keyboard_modifiers.control && view.selected.contains(x)))
            }
            &&& !view.keyboard_modifiers.shift && view.keyboard_modifiers.control ==> {
                &&& after.anchor == Some(row)
                &&& after.shift_arrow_index is None
                &&& forall|x: usize|
                    #[trigger] after.selected.contains(x) <==> (if x == row {
                        !view.selected.contains(x)
                    } else {
                        view.selected.contains(x)
                    })
            }
            &&& !view.keyboard_modifiers.shift && !view.keyboard_modifiers.control ==> {
                &&& after.anchor == Some(row)
                &&& after.shift_arrow_index is None
                &&& forall|x: usize| #[trigger] after.selected.contains(x) <==> x == row
            }
        }),
{
}

/// The row an arrow moves to, counted from `from`: one down, but no further
/// than the last of `length` rows, or one up, but no further than the first
/// row; the first row where there is no row to count from.
pub open spec fn step_row(from: Option<usize>, length: int, down: bool) -> int {
    match from {
        Some(row) => if down {
            if row + 1 < length {
                row + 1
            } else {
                length - 1
            }
        } else {
            if row > 0 {
                row - 1
            } else {
                0
            }
        },
        None => 0,
    }
}

/// What an arrow does. In an empty table nothing changes. Otherwise the arrow
/// moves one row from where a shift selection ends, else from the anchor.
/// Without shift that row alone is selected, becomes the anchor, and no shift
/// selection is left; with shift the rows from the anchor (the new row where
/// there is none) to the new row are selected, the anchor stays, and the new
/// row is where the shift selection ends.
pub proof fn lemma_arrow_selection(view: TrackListView, down: bool)
    requires
        view.tracks.len() <= usize::MAX,
    ensures
        ({
            let after = after_arrow(view, down);
            let from = if view.shift_arrow_index is Some {
                view.shift_arrow_index
            } else {
                view.anchor
            };
            let target = step_row(from, view.tracks.len() as int, down);
            &&& after.tracks == view.tracks
            &&& after.active == view.active
            &&& after.keyboard_modifiers == view.keyboard_modifiers
            &&& view.tracks.len() == 0 ==> after == view
            &&& view.tracks.len() > 0 && !view.keyboard_modifiers.shift ==> {
                &&& 0 <= target <= usize::MAX
                &&& down ==> target < view.tracks.len()
                &&& after.anchor == Some(target as usize)
                &&& after.shift_arrow_index is None
                &&& forall|x: usize| #[trigger] after.selected.contains(x) <==> x == target
            }
            &&& view.tracks.len() > 0 && view.keyboard_modifiers.shift ==> {
                let anchor: int = match view.anchor {
                    Some(anchor) => anchor as int,
                    None => target,
                };
                &&& 0 <= target <= usize::MAX
                &&& down ==> target < view.tracks.len()
                &&& after.anchor == view.anchor
                &&& after.shift_arrow_index == Some(target as usize)
                &&& forall|x: usize|
                    #[trigger] after.selected.contains(x) <==> ((anchor <= x && x <= target) || (
                    target <= x && x <= anchor))
            }
        }),
{
    if view.tracks.len() > 0 {
        let from = if view.shift_arrow_index is Some {
            view.shift_arrow_index
        } else {
            view.anchor
        };
        let target = step_row(from, view.tracks.len() as int, down);
        assert(arrow_target(view, down) as int == target);
        let after = after_arrow(view, down);
        if view.keyboard_modifiers.shift {
            let anchor = match view.anchor {
                Some(anchor) => anchor,
                None => target as usize,
            };
            assert(after.selected == span(anchor, target as usize));
        } else {
            assert(after.selected == set![target as usize]);
        }
    }
}

/// Plain arrows step one row at a time from where the last one left the
/// selection: a second down arrow selects the row below the first one's (the
/// last row stays the last), a second up arrow the row above it (the first
/// stays the first), and an up arrow after a down arrow that did not stop at
/// the last row comes back to the row it started from.
pub proof fn lemma_plain_arrows_step(view: TrackListView, down: bool)
    requires
        view.tracks.len() > 0,
        view.tracks.len() <= usize::MAX,
        !view.keyboard_modifiers.shift,
    ensures
        ({
            let first = after_arrow(view, down);
            let length = view.tracks.len();
            let row = first.anchor->0;
            &&& first.anchor is Some
            &&& first.selected == set![row]
            &&& first.shift_arrow_index is None
            &&& after_arrow(first, true).selected == set![
                (if row + 1 < length { row + 1 } else { length - 1 }) as usize
            ]
            &&& after_arrow(first, false).selected == set![(if row > 0 { row - 1 } else { 0 }) as usize]
            &&& row + 1 < length ==> after_arrow(after_arrow(first, true), false).selected == set![row]
        }),
{
    lemma_arrow_selection(view, down);
    let first = after_arrow(view, down);
    let row = first.anchor->0;
    lemma_arrow_selection(first, true);
    lemma_arrow_selection(first, false);
    assert(first.selected =~= set![row]);
    let down_row = (if row + 1 < view.tracks.len() { row + 1 } else { view.tracks.len() - 1 }) as usize;
    let up_row = (if row > 0 { row - 1 } else { 0 }) as usize;
    assert(after_arrow(first, true).selected =~= set![down_row]);
    assert(after_arrow(first, false).selected =~= set![up_row]);
    if row + 1 < view.tracks.len() {
        let second = after_arrow(first, true);
        lemma_arrow_selection(second, false);
        assert(after_arrow(second, false).selected =~= set![row]);
    }
}

} // verus!
