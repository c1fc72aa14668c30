//! The toolbar above the track table: it asks for files and folders and hands
//! the tracks read from them on.

use crate::track::Track;
use vstd::prelude::*;

verus! {

/// What the user did on the toolbar, or what came back of it.
#[derive(Debug)]
pub enum Message {
    FileOpen,
    FolderOpen,
    /// The path that the user picked, if any.
    PathPick(Option<String>),
    /// The tracks read from the picked path.
    TrackListExtend(Vec<Track>),
}

/// What the screen around the toolbar must do.
#[derive(Debug)]
pub enum Event {
    Nothing,
    /// Ask the user for a file, then send back `PathPick`.
    PickFile,
    /// Ask the user for a folder, then send back `PathPick`.
    PickFolder,
    /// Read the tracks at this path, then send back `TrackListExtend`.
    ReadPath(String),
    /// These tracks were read; the table takes them.
    TrackListExtended(Vec<Track>),
}

/// The toolbar; it keeps no state.
#[derive(Debug)]
pub struct Toolbar {}

impl Toolbar {
    pub fn new() -> (toolbar: Toolbar) {
        Toolbar {}
    }

    /// Handles `message`.
    pub fn update(&mut self, message: Message) -> (event: Event)
        ensures
            match message {
                Message::FileOpen => event == Event::PickFile,
                Message::FolderOpen => event == Event::PickFolder,
                Message::PathPick(None) => event == Event::Nothing,
                Message::PathPick(Some(path)) => event == Event::ReadPath(path),
                Message::TrackListExtend(tracks) => event == Event::TrackListExtended(tracks),
            },
    {
        match message {
            Message::FileOpen => Event::PickFile,
            Message::FolderOpen => Event::PickFolder,
            Message::PathPick(None) => Event::Nothing,
            Message::PathPick(Some(path)) => Event::ReadPath(path),
            Message::TrackListExtend(tracks) => Event::TrackListExtended(tracks),
        }
    }
}

} // verus!
