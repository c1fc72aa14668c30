//! The library behind the Prism music player: the track model, the searchable
//! track list, the play queue and the decisions that the player's screens make.

pub mod composition;
pub mod list;
pub mod queue;
pub mod search;
pub mod style;
pub mod track;
pub mod trigram;
pub mod widget;
