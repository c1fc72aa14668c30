//! The decisions of the player's screens: each takes a message and answers
//! with what the screen around it must do.

pub mod main;
pub mod track_list;
