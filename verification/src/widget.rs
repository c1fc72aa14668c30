//! The decisions of the player's widgets: each takes a message and answers
//! with what the screen around it must do.

pub mod toolbar;
pub mod track_list;
