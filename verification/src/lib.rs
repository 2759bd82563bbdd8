//! Verified core of a terminal music player: the play queue, lyrics parsing and
//! romanization, jukebox anti-loop branching and assorted view helpers.

pub mod assoc;
pub mod jukebox;
pub mod lyrics;
pub mod mpris;
pub mod queue;
pub mod spotify_worker;
pub mod text;
pub mod ui;
