//! Decisions of the views: the lyrics pane and the jukebox page (what they
//! show, where things go, what keys and commands do), and whether the
//! terminal can show images.

pub mod image_render;
pub mod jukebox;
pub mod jukebox_settings;
pub mod lyrics;
