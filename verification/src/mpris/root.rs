//! The answers of the MPRIS root interface (`org.mpris.MediaPlayer2`).

use vstd::prelude::*;

verus! {

/// The root MPRIS object: the player can neither quit nor be raised, and has
/// a track list.
pub struct MprisRoot {}

impl MprisRoot {
    pub fn can_quit(&self) -> (r: bool)
        ensures
            !r,
    {
        false
    }

    pub fn can_raise(&self) -> (r: bool)
        ensures
            !r,
    {
        false
    }

    pub fn has_tracklist(&self) -> (r: bool)
        ensures
            r,
    {
        true
    }

    pub fn identity(&self) -> (r: &'static str)
        ensures
            r@ == "ncspot"@,
    {
        "ncspot"
    }

    pub fn supported_uri_schemes(&self) -> (r: Vec<String>)
        ensures
            r@.len() == 1,
            r@[0]@ == "spotify"@,
    {
        let mut v: Vec<String> = Vec::new();
        v.push(String::from_str("spotify"));
        v
    }

    pub fn supported_mime_types(&self) -> (r: Vec<String>)
        ensures
            r@.len() == 0,
    {
        Vec::new()
    }

    /// Raising is not supported: does nothing.
    pub fn raise(&self) {
    }

    /// Quitting is not supported: does nothing.
    pub fn quit(&self) {
    }
}

} // verus!
