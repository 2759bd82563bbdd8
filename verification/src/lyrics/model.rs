//! The lyrics data model: where lyrics came from, their lines, and the state
//! of the lyrics pane.

use vstd::prelude::*;
use crate::text::str_eq;

verus! {

/// A source of lyrics.
#[derive(Clone, Copy, Debug, PartialEq, Eq, Structural)]
pub enum ProviderId {
    Lrclib,
    Spotify,
    Netease,
    Musixmatch,
}

/// The configuration name of a provider.
pub open spec fn provider_key(p: ProviderId) -> Seq<char> {
    match p {
        ProviderId::Lrclib => "lrclib"@,
        ProviderId::Spotify => "spotify"@,
        ProviderId::Netease => "netease"@,
        ProviderId::Musixmatch => "musixmatch"@,
    }
}

/// The provider whose configuration name is `s`, if any.
pub open spec fn provider_of_key(s: Seq<char>) -> Option<ProviderId> {
    if s == "lrclib"@ {
        Some(ProviderId::Lrclib)
    } else if s == "spotify"@ {
        Some(ProviderId::Spotify)
    } else if s == "netease"@ {
        Some(ProviderId::Netease)
    } else if s == "musixmatch"@ {
        Some(ProviderId::Musixmatch)
    } else {
        None
    }
}

/// The name of a provider as shown to the user.
pub open spec fn provider_title(p: ProviderId) -> Seq<char> {
    match p {
        ProviderId::Lrclib => "LRCLIB"@,
        ProviderId::Spotify => "Spotify"@,
        ProviderId::Netease => "NetEase"@,
        ProviderId::Musixmatch => "Musixmatch"@,
    }
}

impl ProviderId {
    pub fn as_str(&self) -> (r: &'static str)
        ensures
            r@ == provider_key(*self),
    {
        match self {
            ProviderId::Lrclib => "lrclib",
            ProviderId::Spotify => "spotify",
            ProviderId::Netease => "netease",
            ProviderId::Musixmatch => "musixmatch",
        }
    }

    pub fn from_str(s: &str) -> (r: Option<ProviderId>)
        ensures
            r == provider_of_key(s@),
    {
        if str_eq(s, "lrclib") {
            Some(ProviderId::Lrclib)
        } else if str_eq(s, "spotify") {
            Some(ProviderId::Spotify)
        } else if str_eq(s, "netease") {
            Some(ProviderId::Netease)
        } else if str_eq(s, "musixmatch") {
            Some(ProviderId::Musixmatch)
        } else {
            None
        }
    }

    pub fn display_name(&self) -> (r: &'static str)
        ensures
            r@ == provider_title(*self),
    {
        match self {
            ProviderId::Lrclib => "LRCLIB",
            ProviderId::Spotify => "Spotify",
            ProviderId::Netease => "NetEase",
            ProviderId::Musixmatch => "Musixmatch",
        }
    }
}

/// Reading back the configuration name of a provider gives that provider.
pub proof fn lemma_provider_key_roundtrip(p: ProviderId)
    ensures
        provider_of_key(provider_key(p)) == Some(p),
{
    reveal_strlit("lrclib");
    reveal_strlit("spotify");
    reveal_strlit("netease");
    reveal_strlit("musixmatch");
    assert("spotify"@.len() != "lrclib"@.len());
    assert("netease"@.len() != "lrclib"@.len());
    assert("netease"@[0] != "spotify"@[0]);
    assert("musixmatch"@.len() != "lrclib"@.len());
    assert("musixmatch"@.len() != "spotify"@.len());
    assert("musixmatch"@.len() != "netease"@.len());
}

/// What the lyrics providers are asked about.
#[derive(Clone, Debug)]
pub struct TrackMeta {
    pub spotify_id: Option<String>,
    pub title: String,
    pub artist: String,
    pub album: Option<String>,
    pub duration_ms: u32,
}

/// One line of lyrics, with its start time when the lyrics are synced.
#[derive(Clone, Debug)]
pub struct LyricLine {
    pub start_ms: Option<u32>,
    pub text: String,
    pub translation: Option<String>,
    pub romanization: Option<String>,
}

/// The value of a lyric line.
pub struct LineView {
    pub start_ms: Option<u32>,
    pub text: Seq<char>,
    pub translation: Option<Seq<char>>,
    pub romanization: Option<Seq<char>>,
}

impl View for LyricLine {
    type V = LineView;

    open spec fn view(&self) -> LineView {
        LineView {
            start_ms: self.start_ms,
            text: self.text@,
            translation: self.translation.deep_view(),
            romanization: self.romanization.deep_view(),
        }
    }
}

/// The values of a sequence of lyric lines.
pub open spec fn lines_view(lines: Seq<LyricLine>) -> Seq<LineView> {
    lines.map_values(|l: LyricLine| l@)
}

/// Lyrics of one track.
#[derive(Clone, Debug)]
pub struct Lyrics {
    pub provider: ProviderId,
    pub synced: bool,
    pub rtl: bool,
    pub language: Option<String>,
    pub lines: Vec<LyricLine>,
}

/// The value of lyrics.
pub struct LyricsValue {
    pub provider: ProviderId,
    pub synced: bool,
    pub rtl: bool,
    pub language: Option<Seq<char>>,
    pub lines: Seq<LineView>,
}

impl View for Lyrics {
    type V = LyricsValue;

    open spec fn view(&self) -> LyricsValue {
        LyricsValue {
            provider: self.provider,
            synced: self.synced,
            rtl: self.rtl,
            language: self.language.deep_view(),
            lines: lines_view(self.lines@),
        }
    }
}

/// Whether the line starts at or before `pos_ms`.
pub open spec fn started_by(l: LineView, pos_ms: u32) -> bool {
    match l.start_ms {
        Some(s) => s <= pos_ms,
        None => false,
    }
}

/// The index of the last of the first `n` lines that started at or before `pos_ms`.
pub open spec fn last_started(lines: Seq<LineView>, pos_ms: u32, n: int) -> Option<int>
    decreases n,
{
    if n <= 0 {
        None
    } else if started_by(lines[n - 1], pos_ms) {
        Some(n - 1)
    } else {
        last_started(lines, pos_ms, n - 1)
    }
}

impl Lyrics {
    /// Index of the last line whose timestamp is at or before `pos_ms`; `None`
    /// if the lyrics are not synced or no line has started yet.
    pub fn active_index(&self, pos_ms: u32) -> (r: Option<usize>)
        ensures
            !self.synced ==> r is None,
            self.synced ==> match last_started(lines_view(self.lines@), pos_ms, self.lines@.len() as int) {
                Some(i) => r == Some(i as usize),
                None => r is None,
            },
    {
        if !self.synced {
            return None;
        }
        let ghost lv = lines_view(self.lines@);
        let mut n = self.lines.len();
        while n > 0
            invariant
                self.synced,
                n <= self.lines@.len(),
                lv == lines_view(self.lines@),
                last_started(lv, pos_ms, n as int) == last_started(lv, pos_ms, self.lines@.len() as int),
            decreases n,
        {
            assert(lv[n - 1] == self.lines@[n - 1]@);
            match self.lines[n - 1].start_ms {
                Some(s) => {
                    if s <= pos_ms {
                        return Some(n - 1);
                    }
                },
                None => {},
            }
            n = n - 1;
        }
        None
    }
}

/// What the lyrics pane shows for the playing track.
#[derive(Clone, Debug)]
pub enum LyricsState {
    Idle,
    Loading { track_id: String },
    Loaded { track_id: String, lyrics: Lyrics },
    NotFound { track_id: String, tried: Vec<ProviderId> },
    Error { track_id: String, message: String },
}

} // verus!
