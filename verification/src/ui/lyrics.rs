//! The lyrics pane: which track's lyrics it waits for, the selected line,
//! the sync offset, how the lines are laid out in rows, where a click lands,
//! where a seek to a line goes, and what each key and command does.

use vstd::prelude::*;
use crate::lyrics::model::{LineView, LyricsState, ProviderId, TrackMeta, last_started, lines_view, provider_key};
use crate::lyrics::{FetchOutcome, LyricsManager, cache_key_of};
use crate::text::push_char;

verus! {

/// The playback position to seek to for a line starting at `start_ms`, when
/// the lyrics are shown `offset_ms` early (a negative offset: late): the
/// start minus the offset, at least zero, as a `u32` (truncated).
pub fn seek_target_ms(start_ms: u32, offset_ms: i64) -> (r: u32)
    requires
        start_ms - offset_ms <= i64::MAX,
    ensures
        r == (if start_ms - offset_ms < 0 {
            0
        } else {
            (start_ms - offset_ms) as u32
        }),
{
    let d: i64 = start_ms as i64 - offset_ms;
    let v: i64 = if d < 0 {
        0
    } else {
        d
    };
    v as u32
}

/// The lyric line that owns the visible row `rel_y` (0 is the top visible
/// row) when the view starts at row `top`: `None` below the last row.
pub fn row_at(rel_y: usize, top: usize, row_line: &[Option<usize>]) -> (r: Option<usize>)
    requires
        top + rel_y <= usize::MAX,
    ensures
        r == (if top + rel_y < row_line@.len() {
            row_line@[top + rel_y]
        } else {
            None
        }),
{
    let k = top + rel_y;
    if k < row_line.len() {
        row_line[k]
    } else {
        None
    }
}

/// The next cursor position. From `None`, the active line (or line 0),
/// without moving; from `Some`, stepped by `delta` and kept within
/// `[0, len - 1]`. `None` when there are no lines.
pub open spec fn move_cursor_spec(current: Option<usize>, active: Option<usize>, len: usize, delta: i64) -> Option<usize> {
    if len == 0 {
        None
    } else {
        match current {
            None => Some(
                match active {
                    Some(a) => if a < len - 1 {
                        a
                    } else {
                        (len - 1) as usize
                    },
                    None => 0,
                },
            ),
            Some(c) => Some(
                if c + delta < 0 {
                    0
                } else if c + delta > len - 1 {
                    (len - 1) as usize
                } else {
                    (c + delta) as usize
                },
            ),
        }
    }
}

/// The next cursor position (see `move_cursor_spec`).
pub fn move_cursor(current: Option<usize>, active: Option<usize>, len: usize, delta: i64) -> (r: Option<usize>)
    requires
        len <= i64::MAX,
        current matches Some(c) ==> c <= i64::MAX && i64::MIN <= c + delta <= i64::MAX,
    ensures
        r == move_cursor_spec(current, active, len, delta),
        r matches Some(c) ==> c < len,
{
    if len == 0 {
        return None;
    }
    match current {
        None => {
            let a = match active {
                Some(a) => a,
                None => 0,
            };
            Some(
                if a < len - 1 {
                    a
                } else {
                    len - 1
                },
            )
        },
        Some(c) => {
            let t: i64 = c as i64 + delta;
            let hi: i64 = len as i64 - 1;
            let v: i64 = if t < 0 {
                0
            } else if t > hi {
                hi
            } else {
                t
            };
            Some(v as usize)
        },
    }
}


/// The line found by `last_started` is one of the first `n`.
proof fn lemma_last_started_in_range(lines: Seq<LineView>, pos_ms: u32, n: int)
    ensures
        last_started(lines, pos_ms, n) matches Some(i) ==> 0 <= i < n,
    decreases n,
{
    if n > 0 {
        lemma_last_started_in_range(lines, pos_ms, n - 1);
    }
}

/// The key by which the pane tells tracks apart: the Spotify id, else
/// `title|artist`.
pub open spec fn track_key_spec(meta: TrackMeta) -> Seq<char> {
    match meta.spotify_id {
        Some(id) => id@,
        None => meta.title@ + seq!['|'] + meta.artist@,
    }
}

/// The track a state is about, if any.
pub open spec fn state_key(s: LyricsState) -> Option<Seq<char>> {
    match s {
        LyricsState::Idle => None,
        LyricsState::Loading { track_id } => Some(track_id@),
        LyricsState::Loaded { track_id, .. } => Some(track_id@),
        LyricsState::NotFound { track_id, .. } => Some(track_id@),
        LyricsState::Error { track_id, .. } => Some(track_id@),
    }
}

/// How many lines are shown: those of loaded lyrics, else none.
pub open spec fn line_count(s: LyricsState) -> nat {
    match s {
        LyricsState::Loaded { lyrics, .. } => lyrics.lines@.len(),
        _ => 0,
    }
}

/// A playback position as the lyrics see it: at least zero, as a `u32`
/// (truncated).
pub open spec fn pos_u32(p: i64) -> u32 {
    (if p < 0 {
        0i64
    } else {
        p
    }) as u32
}

/// The line playing at `pos_ms`: the last started one of loaded, synced
/// lyrics.
pub open spec fn active_of(s: LyricsState, pos_ms: u32) -> Option<usize> {
    match s {
        LyricsState::Loaded { lyrics, .. } => if lyrics.synced {
            match last_started(lines_view(lyrics.lines@), pos_ms, lyrics.lines@.len() as int) {
                Some(i) => Some(i as usize),
                None => None,
            }
        } else {
            None
        },
        _ => None,
    }
}

/// Where playback goes for a seek to line `line`: the offset-adjusted start
/// of that line, for loaded, synced lyrics where the line has a start.
pub open spec fn line_seek_target(s: LyricsState, line: usize, offset_ms: i64) -> Option<u32> {
    match s {
        LyricsState::Loaded { lyrics, .. } => if lyrics.synced && line < lyrics.lines@.len() {
            match lyrics.lines@[line as int].start_ms {
                Some(start) => Some(
                    if start - offset_ms < 0 {
                        0u32
                    } else {
                        (start - offset_ms) as u32
                    },
                ),
                None => None,
            }
        } else {
            None
        },
        _ => None,
    }
}

/// The state a search result brings for the track `key`.
pub open spec fn outcome_state(key: Seq<char>, outcome: FetchOutcome, next: LyricsState) -> bool {
    match outcome {
        FetchOutcome::Found(l) => next matches LyricsState::Loaded { track_id, lyrics } && track_id@ == key
            && lyrics@ == l@,
        FetchOutcome::NotFound { tried } => next matches LyricsState::NotFound { track_id, tried: t }
            && track_id@ == key && t@ == tried@,
        FetchOutcome::Error { message } => next matches LyricsState::Error { track_id, message: m }
            && track_id@ == key && m@ == message@,
    }
}


/// The terminal columns that `s` takes.
pub uninterp spec fn display_width(s: Seq<char>) -> usize;

/// The displayed width of `s` in terminal columns, as unicode-width's
/// `UnicodeWidthStr::width` counts it (ambiguous characters one column).
/// Claimed: the result depends on `s` alone; how wide each character is, is
/// not stated.
#[verifier::external_body]
fn text_width(s: &str) -> (r: usize)
    ensures
        r == display_width(s@),
{
    unicode_width::UnicodeWidthStr::width(s)
}

/// `a - b`, or zero when `b` is larger.
pub open spec fn sat_sub(a: int, b: int) -> int {
    if a >= b {
        a - b
    } else {
        0
    }
}

/// The column where a row of text starts: right-aligned in a pane `width`
/// wide for right-to-left lyrics, else at the left edge.
pub fn row_x(rtl: bool, width: usize, text: &str) -> (r: usize)
    ensures
        r == (if rtl {
            sat_sub(width as int, display_width(text@) as int)
        } else {
            0
        }),
{
    if rtl {
        let w = text_width(text);
        if width >= w {
            width - w
        } else {
            0
        }
    } else {
        0
    }
}

/// The column where a status message starts: centred in a pane `width` wide.
pub fn status_x(width: usize, msg: &str) -> (r: usize)
    ensures
        r == sat_sub(width as int, display_width(msg@) as int) / 2,
{
    let w = text_width(msg);
    if width >= w {
        (width - w) / 2
    } else {
        0
    }
}

/// What a row of the pane holds: a line's text, its translation or its
/// romanization.
#[derive(Debug, Clone, Copy, PartialEq, Eq, Structural)]
pub enum RowKind {
    Text,
    Translation,
    Romanization,
}

/// A row to draw: the line it belongs to, what it holds, whether it is the
/// text of the playing line (highlighted), and whether it is the selected
/// line's text (reversed).
#[derive(Debug, Clone, Copy, PartialEq, Eq, Structural)]
pub struct LyricRow {
    pub line: usize,
    pub kind: RowKind,
    pub active: bool,
    pub selected: bool,
}

/// The rows of line `i`: its text, then its translation and romanization
/// when they are shown and present.
pub open spec fn line_rows(l: LineView, i: usize, show_translation: bool, show_romaji: bool) -> Seq<(usize, RowKind)> {
    seq![(i, RowKind::Text)] + (if show_translation && l.translation is Some {
        seq![(i, RowKind::Translation)]
    } else {
        Seq::empty()
    }) + (if show_romaji && l.romanization is Some {
        seq![(i, RowKind::Romanization)]
    } else {
        Seq::empty()
    })
}

/// The rows of the first `n` lines.
pub open spec fn rows_upto(lines: Seq<LineView>, show_translation: bool, show_romaji: bool, n: int) -> Seq<(usize, RowKind)>
    decreases n,
{
    if n <= 0 {
        Seq::empty()
    } else {
        rows_upto(lines, show_translation, show_romaji, n - 1) + line_rows(
            lines[n - 1],
            (n - 1) as usize,
            show_translation,
            show_romaji,
        )
    }
}

/// The row of line `line`'s text, when the line exists.
pub open spec fn text_row(lines: Seq<LineView>, show_translation: bool, show_romaji: bool, line: Option<usize>) -> Option<int> {
    match line {
        Some(i) => if i < lines.len() {
            Some(rows_upto(lines, show_translation, show_romaji, i as int).len() as int)
        } else {
            None
        },
        None => None,
    }
}

/// The first visible row: the selected line's text row (else the playing
/// line's) half a pane `height` down; the top row when neither exists.
pub open spec fn top_row(lines: Seq<LineView>, st: bool, sr: bool, cursor: Option<usize>, active: Option<usize>, height: usize) -> int {
    match text_row(lines, st, sr, cursor) {
        Some(r) => sat_sub(r, (height / 2) as int),
        None => match text_row(lines, st, sr, active) {
            Some(r) => sat_sub(r, (height / 2) as int),
            None => 0,
        },
    }
}

/// Row `k` of `rows` as drawn.
pub open spec fn shown_row(rows: Seq<(usize, RowKind)>, k: int, active: Option<usize>, cursor_row: Option<int>) -> LyricRow {
    LyricRow {
        line: rows[k].0,
        kind: rows[k].1,
        active: rows[k].1 == RowKind::Text && active == Some(rows[k].0),
        selected: cursor_row == Some(k),
    }
}

/// Lines joined by line breaks.
pub open spec fn join_lines(lines: Seq<Seq<char>>) -> Seq<char>
    decreases lines.len(),
{
    if lines.len() == 0 {
        Seq::empty()
    } else if lines.len() == 1 {
        lines[0]
    } else {
        join_lines(lines.drop_last()) + seq!['\n'] + lines.last()
    }
}

/// Provider names joined by `, `.
pub open spec fn join_names(ids: Seq<ProviderId>) -> Seq<char>
    decreases ids.len(),
{
    if ids.len() == 0 {
        Seq::empty()
    } else if ids.len() == 1 {
        provider_key(ids[0])
    } else {
        join_names(ids.drop_last()) + seq![',', ' '] + provider_key(ids.last())
    }
}

/// What plays, as far as the pane's idle message goes.
#[derive(Debug, Clone, Copy, PartialEq, Eq, Structural)]
pub enum PlayingItem {
    Nothing,
    /// Something without track metadata, such as a podcast episode.
    NotATrack,
    Track,
}

/// The message the pane shows instead of lyrics, if any.
pub open spec fn status_spec(s: LyricsState, playing: PlayingItem) -> Option<Seq<char>> {
    match s {
        LyricsState::Loaded { lyrics, .. } => if lyrics.lines@.len() == 0 {
            Some("No lyrics found"@)
        } else {
            None
        },
        LyricsState::Loading { .. } => Some("Loading\u{2026}"@),
        LyricsState::NotFound { tried, .. } => if tried@.len() == 0 {
            Some("No lyrics found"@)
        } else {
            Some("No lyrics found (tried: "@ + join_names(tried@) + ")"@)
        },
        LyricsState::Error { message, .. } => Some("Lyrics unavailable: "@ + message@),
        LyricsState::Idle => match playing {
            PlayingItem::Nothing => Some("Nothing playing"@),
            PlayingItem::NotATrack => Some("No lyrics for this item"@),
            PlayingItem::Track => Some("Loading\u{2026}"@),
        },
    }
}

/// The text of the line playing at `pos_ms`, of loaded lyrics.
pub open spec fn copied_line(s: LyricsState, pos_ms: u32) -> Option<Seq<char>> {
    match s {
        LyricsState::Loaded { lyrics, .. } => match active_of(s, pos_ms) {
            Some(i) => Some(lyrics.lines@[i as int].text@),
            None => None,
        },
        _ => None,
    }
}

/// All lines of loaded lyrics, joined by line breaks.
pub open spec fn copied_all(s: LyricsState) -> Option<Seq<char>> {
    match s {
        LyricsState::Loaded { lyrics, .. } => Some(join_lines(lyrics.lines@.map_values(|l: crate::lyrics::model::LyricLine| l.text@))),
        _ => None,
    }
}

/// The lyrics pane of the playing track: what it shows, which track it
/// fetched for, the selected line (none: follow playback), the rows of the
/// last drawing (for clicks), and the sync offset added to the playback
/// position.
pub struct LyricsView {
    state: LyricsState,
    fetched_for: Option<String>,
    cursor_line: Option<usize>,
    top: usize,
    row_line: Vec<Option<usize>>,
    offset_ms: i64,
}

impl LyricsView {
    /// What the pane shows.
    pub closed spec fn state(&self) -> LyricsState {
        self.state
    }

    /// The key of the track the last fetch was for.
    pub closed spec fn fetched_for(&self) -> Option<Seq<char>> {
        self.fetched_for.deep_view()
    }

    /// The selected line; `None` follows playback.
    pub closed spec fn cursor(&self) -> Option<usize> {
        self.cursor_line
    }

    /// The first visible row of the last drawing.
    pub closed spec fn top(&self) -> usize {
        self.top
    }

    /// The line of each row of the last drawing.
    pub closed spec fn row_line(&self) -> Seq<Option<usize>> {
        self.row_line@
    }

    /// The sync offset in milliseconds.
    pub closed spec fn offset(&self) -> i64 {
        self.offset_ms
    }

    /// An idle pane: nothing fetched, no selection, no offset.
    pub fn new() -> (r: Self)
        ensures
            r.state() == LyricsState::Idle,
            r.fetched_for() is None,
            r.cursor() is None,
            r.top() == 0,
            r.row_line().len() == 0,
            r.offset() == 0,
    {
        LyricsView { state: LyricsState::Idle, fetched_for: None, cursor_line: None, top: 0, row_line: Vec::new(), offset_ms: 0 }
    }

    /// The key that tells tracks apart.
    pub fn track_key(meta: &TrackMeta) -> (r: String)
        ensures
            r@ == track_key_spec(*meta),
    {
        match &meta.spotify_id {
            Some(id) => id.clone(),
            None => {
                let mut k = meta.title.clone();
                push_char(&mut k, '|');
                k.append(meta.artist.as_str());
                k
            },
        }
    }

    /// On a drawing: when the playing track (`meta`) is not the one fetched
    /// for, the pane starts over for it (no selection, no offset, loading)
    /// and hands out the key to fetch lyrics for. Otherwise nothing changes.
    pub fn ensure_fetch(&mut self, meta: Option<&TrackMeta>) -> (r: Option<String>)
        ensures
            match meta {
                None => r is None && *final(self) == *old(self),
                Some(m) => if old(self).fetched_for() == Some(track_key_spec(*m)) {
                    r is None && *final(self) == *old(self)
                } else {
                    &&& r matches Some(k) && k@ == track_key_spec(*m)
                    &&& final(self).fetched_for() == Some(track_key_spec(*m))
                    &&& final(self).cursor() is None
                    &&& final(self).offset() == 0
                    &&& final(self).state() matches LyricsState::Loading { track_id } && track_id@ == track_key_spec(*m)
                    &&& final(self).top() == old(self).top()
                    &&& final(self).row_line() == old(self).row_line()
                },
            },
    {
        let m = match meta {
            Some(m) => m,
            None => return None,
        };
        let key = Self::track_key(m);
        let same = match &self.fetched_for {
            Some(f) => crate::text::str_eq(f.as_str(), key.as_str()),
            None => false,
        };
        if same {
            return None;
        }
        self.fetched_for = Some(key.clone());
        self.cursor_line = None;
        self.offset_ms = 0;
        self.state = LyricsState::Loading { track_id: key.clone() };
        Some(key)
    }

    /// A search for the track `key` ended. Its result is shown only while the
    /// pane is still about that track; a stale result is dropped. Says
    /// whether it was shown.
    pub fn finish_fetch(&mut self, key: &str, outcome: FetchOutcome) -> (r: bool)
        ensures
            r == (state_key(old(self).state()) == Some(key@)),
            r ==> outcome_state(key@, outcome, final(self).state()),
            !r ==> final(self).state() == old(self).state(),
            final(self).fetched_for() == old(self).fetched_for(),
            final(self).cursor() == old(self).cursor(),
            final(self).offset() == old(self).offset(),
            final(self).top() == old(self).top(),
            final(self).row_line() == old(self).row_line(),
    {
        let current = match &self.state {
            LyricsState::Idle => false,
            LyricsState::Loading { track_id } => crate::text::str_eq(track_id.as_str(), key),
            LyricsState::Loaded { track_id, .. } => crate::text::str_eq(track_id.as_str(), key),
            LyricsState::NotFound { track_id, .. } => crate::text::str_eq(track_id.as_str(), key),
            LyricsState::Error { track_id, .. } => crate::text::str_eq(track_id.as_str(), key),
        };
        if !current {
            return false;
        }
        let k = String::from_str(key);
        self.state = match outcome {
            FetchOutcome::Found(lyrics) => LyricsState::Loaded { track_id: k, lyrics },
            FetchOutcome::NotFound { tried } => LyricsState::NotFound { track_id: k, tried },
            FetchOutcome::Error { message } => LyricsState::Error { track_id: k, message },
        };
        true
    }

    /// The playback position with the sync offset applied.
    pub fn position_ms(&self, progress_ms: i64) -> (r: i64)
        requires
            i64::MIN <= progress_ms + self.offset() <= i64::MAX,
        ensures
            r == progress_ms + self.offset(),
    {
        progress_ms + self.offset_ms
    }

    /// The line playing at `progress_ms` (offset applied).
    pub fn active_line(&self, progress_ms: i64) -> (r: Option<usize>)
        requires
            i64::MIN <= progress_ms + self.offset() <= i64::MAX,
        ensures
            r == active_of(self.state(), pos_u32((progress_ms + self.offset()) as i64)),
            r matches Some(i) ==> i < line_count(self.state()),
    {
        match &self.state {
            LyricsState::Loaded { lyrics, .. } => {
                proof {
                    lemma_last_started_in_range(
                        lines_view(lyrics.lines@),
                        pos_u32((progress_ms + self.offset()) as i64),
                        lyrics.lines@.len() as int,
                    );
                }
                let p = self.position_ms(progress_ms);
                let q: i64 = if p < 0 {
                    0
                } else {
                    p
                };
                lyrics.active_index(q as u32)
            },
            _ => None,
        }
    }

    /// Moves the selection by `delta` lines; a first move selects the
    /// playing line (or the first).
    pub fn move_cursor_by(&mut self, progress_ms: i64, delta: i64)
        requires
            i64::MIN <= progress_ms + old(self).offset() <= i64::MAX,
            line_count(old(self).state()) <= i64::MAX,
            old(self).cursor() matches Some(c) ==> c <= i64::MAX && i64::MIN <= c + delta <= i64::MAX,
        ensures
            final(self).cursor() == move_cursor_spec(
                old(self).cursor(),
                active_of(old(self).state(), pos_u32((progress_ms + old(self).offset()) as i64)),
                line_count(old(self).state()) as usize,
                delta,
            ),
            final(self).state() == old(self).state(),
            final(self).fetched_for() == old(self).fetched_for(),
            final(self).offset() == old(self).offset(),
            final(self).top() == old(self).top(),
            final(self).row_line() == old(self).row_line(),
    {
        let len = match &self.state {
            LyricsState::Loaded { lyrics, .. } => lyrics.lines.len(),
            _ => 0,
        };
        let active = self.active_line(progress_ms);
        self.cursor_line = move_cursor(self.cursor_line, active, len, delta);
    }

    /// Seeks to line `line_idx` (offset-adjusted) and follows playback
    /// again; nothing for unsynced lyrics or a line without a start. Hands
    /// out the position to seek the player to.
    pub fn seek_to_line(&mut self, line_idx: usize) -> (r: Option<u32>)
        requires
            old(self).offset() >= i64::MIN + 0x1_0000_0000,
        ensures
            r == line_seek_target(old(self).state(), line_idx, old(self).offset()),
            final(self).cursor() == (if r is Some {
                None
            } else {
                old(self).cursor()
            }),
            final(self).state() == old(self).state(),
            final(self).fetched_for() == old(self).fetched_for(),
            final(self).offset() == old(self).offset(),
            final(self).top() == old(self).top(),
            final(self).row_line() == old(self).row_line(),
    {
        let target = match &self.state {
            LyricsState::Loaded { lyrics, .. } => {
                if lyrics.synced && line_idx < lyrics.lines.len() {
                    match lyrics.lines[line_idx].start_ms {
                        Some(start) => Some(seek_target_ms(start, self.offset_ms)),
                        None => None,
                    }
                } else {
                    None
                }
            },
            _ => None,
        };
        if target.is_some() {
            self.cursor_line = None;
        }
        target
    }

    /// The line a seek goes to: the selected line, else the playing one,
    /// for loaded, synced lyrics.
    pub closed spec fn selected_line(&self, progress_ms: i64) -> Option<usize> {
        match self.state {
            LyricsState::Loaded { lyrics, .. } => if lyrics.synced {
                match self.cursor_line {
                    Some(c) => Some(c),
                    None => active_of(self.state, pos_u32((progress_ms + self.offset_ms) as i64)),
                }
            } else {
                None
            },
            _ => None,
        }
    }

    /// Seeks to the selected line, or to the playing one when none is
    /// selected.
    pub fn seek_to_selected(&mut self, progress_ms: i64) -> (r: Option<u32>)
        requires
            i64::MIN <= progress_ms + old(self).offset() <= i64::MAX,
            old(self).offset() >= i64::MIN + 0x1_0000_0000,
        ensures
            r == (match old(self).selected_line(progress_ms) {
                Some(i) => line_seek_target(old(self).state(), i, old(self).offset()),
                None => None,
            }),
            final(self).cursor() == (if r is Some {
                None
            } else {
                old(self).cursor()
            }),
            final(self).state() == old(self).state(),
            final(self).fetched_for() == old(self).fetched_for(),
            final(self).offset() == old(self).offset(),
            final(self).top() == old(self).top(),
            final(self).row_line() == old(self).row_line(),
    {
        let line = match &self.state {
            LyricsState::Loaded { lyrics, .. } => {
                if lyrics.synced {
                    match self.cursor_line {
                        Some(c) => Some(c),
                        None => self.active_line(progress_ms),
                    }
                } else {
                    None
                }
            },
            _ => None,
        };
        match line {
            Some(i) => self.seek_to_line(i),
            None => None,
        }
    }

    /// The line of the visible row `rel_y` in the last drawing.
    pub closed spec fn clicked_line(&self, rel_y: usize) -> Option<usize> {
        if self.top + rel_y < self.row_line@.len() {
            self.row_line@[self.top + rel_y]
        } else {
            None
        }
    }

    /// A click on the visible row `rel_y`: seeks to the line of that row.
    pub fn handle_click(&mut self, rel_y: usize) -> (r: Option<u32>)
        requires
            old(self).offset() >= i64::MIN + 0x1_0000_0000,
        ensures
            r == (match old(self).clicked_line(rel_y) {
                Some(i) => line_seek_target(old(self).state(), i, old(self).offset()),
                None => None,
            }),
            final(self).cursor() == (if r is Some {
                None
            } else {
                old(self).cursor()
            }),
            final(self).state() == old(self).state(),
            final(self).fetched_for() == old(self).fetched_for(),
            final(self).offset() == old(self).offset(),
            final(self).top() == old(self).top(),
            final(self).row_line() == old(self).row_line(),
    {
        let line = if rel_y < self.row_line.len() && self.top < self.row_line.len() - rel_y {
            row_at(rel_y, self.top, self.row_line.as_slice())
        } else {
            None
        };
        match line {
            Some(i) => self.seek_to_line(i),
            None => None,
        }
    }

    /// Shifts the sync offset by `delta_ms`.
    pub fn adjust_offset(&mut self, delta_ms: i64)
        requires
            i64::MIN <= old(self).offset() + delta_ms <= i64::MAX,
        ensures
            final(self).offset() == old(self).offset() + delta_ms,
            final(self).state() == old(self).state(),
            final(self).fetched_for() == old(self).fetched_for(),
            final(self).cursor() == old(self).cursor(),
            final(self).top() == old(self).top(),
            final(self).row_line() == old(self).row_line(),
    {
        self.offset_ms = self.offset_ms + delta_ms;
    }

    /// Forgets the fetch and the selection: the next drawing fetches again.
    pub fn force_refetch(&mut self)
        ensures
            final(self).fetched_for() is None,
            final(self).cursor() is None,
            final(self).state() == LyricsState::Idle,
            final(self).offset() == old(self).offset(),
            final(self).top() == old(self).top(),
            final(self).row_line() == old(self).row_line(),
    {
        self.fetched_for = None;
        self.cursor_line = None;
        self.state = LyricsState::Idle;
    }

    /// Leaves the selection: playback is followed again. Says whether there
    /// was one.
    pub fn clear_selection(&mut self) -> (r: bool)
        ensures
            r == old(self).cursor() is Some,
            final(self).cursor() is None,
            final(self).state() == old(self).state(),
            final(self).fetched_for() == old(self).fetched_for(),
            final(self).offset() == old(self).offset(),
            final(self).top() == old(self).top(),
            final(self).row_line() == old(self).row_line(),
    {
        let r = self.cursor_line.is_some();
        self.cursor_line = None;
        r
    }
}


impl LyricsView {
    /// The text of the playing line, to copy.
    pub fn copy_line(&self, progress_ms: i64) -> (r: Option<String>)
        requires
            i64::MIN <= progress_ms + self.offset() <= i64::MAX,
        ensures
            r.deep_view() == copied_line(self.state(), pos_u32((progress_ms + self.offset()) as i64)),
    {
        match &self.state {
            LyricsState::Loaded { lyrics, .. } => match self.active_line(progress_ms) {
                Some(i) => {
                    proof {
                        assert(lines_view(lyrics.lines@)[i as int] == lyrics.lines@[i as int]@);
                    }
                    Some(lyrics.lines[i].text.clone())
                },
                None => None,
            },
            _ => None,
        }
    }

    /// All lines, joined by line breaks, to copy.
    pub fn copy_all(&self) -> (r: Option<String>)
        ensures
            r.deep_view() == copied_all(self.state()),
    {
        match &self.state {
            LyricsState::Loaded { lyrics, .. } => {
                let ghost texts = lyrics.lines@.map_values(|l: crate::lyrics::model::LyricLine| l.text@);
                let mut out = String::new();
                let mut i: usize = 0;
                while i < lyrics.lines.len()
                    invariant
                        i <= lyrics.lines@.len(),
                        texts == lyrics.lines@.map_values(|l: crate::lyrics::model::LyricLine| l.text@),
                        out@ == join_lines(texts.subrange(0, i as int)),
                    decreases lyrics.lines@.len() - i,
                {
                    let ghost before = out@;
                    if i > 0 {
                        push_char(&mut out, '\n');
                    }
                    out.append(lyrics.lines[i].text.as_str());
                    proof {
                        let p = texts.subrange(0, i + 1);
                        assert(p.drop_last() =~= texts.subrange(0, i as int));
                        assert(p.last() == lyrics.lines@[i as int].text@);
                        if i > 0 {
                            assert(out@ =~= before + seq!['\n'] + p.last());
                        } else {
                            assert(before =~= Seq::<char>::empty());
                            assert(out@ =~= p[0]);
                        }
                    }
                    i = i + 1;
                }
                assert(texts.subrange(0, i as int) =~= texts);
                Some(out)
            },
            _ => None,
        }
    }

    /// The message to show instead of lyrics, if any.
    pub fn status_message(&self, playing: PlayingItem) -> (r: Option<String>)
        ensures
            r.deep_view() == status_spec(self.state(), playing),
    {
        match &self.state {
            LyricsState::Loaded { lyrics, .. } => {
                if lyrics.lines.len() == 0 {
                    Some(String::from_str("No lyrics found"))
                } else {
                    None
                }
            },
            LyricsState::Loading { .. } => Some(String::from_str("Loading\u{2026}")),
            LyricsState::NotFound { tried, .. } => {
                if tried.len() == 0 {
                    Some(String::from_str("No lyrics found"))
                } else {
                    let mut out = String::from_str("No lyrics found (tried: ");
                    let ghost head = out@;
                    let mut i: usize = 0;
                    while i < tried.len()
                        invariant
                            i <= tried@.len(),
                            head == "No lyrics found (tried: "@,
                            out@ == head + join_names(tried@.subrange(0, i as int)),
                        decreases tried@.len() - i,
                    {
                        let ghost before = out@;
                        if i > 0 {
                            push_char(&mut out, ',');
                            push_char(&mut out, ' ');
                        }
                        out.append(tried[i].as_str());
                        proof {
                            let p = tried@.subrange(0, i + 1);
                            assert(p.drop_last() =~= tried@.subrange(0, i as int));
                            assert(p.last() == tried@[i as int]);
                            if i > 0 {
                                assert(out@ =~= head + (join_names(p.drop_last()) + seq![',', ' '] + provider_key(p.last())));
                            } else {
                                assert(join_names(tried@.subrange(0, 0)) =~= Seq::<char>::empty());
                                assert(out@ =~= head + provider_key(p[0]));
                            }
                        }
                        i = i + 1;
                    }
                    assert(tried@.subrange(0, i as int) =~= tried@);
                    out.append(")");
                    Some(out)
                }
            },
            LyricsState::Error { message, .. } => {
                let mut out = String::from_str("Lyrics unavailable: ");
                out.append(message.as_str());
                Some(out)
            },
            LyricsState::Idle => Some(
                String::from_str(
                    match playing {
                        PlayingItem::Nothing => "Nothing playing",
                        PlayingItem::NotATrack => "No lyrics for this item",
                        PlayingItem::Track => "Loading\u{2026}",
                    },
                ),
            ),
        }
    }

    /// Lays the loaded lyrics out in rows (each line's text, then its
    /// translation and romanization when shown), centred on the selected
    /// line or else on the playing one, and hands out the rows that fit a
    /// pane `height` rows high. The layout is kept for clicks. Nothing for
    /// other states, no lines, or no height.
    pub fn draw_lyrics(&mut self, progress_ms: i64, height: usize, show_translation: bool, show_romaji: bool) -> (r: Vec<LyricRow>)
        requires
            i64::MIN <= progress_ms + old(self).offset() <= i64::MAX,
        ensures
            final(self).state() == old(self).state(),
            final(self).fetched_for() == old(self).fetched_for(),
            final(self).cursor() == old(self).cursor(),
            final(self).offset() == old(self).offset(),
            match old(self).state() {
                LyricsState::Loaded { lyrics, .. } => if lyrics.lines@.len() == 0 || height == 0 {
                    r@.len() == 0 && final(self).top() == old(self).top() && final(self).row_line() == old(self).row_line()
                } else {
                    let lines = lines_view(lyrics.lines@);
                    let rows = rows_upto(lines, show_translation, show_romaji, lines.len() as int);
                    let active = active_of(old(self).state(), pos_u32((progress_ms + old(self).offset()) as i64));
                    let top = top_row(lines, show_translation, show_romaji, old(self).cursor(), active, height);
                    let cursor_row = text_row(lines, show_translation, show_romaji, old(self).cursor());
                    &&& final(self).top() == top
                    &&& final(self).row_line() == rows.map_values(|e: (usize, RowKind)| Some(e.0))
                    &&& r@.len() == (if top < rows.len() {
                        if rows.len() - top < height {
                            rows.len() - top
                        } else {
                            height as int
                        }
                    } else {
                        0
                    })
                    &&& forall|k: int| 0 <= k < r@.len() ==> #[trigger] r@[k] == shown_row(rows, top + k, active, cursor_row)
                },
                _ => r@.len() == 0 && final(self).top() == old(self).top() && final(self).row_line() == old(self).row_line(),
            },
    {
        let active = self.active_line(progress_ms);
        let cursor = self.cursor_line;
        let lyrics = match &self.state {
            LyricsState::Loaded { lyrics, .. } => lyrics,
            _ => return Vec::new(),
        };
        let n = lyrics.lines.len();
        if n == 0 || height == 0 {
            return Vec::new();
        }
        let ghost lines = lines_view(lyrics.lines@);
        let mut rows: Vec<(usize, RowKind)> = Vec::new();
        let mut active_row: Option<usize> = None;
        let mut cursor_row: Option<usize> = None;
        let mut i: usize = 0;
        while i < n
            invariant
                n == lyrics.lines@.len(),
                lines == lines_view(lyrics.lines@),
                i <= n,
                rows@ == rows_upto(lines, show_translation, show_romaji, i as int),
                rows@.len() <= 3 * i,
                match active {
                    Some(a) => if a < i {
                        active_row is Some && active_row->0 as int == rows_upto(lines, show_translation, show_romaji, a as int).len()
                    } else {
                        active_row is None
                    },
                    None => active_row is None,
                },
                match cursor {
                    Some(c) => if c < i {
                        cursor_row is Some && cursor_row->0 as int == rows_upto(lines, show_translation, show_romaji, c as int).len()
                    } else {
                        cursor_row is None
                    },
                    None => cursor_row is None,
                },
            decreases n - i,
        {
            assert(lines[i as int] == lyrics.lines@[i as int]@);
            let line = &lyrics.lines[i];
            if active == Some(i) {
                active_row = Some(rows.len());
            }
            if cursor == Some(i) {
                cursor_row = Some(rows.len());
            }
            let ghost before = rows@;
            rows.push((i, RowKind::Text));
            if show_translation && line.translation.is_some() {
                rows.push((i, RowKind::Translation));
            }
            if show_romaji && line.romanization.is_some() {
                rows.push((i, RowKind::Romanization));
            }
            proof {
                assert(rows@ =~= before + line_rows(lines[i as int], i, show_translation, show_romaji));
            }
            i = i + 1;
        }
        let ghost all_rows = rows@;
        let half = height / 2;
        let base = match cursor_row {
            Some(c) => Some(c),
            None => active_row,
        };
        let top: usize = match base {
            Some(b) => if b >= half {
                b - half
            } else {
                0
            },
            None => 0,
        };
        proof {
            if active is Some {
                assert(active->0 < n);
            }
        }
        let len = rows.len();
        let end: usize = if top < len {
            if len - top < height {
                len
            } else {
                top + height
            }
        } else {
            top
        };
        let mut out: Vec<LyricRow> = Vec::new();
        let mut row_line: Vec<Option<usize>> = Vec::new();
        let mut k: usize = 0;
        while k < len
            invariant
                len == rows@.len(),
                rows@ == all_rows,
                k <= len,
                row_line@ == all_rows.subrange(0, k as int).map_values(|e: (usize, RowKind)| Some(e.0)),
            decreases len - k,
        {
            row_line.push(Some(rows[k].0));
            proof {
                assert(all_rows.subrange(0, k + 1).map_values(|e: (usize, RowKind)| Some(e.0)) =~= all_rows.subrange(
                    0,
                    k as int,
                ).map_values(|e: (usize, RowKind)| Some(e.0)).push(Some(all_rows[k as int].0)));
            }
            k = k + 1;
        }
        assert(all_rows.subrange(0, len as int) =~= all_rows);
        let ghost cursor_row_int: Option<int> = match cursor_row {
            Some(c) => Some(c as int),
            None => None,
        };
        let mut j: usize = top;
        while j < end
            invariant
                len == rows@.len(),
                rows@ == all_rows,
                top <= j <= end,
                end <= len || end == top,
                cursor_row_int == (match cursor_row {
                    Some(c) => Some(c as int),
                    None => None::<int>,
                }),
                out@.len() == j - top,
                forall|q: int| 0 <= q < out@.len() ==> #[trigger] out@[q] == shown_row(all_rows, top + q, active, cursor_row_int),
            decreases end - j,
        {
            let (line, kind) = rows[j];
            let is_active = match kind {
                RowKind::Text => match active {
                    Some(a) => a == line,
                    None => false,
                },
                _ => false,
            };
            let selected = match cursor_row {
                Some(c) => c == j,
                None => false,
            };
            let row = LyricRow { line, kind, active: is_active, selected };
            proof {
                assert(row == shown_row(all_rows, j as int, active, cursor_row_int));
            }
            let ghost before = out@;
            out.push(row);
            proof {
                assert forall|q: int| 0 <= q < out@.len() implies #[trigger] out@[q] == shown_row(
                    all_rows,
                    top + q,
                    active,
                    cursor_row_int,
                ) by {
                    if q < before.len() {
                        assert(out@[q] == before[q]);
                    }
                }
            }
            j = j + 1;
        }
        proof {
            assert(lines.len() == n);
            assert(row_line@ =~= all_rows.map_values(|e: (usize, RowKind)| Some(e.0)));
            assert(cursor_row_int == text_row(lines, show_translation, show_romaji, cursor));
            assert(top == top_row(lines, show_translation, show_romaji, cursor, active, height));
        }
        self.top = top;
        self.row_line = row_line;
        out
    }
}


/// A key or mouse event on the pane.
#[derive(Debug, Clone, Copy, PartialEq, Eq, Structural)]
pub enum PaneEvent {
    Char(char),
    Up,
    Down,
    Enter,
    Esc,
    WheelUp,
    WheelDown,
    /// A left-button press at row `position_y` of the screen, the pane
    /// starting at row `offset_y`.
    LeftPress { offset_y: usize, position_y: usize },
    /// Any other mouse event.
    OtherMouse,
    Other,
}

/// The lyrics commands.
#[derive(Debug, Clone, Copy, PartialEq, Eq, Structural)]
pub enum LyricsCommand {
    ScrollUp,
    ScrollDown,
    Seek,
    Offset(i64),
    ProviderCycle,
    Refetch,
    CopyLine,
    CopyAll,
}

/// The pane's settings: each `allow_` is on unless set off.
#[derive(Debug, Clone, Copy, Default, PartialEq, Eq, Structural)]
pub struct PaneSettings {
    pub allow_scroll: Option<bool>,
    pub allow_offset: Option<bool>,
    pub allow_copy: Option<bool>,
    pub allow_seek: Option<bool>,
    pub allow_provider_switch: Option<bool>,
}

/// A setting that is on unless set off.
pub open spec fn allowed(flag: Option<bool>) -> bool {
    flag != Some(false)
}

fn is_allowed(flag: Option<bool>) -> (r: bool)
    ensures
        r == allowed(flag),
{
    match flag {
        Some(b) => b,
        None => true,
    }
}

/// What the pane does for an event or a command.
#[derive(Debug, Clone, Copy, PartialEq, Eq, Structural)]
pub enum PaneOp {
    Ignore,
    Move(i64),
    SeekSelected,
    ClearSelection,
    Offset(i64),
    CopyLine,
    CopyAll,
    Click(usize),
    /// Fetch again (after a provider switch).
    Refetch,
}

/// What the pane asks the player or the clipboard to do.
pub enum PaneAction {
    Nothing,
    Seek(u32),
    Copy(String),
}

/// What an event does: `j`/Down and the wheel move the selection, Enter
/// seeks, Esc leaves a selection, `[` and `]` shift the offset by half a
/// second, `y` and `Y` copy, a left click seeks to the clicked line; each as
/// far as the settings allow.
pub open spec fn event_op(e: PaneEvent, cfg: PaneSettings, selecting: bool) -> PaneOp {
    match e {
        PaneEvent::Char(c) => if c == 'j' && allowed(cfg.allow_scroll) {
            PaneOp::Move(1i64)
        } else if c == 'k' && allowed(cfg.allow_scroll) {
            PaneOp::Move(-1i64)
        } else if c == '[' && allowed(cfg.allow_offset) {
            PaneOp::Offset(-500i64)
        } else if c == ']' && allowed(cfg.allow_offset) {
            PaneOp::Offset(500i64)
        } else if c == 'y' && allowed(cfg.allow_copy) {
            PaneOp::CopyLine
        } else if c == 'Y' && allowed(cfg.allow_copy) {
            PaneOp::CopyAll
        } else {
            PaneOp::Ignore
        },
        PaneEvent::Down | PaneEvent::WheelDown => if allowed(cfg.allow_scroll) {
            PaneOp::Move(1i64)
        } else {
            PaneOp::Ignore
        },
        PaneEvent::Up | PaneEvent::WheelUp => if allowed(cfg.allow_scroll) {
            PaneOp::Move(-1i64)
        } else {
            PaneOp::Ignore
        },
        PaneEvent::Enter => if allowed(cfg.allow_seek) {
            PaneOp::SeekSelected
        } else {
            PaneOp::Ignore
        },
        PaneEvent::Esc => if selecting {
            PaneOp::ClearSelection
        } else {
            PaneOp::Ignore
        },
        PaneEvent::LeftPress { offset_y, position_y } => if allowed(cfg.allow_seek) {
            PaneOp::Click(sat_sub(position_y as int, offset_y as int) as usize)
        } else {
            PaneOp::Ignore
        },
        PaneEvent::OtherMouse | PaneEvent::Other => PaneOp::Ignore,
    }
}

/// What a command does, as far as the settings allow; a refetch is always
/// done.
pub open spec fn command_op(c: LyricsCommand, cfg: PaneSettings) -> PaneOp {
    match c {
        LyricsCommand::ScrollUp => if allowed(cfg.allow_scroll) {
            PaneOp::Move(-1i64)
        } else {
            PaneOp::Ignore
        },
        LyricsCommand::ScrollDown => if allowed(cfg.allow_scroll) {
            PaneOp::Move(1i64)
        } else {
            PaneOp::Ignore
        },
        LyricsCommand::Seek => if allowed(cfg.allow_seek) {
            PaneOp::SeekSelected
        } else {
            PaneOp::Ignore
        },
        LyricsCommand::Offset(d) => if allowed(cfg.allow_offset) {
            PaneOp::Offset(d)
        } else {
            PaneOp::Ignore
        },
        LyricsCommand::ProviderCycle => if allowed(cfg.allow_provider_switch) {
            PaneOp::Refetch
        } else {
            PaneOp::Ignore
        },
        LyricsCommand::Refetch => PaneOp::Refetch,
        LyricsCommand::CopyLine => if allowed(cfg.allow_copy) {
            PaneOp::CopyLine
        } else {
            PaneOp::Ignore
        },
        LyricsCommand::CopyAll => if allowed(cfg.allow_copy) {
            PaneOp::CopyAll
        } else {
            PaneOp::Ignore
        },
    }
}

/// What an event does.
pub fn event_op_of(e: PaneEvent, cfg: &PaneSettings, selecting: bool) -> (r: PaneOp)
    ensures
        r == event_op(e, *cfg, selecting),
{
    match e {
        PaneEvent::Char(c) => {
            if c == 'j' && is_allowed(cfg.allow_scroll) {
                PaneOp::Move(1)
            } else if c == 'k' && is_allowed(cfg.allow_scroll) {
                PaneOp::Move(-1)
            } else if c == '[' && is_allowed(cfg.allow_offset) {
                PaneOp::Offset(-500)
            } else if c == ']' && is_allowed(cfg.allow_offset) {
                PaneOp::Offset(500)
            } else if c == 'y' && is_allowed(cfg.allow_copy) {
                PaneOp::CopyLine
            } else if c == 'Y' && is_allowed(cfg.allow_copy) {
                PaneOp::CopyAll
            } else {
                PaneOp::Ignore
            }
        },
        PaneEvent::Down | PaneEvent::WheelDown => if is_allowed(cfg.allow_scroll) {
            PaneOp::Move(1)
        } else {
            PaneOp::Ignore
        },
        PaneEvent::Up | PaneEvent::WheelUp => if is_allowed(cfg.allow_scroll) {
            PaneOp::Move(-1)
        } else {
            PaneOp::Ignore
        },
        PaneEvent::Enter => if is_allowed(cfg.allow_seek) {
            PaneOp::SeekSelected
        } else {
            PaneOp::Ignore
        },
        PaneEvent::Esc => if selecting {
            PaneOp::ClearSelection
        } else {
            PaneOp::Ignore
        },
        PaneEvent::LeftPress { offset_y, position_y } => if is_allowed(cfg.allow_seek) {
            PaneOp::Click(
                if position_y >= offset_y {
                    position_y - offset_y
                } else {
                    0
                },
            )
        } else {
            PaneOp::Ignore
        },
        PaneEvent::OtherMouse | PaneEvent::Other => PaneOp::Ignore,
    }
}

/// What a command does.
pub fn command_op_of(c: LyricsCommand, cfg: &PaneSettings) -> (r: PaneOp)
    ensures
        r == command_op(c, *cfg),
{
    match c {
        LyricsCommand::ScrollUp => if is_allowed(cfg.allow_scroll) {
            PaneOp::Move(-1)
        } else {
            PaneOp::Ignore
        },
        LyricsCommand::ScrollDown => if is_allowed(cfg.allow_scroll) {
            PaneOp::Move(1)
        } else {
            PaneOp::Ignore
        },
        LyricsCommand::Seek => if is_allowed(cfg.allow_seek) {
            PaneOp::SeekSelected
        } else {
            PaneOp::Ignore
        },
        LyricsCommand::Offset(d) => if is_allowed(cfg.allow_offset) {
            PaneOp::Offset(d)
        } else {
            PaneOp::Ignore
        },
        LyricsCommand::ProviderCycle => if is_allowed(cfg.allow_provider_switch) {
            PaneOp::Refetch
        } else {
            PaneOp::Ignore
        },
        LyricsCommand::Refetch => PaneOp::Refetch,
        LyricsCommand::CopyLine => if is_allowed(cfg.allow_copy) {
            PaneOp::CopyLine
        } else {
            PaneOp::Ignore
        },
        LyricsCommand::CopyAll => if is_allowed(cfg.allow_copy) {
            PaneOp::CopyAll
        } else {
            PaneOp::Ignore
        },
    }
}

/// The pane's state but for the selection is unchanged.
pub open spec fn same_but_cursor(a: LyricsView, b: LyricsView) -> bool {
    &&& a.state() == b.state()
    &&& a.fetched_for() == b.fetched_for()
    &&& a.offset() == b.offset()
    &&& a.top() == b.top()
    &&& a.row_line() == b.row_line()
}

/// The outcome of a seek: the position to seek to, and the selection left.
pub open spec fn seeked(before: LyricsView, after: LyricsView, target: Option<u32>, action: PaneAction) -> bool {
    &&& same_but_cursor(before, after)
    &&& match target {
        Some(ms) => action == PaneAction::Seek(ms) && after.cursor() is None,
        None => action is Nothing && after.cursor() == before.cursor(),
    }
}

/// `after` and `action` are what `op` makes of `before` at `progress_ms`.
pub open spec fn performed(before: LyricsView, after: LyricsView, op: PaneOp, progress_ms: i64, action: PaneAction) -> bool {
    let pos = pos_u32((progress_ms + before.offset()) as i64);
    match op {
        PaneOp::Ignore => action is Nothing && after == before,
        PaneOp::Move(d) => action is Nothing && same_but_cursor(before, after) && after.cursor() == move_cursor_spec(
            before.cursor(),
            active_of(before.state(), pos),
            line_count(before.state()) as usize,
            d,
        ),
        PaneOp::SeekSelected => seeked(
            before,
            after,
            match before.selected_line(progress_ms) {
                Some(i) => line_seek_target(before.state(), i, before.offset()),
                None => None,
            },
            action,
        ),
        PaneOp::ClearSelection => action is Nothing && same_but_cursor(before, after) && after.cursor() is None,
        PaneOp::Offset(d) => {
            &&& action is Nothing
            &&& after.offset() == before.offset() + d
            &&& after.state() == before.state()
            &&& after.fetched_for() == before.fetched_for()
            &&& after.cursor() == before.cursor()
            &&& after.top() == before.top()
            &&& after.row_line() == before.row_line()
        },
        PaneOp::CopyLine => after == before && match copied_line(before.state(), pos) {
            Some(t) => action matches PaneAction::Copy(c) && c@ == t,
            None => action is Nothing,
        },
        PaneOp::CopyAll => after == before && match copied_all(before.state()) {
            Some(t) => action matches PaneAction::Copy(c) && c@ == t,
            None => action is Nothing,
        },
        PaneOp::Click(y) => seeked(
            before,
            after,
            match before.clicked_line(y) {
                Some(i) => line_seek_target(before.state(), i, before.offset()),
                None => None,
            },
            action,
        ),
        PaneOp::Refetch => {
            &&& action is Nothing
            &&& after.fetched_for() is None
            &&& after.cursor() is None
            &&& after.state() == LyricsState::Idle
            &&& after.offset() == before.offset()
            &&& after.top() == before.top()
            &&& after.row_line() == before.row_line()
        },
    }
}

/// What `op` needs to stay within the machine's integers: the position and
/// offsets fit an `i64`, and so do the line count and the moved selection.
pub open spec fn op_fits(v: LyricsView, op: PaneOp, progress_ms: i64) -> bool {
    &&& i64::MIN <= progress_ms + v.offset() <= i64::MAX
    &&& v.offset() >= i64::MIN + 0x1_0000_0000
    &&& line_count(v.state()) <= i64::MAX
    &&& (op matches PaneOp::Move(d) ==> (v.cursor() matches Some(c) ==> c <= i64::MAX && i64::MIN <= c + d <= i64::MAX))
    &&& (op matches PaneOp::Offset(d) ==> i64::MIN <= v.offset() + d <= i64::MAX)
}

impl LyricsView {
    /// Does what `op` asks.
    pub fn perform(&mut self, op: PaneOp, progress_ms: i64) -> (r: PaneAction)
        requires
            op_fits(*old(self), op, progress_ms),
        ensures
            performed(*old(self), *final(self), op, progress_ms, r),
    {
        match op {
            PaneOp::Ignore => PaneAction::Nothing,
            PaneOp::Move(d) => {
                self.move_cursor_by(progress_ms, d);
                PaneAction::Nothing
            },
            PaneOp::SeekSelected => match self.seek_to_selected(progress_ms) {
                Some(ms) => PaneAction::Seek(ms),
                None => PaneAction::Nothing,
            },
            PaneOp::ClearSelection => {
                self.clear_selection();
                PaneAction::Nothing
            },
            PaneOp::Offset(d) => {
                self.adjust_offset(d);
                PaneAction::Nothing
            },
            PaneOp::CopyLine => match self.copy_line(progress_ms) {
                Some(t) => PaneAction::Copy(t),
                None => PaneAction::Nothing,
            },
            PaneOp::CopyAll => match self.copy_all() {
                Some(t) => PaneAction::Copy(t),
                None => PaneAction::Nothing,
            },
            PaneOp::Click(y) => match self.handle_click(y) {
                Some(ms) => PaneAction::Seek(ms),
                None => PaneAction::Nothing,
            },
            PaneOp::Refetch => {
                self.force_refetch();
                PaneAction::Nothing
            },
        }
    }

    /// An event on the pane: says whether the pane took it, and what the
    /// player or clipboard has to do.
    pub fn on_event(&mut self, event: PaneEvent, cfg: &PaneSettings, progress_ms: i64) -> (r: (bool, PaneAction))
        requires
            op_fits(*old(self), event_op(event, *cfg, old(self).cursor() is Some), progress_ms),
        ensures
            r.0 == !(event_op(event, *cfg, old(self).cursor() is Some) is Ignore),
            performed(*old(self), *final(self), event_op(event, *cfg, old(self).cursor() is Some), progress_ms, r.1),
    {
        let op = event_op_of(event, cfg, self.cursor_line.is_some());
        let consumed = match op {
            PaneOp::Ignore => false,
            _ => true,
        };
        let action = self.perform(op, progress_ms);
        (consumed, action)
    }

    /// A lyrics command, which the pane always takes. A refetch also drops
    /// the playing track's (`meta`) lyrics from the manager's cache.
    pub fn on_command(
        &mut self,
        cmd: LyricsCommand,
        cfg: &PaneSettings,
        progress_ms: i64,
        manager: &mut LyricsManager,
        meta: Option<&TrackMeta>,
    ) -> (r: PaneAction)
        requires
            op_fits(*old(self), command_op(cmd, *cfg), progress_ms),
            old(manager).wf(),
        ensures
            performed(*old(self), *final(self), command_op(cmd, *cfg), progress_ms, r),
            final(manager).wf(),
            final(manager).providers() == old(manager).providers(),
            final(manager).cached() == (match (cmd, meta) {
                (LyricsCommand::Refetch, Some(m)) => old(manager).cached().remove(cache_key_of(*m)),
                _ => old(manager).cached(),
            }),
    {
        if let LyricsCommand::Refetch = cmd {
            if let Some(m) = meta {
                manager.invalidate(m);
            }
        }
        let op = command_op_of(cmd, cfg);
        self.perform(op, progress_ms)
    }
}

} // verus!
