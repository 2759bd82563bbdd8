//! What each lyrics provider's answer becomes: LRCLIB's synced or plain
//! lyrics (from the answer's fields), Musixmatch's subtitle (read out of the
//! JSON answer), the
//! NetEase search match and its lyrics merged with translation and
//! romanization, and Spotify's own lines.

use vstd::prelude::*;
use crate::lyrics::json::{JsonStep, JsonStepView, json_str_at, json_str_at_exec, steps_view};
use crate::lyrics::lrc::{lrc_lines, parse_lrc, split_lines, text_lines};
use crate::lyrics::model::{LineView, LyricLine, Lyrics, LyricsValue, ProviderId, lines_view};
use crate::lyrics::romanize::{romanization_of, romanize_line};
use crate::text::{chars_of, parse_u32, parsed_u32, trim, trim_bounds};

verus! {

/// Whether `s` is empty or white space only.
pub open spec fn blank(s: Seq<char>) -> bool {
    trim(s).len() == 0
}

/// Whether `s` is empty or white space only.
pub fn is_blank(s: &str) -> (r: bool)
    ensures
        r == blank(s@),
{
    let v = chars_of(s);
    let (a, b) = trim_bounds(&v, 0, v.len());
    assert(v@.subrange(0, v@.len() as int) =~= v@);
    a == b
}

/// A text that is present and not blank.
pub open spec fn filled(o: Option<Seq<char>>) -> Option<Seq<char>> {
    match o {
        Some(t) => if blank(t) {
            None
        } else {
            Some(t)
        },
        None => None,
    }
}

/// The lyric text of a provider's answer, when it is present and not blank.
pub fn lrc_text(b: Option<String>) -> (r: Option<String>)
    ensures
        r.deep_view() == filled(b.deep_view()),
{
    match b {
        Some(t) => if is_blank(t.as_str()) {
            None
        } else {
            Some(t)
        },
        None => None,
    }
}

/// The value of optional lyrics.
pub open spec fn lyrics_view(r: Option<Lyrics>) -> Option<LyricsValue> {
    match r {
        Some(l) => Some(l@),
        None => None,
    }
}

/// Synced lyrics of a provider, with these lines.
pub open spec fn synced_lyrics(provider: ProviderId, lines: Seq<LineView>) -> LyricsValue {
    LyricsValue { provider, synced: true, rtl: false, language: None, lines }
}

/// A line of unsynced lyrics.
pub open spec fn plain_line(t: Seq<char>) -> LineView {
    LineView { start_ms: None, text: t, translation: None, romanization: None }
}

/// The unsynced lines of a text, one for each of its lines.
pub open spec fn plain_lines(s: Seq<char>) -> Seq<LineView> {
    text_lines(s, 0).map_values(|t: Seq<char>| plain_line(t))
}

/// What LRCLIB's answer gives: its synced lyrics when they are present, not
/// blank and hold a time tag; else its plain lyrics when present and not
/// blank, unsynced, one line for each line of text; else nothing.
pub open spec fn lrclib_result(plain: Option<Seq<char>>, synced: Option<Seq<char>>) -> Option<LyricsValue> {
    if filled(synced) is Some && lrc_lines(filled(synced)->0).len() > 0 {
        Some(synced_lyrics(ProviderId::Lrclib, lrc_lines(filled(synced)->0)))
    } else {
        match filled(plain) {
            Some(p) => Some(
                LyricsValue {
                    provider: ProviderId::Lrclib,
                    synced: false,
                    rtl: false,
                    language: None,
                    lines: plain_lines(p),
                },
            ),
            None => None,
        }
    }
}

/// Lyrics from the `plainLyrics` and `syncedLyrics` fields of LRCLIB's answer.
pub fn parse_get_response(plain: Option<String>, synced: Option<String>) -> (r: Option<Lyrics>)
    ensures
        lyrics_view(r) == lrclib_result(plain.deep_view(), synced.deep_view()),
{
    let ghost pv = plain.deep_view();
    let ghost sv = synced.deep_view();
    if let Some(text) = lrc_text(synced) {
        let lines = parse_lrc(text.as_str());
        if lines.len() > 0 {
            return Some(
                Lyrics { provider: ProviderId::Lrclib, synced: true, rtl: false, language: None, lines },
            );
        }
    }
    match lrc_text(plain) {
        Some(p) => {
            let texts = split_lines(p.as_str());
            let mut lines: Vec<LyricLine> = Vec::new();
            let mut i: usize = 0;
            while i < texts.len()
                invariant
                    i <= texts@.len(),
                    texts@.map_values(|l: String| l@) == text_lines(p@, 0),
                    lines_view(lines@) == text_lines(p@, 0).subrange(0, i as int).map_values(
                        |t: Seq<char>| plain_line(t),
                    ),
                decreases texts@.len() - i,
            {
                let ghost before = lines_view(lines@);
                let line = LyricLine {
                    start_ms: None,
                    text: texts[i].clone(),
                    translation: None,
                    romanization: None,
                };
                lines.push(line);
                proof {
                    assert(texts@.map_values(|l: String| l@)[i as int] == texts@[i as int]@);
                    assert(lines_view(lines@) =~= before.push(line@));
                    assert(text_lines(p@, 0).subrange(0, i + 1).map_values(|t: Seq<char>| plain_line(t))
                        =~= before.push(plain_line(text_lines(p@, 0)[i as int])));
                }
                i = i + 1;
            }
            proof {
                assert(text_lines(p@, 0).subrange(0, i as int) =~= text_lines(p@, 0));
            }
            Some(Lyrics { provider: ProviderId::Lrclib, synced: false, rtl: false, language: None, lines })
        },
        None => None,
    }
}

/// What Musixmatch's subtitle gives: its lines when it has a time tag.
pub open spec fn subtitle_result(body: Option<Seq<char>>) -> Option<LyricsValue> {
    match body {
        Some(b) => if lrc_lines(b).len() > 0 {
            Some(synced_lyrics(ProviderId::Musixmatch, lrc_lines(b)))
        } else {
            None
        },
        None => None,
    }
}

/// Lyrics from the `subtitle_body` of Musixmatch's answer, if it has one.
pub fn lyrics_from_subtitle(body: Option<String>) -> (r: Option<Lyrics>)
    ensures
        lyrics_view(r) == subtitle_result(body.deep_view()),
{
    match body {
        Some(b) => {
            let lines = parse_lrc(b.as_str());
            if lines.len() == 0 {
                None
            } else {
                Some(Lyrics { provider: ProviderId::Musixmatch, synced: true, rtl: false, language: None, lines })
            }
        },
        None => None,
    }
}

/// Where Musixmatch's `macro.subtitles.get` answer holds the subtitle:
/// `message.body.macro_calls["track.subtitles.get"].message.body
/// .subtitle_list[0].subtitle.subtitle_body`.
pub open spec fn macro_subtitle_path() -> Seq<JsonStepView> {
    seq![
        JsonStepView::Key("message"@),
        JsonStepView::Key("body"@),
        JsonStepView::Key("macro_calls"@),
        JsonStepView::Key("track.subtitles.get"@),
        JsonStepView::Key("message"@),
        JsonStepView::Key("body"@),
        JsonStepView::Key("subtitle_list"@),
        JsonStepView::Index(0),
        JsonStepView::Key("subtitle"@),
        JsonStepView::Key("subtitle_body"@),
    ]
}

fn key(k: &str) -> (s: JsonStep)
    ensures
        s@ == JsonStepView::Key(k@),
{
    JsonStep::Key(String::from_str(k))
}

/// The path of `macro_subtitle_path`.
fn macro_subtitle_steps() -> (p: Vec<JsonStep>)
    ensures
        steps_view(p@) == macro_subtitle_path(),
{
    let p = vec![
        key("message"),
        key("body"),
        key("macro_calls"),
        key("track.subtitles.get"),
        key("message"),
        key("body"),
        key("subtitle_list"),
        JsonStep::Index(0),
        key("subtitle"),
        key("subtitle_body"),
    ];
    assert(steps_view(p@) =~= macro_subtitle_path());
    p
}

/// Lyrics from Musixmatch's `macro.subtitles.get` answer: the subtitle that
/// the JSON document holds at `macro_subtitle_path`, when it has a time tag.
pub fn parse_macro(json: &str) -> (r: Option<Lyrics>)
    ensures
        lyrics_view(r) == subtitle_result(json_str_at(json@, macro_subtitle_path())),
{
    let path = macro_subtitle_steps();
    let body = json_str_at_exec(json, path.as_slice());
    lyrics_from_subtitle(body)
}

/// Whether a song of `duration` milliseconds is within three seconds of `target`.
pub open spec fn close_duration(duration: u64, target: u32) -> bool {
    -3000 <= duration - target <= 3000
}

/// The index of the first song within three seconds of `target`.
pub open spec fn first_close(songs: Seq<(u64, u64)>, target: u32, n: int) -> Option<int>
    decreases n,
{
    if n <= 0 {
        None
    } else {
        match first_close(songs, target, n - 1) {
            Some(i) => Some(i),
            None => if close_duration(songs[n - 1].1, target) {
                Some(n - 1)
            } else {
                None
            },
        }
    }
}

/// The NetEase song to take among search results `(id, duration)`: the first
/// within three seconds of the track, else the first one, else none.
pub open spec fn best_match_spec(songs: Seq<(u64, u64)>, target: u32) -> Option<u64> {
    match first_close(songs, target, songs.len() as int) {
        Some(i) => Some(songs[i].0),
        None => if songs.len() > 0 {
            Some(songs[0].0)
        } else {
            None
        },
    }
}

/// The id of the NetEase search result `(id, duration)` to fetch lyrics for.
pub fn best_match(songs: &[(u64, u64)], duration_ms: u32) -> (r: Option<u64>)
    ensures
        r == best_match_spec(songs@, duration_ms),
{
    let mut i: usize = 0;
    while i < songs.len()
        invariant
            i <= songs@.len(),
            first_close(songs@, duration_ms, i as int) is None,
        decreases songs@.len() - i,
    {
        let d = songs[i].1;
        if d <= duration_ms as u64 + 3000 && duration_ms as u64 <= d + 3000 {
            proof {
                assert(first_close(songs@, duration_ms, i + 1) == Some(i as int));
                lemma_first_close_stays(songs@, duration_ms, i + 1, songs@.len() as int);
            }
            return Some(songs[i].0);
        }
        i = i + 1;
    }
    if songs.len() > 0 {
        Some(songs[0].0)
    } else {
        None
    }
}

/// How far apart, in milliseconds, a song's duration and the track's are.
pub open spec fn duration_gap(duration: u64, target: u32) -> int {
    if duration >= target {
        duration - target
    } else {
        target - duration
    }
}

proof fn lemma_none_close_before(songs: Seq<(u64, u64)>, target: u32, m: int)
    requires
        0 <= m <= songs.len(),
        forall|j: int| 0 <= j < m ==> duration_gap(#[trigger] songs[j].1, target) > 3000,
    ensures
        first_close(songs, target, m) is None,
    decreases m,
{
    if m > 0 {
        lemma_none_close_before(songs, target, m - 1);
        assert(duration_gap(songs[m - 1].1, target) > 3000);
    }
}

/// The NetEase match is the first search result whose duration is within
/// 3000 ms of the track's, whether longer or shorter.
pub proof fn lemma_best_match_takes_first_close(songs: Seq<(u64, u64)>, target: u32, k: int)
    requires
        0 <= k < songs.len(),
        duration_gap(songs[k].1, target) <= 3000,
        forall|j: int| 0 <= j < k ==> duration_gap(#[trigger] songs[j].1, target) > 3000,
    ensures
        best_match_spec(songs, target) == Some(songs[k].0),
{
    lemma_none_close_before(songs, target, k);
    assert(first_close(songs, target, k + 1) == Some(k));
    lemma_first_close_stays(songs, target, k + 1, songs.len() as int);
}

/// With no search result within 3000 ms of the track, the NetEase match is
/// the first result, and there is none when the search found nothing.
pub proof fn lemma_best_match_without_close(songs: Seq<(u64, u64)>, target: u32)
    requires
        forall|j: int| 0 <= j < songs.len() ==> duration_gap(#[trigger] songs[j].1, target) > 3000,
    ensures
        best_match_spec(songs, target) == (if songs.len() > 0 {
            Some(songs[0].0)
        } else {
            None
        }),
{
    lemma_none_close_before(songs, target, songs.len() as int);
}

proof fn lemma_first_close_stays(songs: Seq<(u64, u64)>, target: u32, m: int, n: int)
    requires
        0 <= m <= n,
        first_close(songs, target, m) is Some,
    ensures
        first_close(songs, target, n) == first_close(songs, target, m),
    decreases n - m,
{
    if n > m {
        lemma_first_close_stays(songs, target, m, n - 1);
    }
}

/// The text of the first line of `map` that starts at `start`.
pub open spec fn text_at(map: Seq<LineView>, start: Option<u32>) -> Option<Seq<char>>
    decreases map.len(),
{
    if map.len() == 0 {
        None
    } else if map[0].start_ms == start {
        Some(map[0].text)
    } else {
        text_at(map.drop_first(), start)
    }
}

/// `found` where there is one, else `old`.
pub open spec fn or_keep(found: Option<Seq<char>>, old: Option<Seq<char>>) -> Option<Seq<char>> {
    match found {
        Some(t) => Some(t),
        None => old,
    }
}

/// A NetEase lyric line with its translation and romanization merged in:
/// each from the first line of the translated (romanized) lyrics that starts
/// at the same time; when romanization is wanted, none was found and the
/// client romanizes, the line's own romanization.
pub open spec fn merged_line(
    l: LineView,
    tmap: Option<Seq<LineView>>,
    rmap: Option<Seq<LineView>>,
    want_romaji: bool,
    client_romanize: bool,
) -> LineView {
    let translation = match tmap {
        Some(m) => or_keep(text_at(m, l.start_ms), l.translation),
        None => l.translation,
    };
    let found = if want_romaji {
        match rmap {
            Some(m) => or_keep(text_at(m, l.start_ms), l.romanization),
            None => l.romanization,
        }
    } else {
        l.romanization
    };
    let romanization = if want_romaji && client_romanize && found is None {
        romanization_of(l.text)
    } else {
        found
    };
    LineView { start_ms: l.start_ms, text: l.text, translation, romanization }
}

/// The lines of an optional LRC text that is present and not blank.
pub open spec fn lrc_map(o: Option<Seq<char>>) -> Option<Seq<LineView>> {
    match filled(o) {
        Some(t) => Some(lrc_lines(t)),
        None => None,
    }
}

/// What NetEase's lyrics answer gives: nothing without LRC lyrics that hold a
/// time tag; else those lines, each merged with the translation and, when
/// wanted, the romanization.
pub open spec fn netease_result(
    lrc: Option<Seq<char>>,
    tlyric: Option<Seq<char>>,
    romalrc: Option<Seq<char>>,
    want_romaji: bool,
    client_romanize: bool,
) -> Option<LyricsValue> {
    match lrc_map(lrc) {
        Some(lines) => if lines.len() == 0 {
            None
        } else {
            Some(
                synced_lyrics(
                    ProviderId::Netease,
                    lines.map_values(
                        |l: LineView|
                            merged_line(l, lrc_map(tlyric), lrc_map(romalrc), want_romaji, client_romanize),
                    ),
                ),
            )
        },
        None => None,
    }
}

/// The text of the first line of `map` that starts at `start`.
fn find_text(map: &Vec<LyricLine>, start: Option<u32>) -> (r: Option<String>)
    ensures
        r.deep_view() == text_at(lines_view(map@), start),
{
    let ghost m = lines_view(map@);
    assert(m.subrange(0, m.len() as int) =~= m);
    let mut i: usize = 0;
    while i < map.len()
        invariant
            i <= map@.len(),
            m == lines_view(map@),
            text_at(m.subrange(i as int, m.len() as int), start) == text_at(m, start),
        decreases map@.len() - i,
    {
        let ghost rest = m.subrange(i as int, m.len() as int);
        assert(rest[0] == map@[i as int]@);
        assert(rest.drop_first() =~= m.subrange(i + 1, m.len() as int));
        let same = match (map[i].start_ms, start) {
            (Some(a), Some(b)) => a == b,
            (None, None) => true,
            _ => false,
        };
        if same {
            return Some(map[i].text.clone());
        }
        i = i + 1;
    }
    None
}

fn clone_text(o: &Option<String>) -> (r: Option<String>)
    ensures
        r.deep_view() == o.deep_view(),
{
    match o {
        Some(t) => Some(t.clone()),
        None => None,
    }
}

/// Lyrics from the `lrc`, `tlyric` and `romalrc` lyric texts of NetEase's
/// answer.
pub fn parse_lyric_response(
    lrc: Option<String>,
    tlyric: Option<String>,
    romalrc: Option<String>,
    want_romaji: bool,
    client_romanize: bool,
) -> (r: Option<Lyrics>)
    ensures
        lyrics_view(r) == netease_result(
            lrc.deep_view(),
            tlyric.deep_view(),
            romalrc.deep_view(),
            want_romaji,
            client_romanize,
        ),
{
    let ghost tv = lrc_map(tlyric.deep_view());
    let ghost rv = lrc_map(romalrc.deep_view());
    let base = match lrc_text(lrc) {
        Some(b) => b,
        None => return None,
    };
    let lines = parse_lrc(base.as_str());
    if lines.len() == 0 {
        return None;
    }
    let tmap: Option<Vec<LyricLine>> = match lrc_text(tlyric) {
        Some(t) => Some(parse_lrc(t.as_str())),
        None => None,
    };
    let rmap: Option<Vec<LyricLine>> = match lrc_text(romalrc) {
        Some(t) => Some(parse_lrc(t.as_str())),
        None => None,
    };
    let ghost src = lines_view(lines@);
    let ghost target = src.map_values(
        |l: LineView| merged_line(l, tv, rv, want_romaji, client_romanize),
    );
    let mut out: Vec<LyricLine> = Vec::new();
    let mut i: usize = 0;
    while i < lines.len()
        invariant
            i <= lines@.len(),
            src == lines_view(lines@),
            target == src.map_values(|l: LineView| merged_line(l, tv, rv, want_romaji, client_romanize)),
            tv == match tmap {
                Some(m) => Some(lines_view(m@)),
                None => None::<Seq<LineView>>,
            },
            rv == match rmap {
                Some(m) => Some(lines_view(m@)),
                None => None::<Seq<LineView>>,
            },
            lines_view(out@) == target.subrange(0, i as int),
        decreases lines@.len() - i,
    {
        let l = &lines[i];
        assert(src[i as int] == l@);
        let translation = match &tmap {
            Some(m) => match find_text(m, l.start_ms) {
                Some(t) => Some(t),
                None => clone_text(&l.translation),
            },
            None => clone_text(&l.translation),
        };
        let found = if want_romaji {
            match &rmap {
                Some(m) => match find_text(m, l.start_ms) {
                    Some(t) => Some(t),
                    None => clone_text(&l.romanization),
                },
                None => clone_text(&l.romanization),
            }
        } else {
            clone_text(&l.romanization)
        };
        let romanization = if want_romaji && client_romanize && found.is_none() {
            romanize_line(l.text.as_str())
        } else {
            found
        };
        let merged = LyricLine { start_ms: l.start_ms, text: l.text.clone(), translation, romanization };
        let ghost before = lines_view(out@);
        out.push(merged);
        proof {
            assert(merged@ == target[i as int]);
            assert(lines_view(out@) =~= before.push(merged@));
            assert(target.subrange(0, i + 1) =~= target.subrange(0, i as int).push(target[i as int]));
        }
        i = i + 1;
    }
    assert(target.subrange(0, i as int) =~= target);
    Some(Lyrics { provider: ProviderId::Netease, synced: true, rtl: false, language: None, lines: out })
}

/// A line of Spotify's own lyrics: its start time, when the lyrics are synced
/// and the start time reads as a number, and its words.
pub open spec fn spotify_line(synced: bool, start: Seq<char>, words: Seq<char>) -> LineView {
    LineView {
        start_ms: if synced {
            parsed_u32(start)
        } else {
            None
        },
        text: words,
        translation: None,
        romanization: None,
    }
}

/// Lyrics from Spotify's own answer: whether its lines are synced, whether
/// the language reads right to left, the language, and each line's start time
/// (a decimal string of milliseconds) and words.
pub fn from_spotify_lines(synced: bool, rtl: bool, language: String, lines: &Vec<(String, String)>) -> (r: Lyrics)
    ensures
        r@ == (LyricsValue {
            provider: ProviderId::Spotify,
            synced,
            rtl,
            language: Some(language@),
            lines: lines@.map_values(|p: (String, String)| spotify_line(synced, p.0@, p.1@)),
        }),
{
    let ghost target = lines@.map_values(|p: (String, String)| spotify_line(synced, p.0@, p.1@));
    let mut out: Vec<LyricLine> = Vec::new();
    let mut i: usize = 0;
    while i < lines.len()
        invariant
            i <= lines@.len(),
            target == lines@.map_values(|p: (String, String)| spotify_line(synced, p.0@, p.1@)),
            lines_view(out@) == target.subrange(0, i as int),
        decreases lines@.len() - i,
    {
        let start_ms = if synced {
            parse_u32(lines[i].0.as_str())
        } else {
            None
        };
        let line = LyricLine { start_ms, text: lines[i].1.clone(), translation: None, romanization: None };
        let ghost before = lines_view(out@);
        out.push(line);
        proof {
            assert(line@ == target[i as int]);
            assert(lines_view(out@) =~= before.push(line@));
            assert(target.subrange(0, i + 1) =~= target.subrange(0, i as int).push(target[i as int]));
        }
        i = i + 1;
    }
    assert(target.subrange(0, i as int) =~= target);
    Lyrics { provider: ProviderId::Spotify, synced, rtl, language: Some(language), lines: out }
}

} // verus!
