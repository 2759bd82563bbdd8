//! What the lyrics providers are asked: the query of each request, whether a
//! provider is asked at all, and which of Musixmatch's replies count as no
//! answer.

use vstd::prelude::*;
use crate::lyrics::model::{ProviderId, TrackMeta};
use crate::text::{decimal_digits, decimal_string, push_char};
use crate::ui::image_render::{contains_text, str_contains};

verus! {

/// The value of a query: its names and values.
pub open spec fn query_view(q: Vec<(String, String)>) -> Seq<(Seq<char>, Seq<char>)> {
    q@.map_values(|p: (String, String)| (p.0@, p.1@))
}

fn push_pair(q: &mut Vec<(String, String)>, name: &str, value: String)
    ensures
        query_view(*final(q)) == query_view(*old(q)).push((name@, value@)),
{
    let ghost before = query_view(*q);
    q.push((String::from_str(name), value));
    assert(query_view(*q) =~= before.push((name@, value@)));
}

/// A provider is asked when lyrics are on (unless switched off) and the
/// provider is in the configured order.
pub open spec fn provider_enabled_spec(enabled: Option<bool>, order: Seq<ProviderId>, id: ProviderId) -> bool {
    enabled != Some(false) && order.contains(id)
}

/// Whether a provider is asked.
pub fn provider_enabled(enabled: Option<bool>, order: &[ProviderId], id: ProviderId) -> (r: bool)
    ensures
        r == provider_enabled_spec(enabled, order@, id),
{
    let on = match enabled {
        Some(b) => b,
        None => true,
    };
    if !on {
        return false;
    }
    let mut i: usize = 0;
    while i < order.len()
        invariant
            enabled != Some(false),
            i <= order@.len(),
            forall|k: int| 0 <= k < i ==> order@[k] != id,
        decreases order@.len() - i,
    {
        if order[i] == id {
            assert(order@[i as int] == id);
            assert(order@.contains(id));
            return true;
        }
        i = i + 1;
    }
    assert(!order@.contains(id));
    false
}

/// Musixmatch is asked only with a user token.
pub fn musixmatch_enabled(token: &str, enabled: Option<bool>, order: &[ProviderId]) -> (r: bool)
    ensures
        r == (token@.len() > 0 && provider_enabled_spec(enabled, order@, ProviderId::Musixmatch)),
{
    if token.unicode_len() == 0 {
        return false;
    }
    provider_enabled(enabled, order, ProviderId::Musixmatch)
}

/// The whole seconds of a track, as text.
pub open spec fn seconds_text(t: TrackMeta) -> Seq<char> {
    decimal_digits((t.duration_ms / 1000) as nat)
}

/// LRCLIB's query: title, artist, duration in seconds, and the album when
/// known.
pub open spec fn lrclib_query_spec(t: TrackMeta) -> Seq<(Seq<char>, Seq<char>)> {
    seq![("track_name"@, t.title@), ("artist_name"@, t.artist@), ("duration"@, seconds_text(t))] + match t.album {
        Some(a) => seq![("album_name"@, a@)],
        None => Seq::empty(),
    }
}

/// LRCLIB's query.
pub fn lrclib_query(t: &TrackMeta) -> (r: Vec<(String, String)>)
    ensures
        query_view(r) == lrclib_query_spec(*t),
{
    let mut q: Vec<(String, String)> = Vec::new();
    push_pair(&mut q, "track_name", t.title.clone());
    push_pair(&mut q, "artist_name", t.artist.clone());
    push_pair(&mut q, "duration", decimal_string((t.duration_ms / 1000) as u64));
    if let Some(a) = &t.album {
        push_pair(&mut q, "album_name", a.clone());
    }
    proof {
        assert(query_view(q) =~= lrclib_query_spec(*t));
    }
    q
}

/// NetEase's search query: title and artist, songs only, ten results.
pub open spec fn netease_search_query_spec(t: TrackMeta) -> Seq<(Seq<char>, Seq<char>)> {
    seq![("s"@, t.title@ + seq![' '] + t.artist@), ("type"@, "1"@), ("limit"@, "10"@)]
}

/// NetEase's search query.
pub fn netease_search_query(t: &TrackMeta) -> (r: Vec<(String, String)>)
    ensures
        query_view(r) == netease_search_query_spec(*t),
{
    let mut s = t.title.clone();
    push_char(&mut s, ' ');
    s.append(t.artist.as_str());
    assert(s@ =~= t.title@ + seq![' '] + t.artist@);
    let mut q: Vec<(String, String)> = Vec::new();
    push_pair(&mut q, "s", s);
    push_pair(&mut q, "type", String::from_str("1"));
    push_pair(&mut q, "limit", String::from_str("10"));
    proof {
        assert(query_view(q) =~= netease_search_query_spec(*t));
    }
    q
}

/// NetEase's lyrics query for the song `id`: the original, translated and
/// romanized lyrics, each in its latest version.
pub open spec fn netease_lyric_query_spec(id: u64) -> Seq<(Seq<char>, Seq<char>)> {
    seq![("id"@, decimal_digits(id as nat)), ("lv"@, "-1"@), ("kv"@, "-1"@), ("tv"@, "-1"@)]
}

/// NetEase's lyrics query.
pub fn netease_lyric_query(id: u64) -> (r: Vec<(String, String)>)
    ensures
        query_view(r) == netease_lyric_query_spec(id),
{
    let mut q: Vec<(String, String)> = Vec::new();
    push_pair(&mut q, "id", decimal_string(id));
    push_pair(&mut q, "lv", String::from_str("-1"));
    push_pair(&mut q, "kv", String::from_str("-1"));
    push_pair(&mut q, "tv", String::from_str("-1"));
    proof {
        assert(query_view(q) =~= netease_lyric_query_spec(id));
    }
    q
}

/// Musixmatch's query: LRC subtitles for title, artist and duration with
/// the user token, then the album and the Spotify track URI when known.
pub open spec fn musixmatch_query_spec(t: TrackMeta, token: Seq<char>) -> Seq<(Seq<char>, Seq<char>)> {
    seq![
        ("format"@, "json"@),
        ("subtitle_format"@, "lrc"@),
        ("app_id"@, "web-desktop-app-v1.0"@),
        ("q_track"@, t.title@),
        ("q_artist"@, t.artist@),
        ("q_duration"@, seconds_text(t)),
        ("usertoken"@, token),
    ] + match t.album {
        Some(a) => seq![("q_album"@, a@)],
        None => Seq::empty(),
    } + match t.spotify_id {
        Some(id) => seq![("track_spotify_id"@, "spotify:track:"@ + id@)],
        None => Seq::empty(),
    }
}

/// Musixmatch's query.
pub fn musixmatch_query(t: &TrackMeta, token: &str) -> (r: Vec<(String, String)>)
    ensures
        query_view(r) == musixmatch_query_spec(*t, token@),
{
    let mut q: Vec<(String, String)> = Vec::new();
    push_pair(&mut q, "format", String::from_str("json"));
    push_pair(&mut q, "subtitle_format", String::from_str("lrc"));
    push_pair(&mut q, "app_id", String::from_str("web-desktop-app-v1.0"));
    push_pair(&mut q, "q_track", t.title.clone());
    push_pair(&mut q, "q_artist", t.artist.clone());
    push_pair(&mut q, "q_duration", decimal_string((t.duration_ms / 1000) as u64));
    push_pair(&mut q, "usertoken", String::from_str(token));
    if let Some(a) = &t.album {
        push_pair(&mut q, "q_album", a.clone());
    }
    if let Some(id) = &t.spotify_id {
        let mut uri = String::from_str("spotify:track:");
        uri.append(id.as_str());
        push_pair(&mut q, "track_spotify_id", uri);
    }
    proof {
        assert(query_view(q) =~= musixmatch_query_spec(*t, token@));
    }
    q
}

/// Whether a Musixmatch reply is no answer: an unauthorized or otherwise
/// unsuccessful status, or a captcha or an unauthorized error in the body.
pub open spec fn musixmatch_refused_spec(status: u16, body: Seq<char>) -> bool {
    status == 401 || !(200 <= status < 300) || contains_text(body, "\"captcha\""@) || contains_text(
        body,
        "\"status_code\":401"@,
    )
}

/// Whether a Musixmatch reply is no answer.
pub fn musixmatch_refused(status: u16, body: &str) -> (r: bool)
    ensures
        r == musixmatch_refused_spec(status, body@),
{
    status == 401 || !(200 <= status && status < 300) || str_contains(body, "\"captcha\"") || str_contains(
        body,
        "\"status_code\":401",
    )
}

} // verus!
