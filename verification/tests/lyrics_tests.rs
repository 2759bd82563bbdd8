use ncspot::lyrics::cache::LyricsCache;
use ncspot::lyrics::lrc::{digit_class, parse_lrc, split_lines};
use ncspot::lyrics::model::{LyricLine, Lyrics, ProviderId, TrackMeta};
use ncspot::lyrics::providers::{
    best_match, from_spotify_lines, lrc_text, lyrics_from_subtitle, parse_get_response, parse_lyric_response,
    parse_macro,
};
use ncspot::lyrics::romanize::{has_han, has_hangul, romanize_hangul, romanize_line};
use ncspot::lyrics::{FetchOutcome, LyricsManager, ProviderAnswer};
use ncspot::text::{parse_u32, parse_u64};

// --- LRC ---

#[test]
fn parses_two_and_three_digit_fractions() {
    let lines = parse_lrc("[00:01.50]half\n[00:02.123]ms");
    assert_eq!(lines.len(), 2);
    assert_eq!(lines[0].start_ms, Some(1500));
    assert_eq!(lines[0].text, "half");
    assert_eq!(lines[1].start_ms, Some(2123));
}

#[test]
fn skips_metadata_and_blank_lines() {
    let lines = parse_lrc("[ar:Artist]\n[ti:Title]\n\n[00:00.00]first");
    assert_eq!(lines.len(), 1);
    assert_eq!(lines[0].text, "first");
}

#[test]
fn expands_multiple_timestamps_on_one_line() {
    let lines = parse_lrc("[00:01.00][00:05.00]chorus");
    assert_eq!(lines.len(), 2);
    assert_eq!(lines[0].start_ms, Some(1000));
    assert_eq!(lines[1].start_ms, Some(5000));
    assert!(lines.iter().all(|l| l.text == "chorus"));
}

#[test]
fn results_are_sorted_by_time() {
    let lines = parse_lrc("[00:05.00]b\n[00:01.00]a");
    assert_eq!(lines[0].text, "a");
    assert_eq!(lines[1].text, "b");
}

#[test]
fn one_digit_fraction_counts_tenths_and_minutes_may_have_one_digit() {
    let lines = parse_lrc("[1:02.5] x ");
    assert_eq!(lines.len(), 1);
    assert_eq!(lines[0].start_ms, Some(62_500));
    assert_eq!(lines[0].text, "x");
}

#[test]
fn colon_separates_fraction_too_and_tags_in_text_are_removed() {
    let lines = parse_lrc("a [00:03:25] b");
    assert_eq!(lines.len(), 1);
    assert_eq!(lines[0].start_ms, Some(3250));
    assert_eq!(lines[0].text, "a  b");
}

#[test]
fn malformed_tags_are_ignored() {
    let lines = parse_lrc("[00:1.00]x\n[000:01.00]y\n[00:01.1234]z");
    assert!(lines.is_empty());
}

#[test]
fn equal_times_keep_their_order_and_crlf_is_stripped() {
    let lines = parse_lrc("[00:02.00]first\r\n[00:01.00]zero\r\n[00:02.00]second");
    let texts: Vec<&str> = lines.iter().map(|l| l.text.as_str()).collect();
    assert_eq!(texts, ["zero", "first", "second"]);
}

#[test]
fn empty_input_gives_no_lines() {
    assert!(parse_lrc("").is_empty());
}

#[test]
fn split_lines_behaves_like_str_lines() {
    assert_eq!(split_lines("a\r\nb\n\nc\n"), vec!["a", "b", "", "c"]);
    assert_eq!(split_lines("x\r"), vec!["x\r"]);
    assert!(split_lines("").is_empty());
}

// --- model ---

fn line(ms: u32, t: &str) -> LyricLine {
    LyricLine { start_ms: Some(ms), text: t.into(), translation: None, romanization: None }
}

fn synced(lines: Vec<LyricLine>) -> Lyrics {
    Lyrics { provider: ProviderId::Lrclib, synced: true, rtl: false, language: None, lines }
}

#[test]
fn active_index_picks_last_line_at_or_before_position() {
    let l = synced(vec![line(0, "a"), line(1000, "b"), line(2000, "c")]);
    assert_eq!(l.active_index(0), Some(0));
    assert_eq!(l.active_index(999), Some(0));
    assert_eq!(l.active_index(1000), Some(1));
    assert_eq!(l.active_index(2500), Some(2));
}

#[test]
fn active_index_none_before_first_line() {
    let l = synced(vec![line(500, "a")]);
    assert_eq!(l.active_index(0), None);
    assert_eq!(l.active_index(499), None);
}

#[test]
fn active_index_none_when_unsynced() {
    let mut l = synced(vec![line(0, "a")]);
    l.synced = false;
    assert_eq!(l.active_index(10_000), None);
}

#[test]
fn provider_id_roundtrips() {
    for p in [ProviderId::Lrclib, ProviderId::Spotify, ProviderId::Netease, ProviderId::Musixmatch] {
        assert_eq!(ProviderId::from_str(p.as_str()), Some(p));
    }
    assert_eq!(ProviderId::from_str("nope"), None);
}

#[test]
fn provider_display_names() {
    assert_eq!(ProviderId::Lrclib.display_name(), "LRCLIB");
    assert_eq!(ProviderId::Netease.display_name(), "NetEase");
    assert_eq!(ProviderId::Musixmatch.as_str(), "musixmatch");
}

// --- romanization ---

#[test]
fn romanizes_chinese_to_pinyin() {
    let r = romanize_line("中国").unwrap();
    assert_eq!(r, "zhong guo");
}

#[test]
fn romanizes_korean_hangul() {
    let r = romanize_line("한국").unwrap();
    assert_eq!(r, "hanguk");
}

#[test]
fn returns_none_for_latin() {
    assert_eq!(romanize_line("hello world"), None);
}

#[test]
fn hangul_keeps_other_characters_and_spaces() {
    assert_eq!(romanize_hangul("사랑 해!"), "sarang hae!");
    assert!(has_hangul("a가"));
    assert!(!has_han("a가"));
    assert!(has_han("中"));
}

#[test]
fn pinyin_keeps_other_characters_as_words() {
    assert_eq!(romanize_line("中 a").unwrap(), "zhong a");
}

// --- providers ---

#[test]
fn prefers_synced_lyrics() {
    let l = parse_get_response(
        Some("line one\nline two".to_string()),
        Some("[00:01.00]line one\n[00:05.00]line two".to_string()),
    )
    .unwrap();
    assert!(l.synced);
    assert_eq!(l.lines.len(), 2);
    assert_eq!(l.lines[1].start_ms, Some(5000));
    assert_eq!(l.provider, ProviderId::Lrclib);
}

#[test]
fn falls_back_to_plain() {
    let l = parse_get_response(Some("only plain".to_string()), None).unwrap();
    assert!(!l.synced);
    assert_eq!(l.lines.len(), 1);
    assert_eq!(l.lines[0].text, "only plain");
    assert_eq!(l.lines[0].start_ms, None);
}

#[test]
fn blank_answers_give_nothing() {
    assert!(parse_get_response(Some("  \n ".to_string()), Some(" ".to_string())).is_none());
    assert!(parse_get_response(None, None).is_none());
    assert_eq!(lrc_text(Some(" \t".to_string())), None);
    assert_eq!(lrc_text(Some(" x ".to_string())), Some(" x ".to_string()));
}

#[test]
fn synced_without_tags_falls_back_to_plain() {
    let l = parse_get_response(Some("a\nb".to_string()), Some("no tags".to_string())).unwrap();
    assert!(!l.synced);
    assert_eq!(l.lines.len(), 2);
}

// Trimmed shape of macro.subtitles.get with subtitle_format=lrc.
const MACRO: &str = r#"{"message":{"body":{"macro_calls":{
        "track.subtitles.get":{"message":{"body":{"subtitle_list":[
            {"subtitle":{"subtitle_body":"[00:01.00]hello\n[00:04.00]world"}}
        ]}}}
    }}}}"#;

#[test]
fn extracts_synced_subtitle() {
    let l = parse_macro(MACRO).unwrap();
    assert!(l.synced);
    assert_eq!(l.lines.len(), 2);
    assert_eq!(l.lines[1].start_ms, Some(4000));
    assert_eq!(l.provider, ProviderId::Musixmatch);
}

#[test]
fn subtitle_without_tags_gives_nothing() {
    assert!(lyrics_from_subtitle(Some("plain".to_string())).is_none());
    assert!(lyrics_from_subtitle(None).is_none());
}

#[test]
fn macro_answer_without_subtitle_gives_nothing() {
    assert!(parse_macro("not json").is_none());
    assert!(parse_macro(r#"{"message":{"body":""}}"#).is_none());
    let numeric = r#"{"message":{"body":{"macro_calls":{"track.subtitles.get":{"message":{"body":{"subtitle_list":[{"subtitle":{"subtitle_body":7}}]}}}}}}}"#;
    assert!(parse_macro(numeric).is_none());
    let keyed = r#"{"message":{"body":{"macro_calls":{"track.subtitles.get":{"message":{"body":{"subtitle_list":{"0":{"subtitle":{"subtitle_body":"[00:01.00]x"}}}}}}}}}}"#;
    assert!(parse_macro(keyed).is_none());
}

#[test]
fn subtitle_body_is_read_from_the_answer() {
    let json = r#"{"message":{"body":{"macro_calls":{"track.subtitles.get":{"message":{"body":{"subtitle_list":[{"subtitle":{"subtitle_body":"[01:02.50]only"}}]}}}}}}}"#;
    let l = parse_macro(json).unwrap();
    assert_eq!(l.lines.len(), 1);
    assert_eq!(l.lines[0].start_ms, Some(62500));
    assert_eq!(l.lines[0].text, "only");
}

#[test]
fn best_match_uses_duration_tolerance() {
    let songs = [(111u64, 120_000u64), (222u64, 239_000u64)];
    assert_eq!(best_match(&songs, 239_560), Some(222));
}

#[test]
fn best_match_falls_back_to_first_then_none() {
    let songs = [(111u64, 120_000u64), (222u64, 239_000u64)];
    assert_eq!(best_match(&songs, 10_000), Some(111));
    assert_eq!(best_match(&[], 10_000), None);
    assert_eq!(best_match(&[(7, 13_000)], 10_000), Some(7));
}

#[test]
fn merges_translation_and_romaji_by_timestamp() {
    let l = parse_lyric_response(
        Some("[00:01.00]今天我\n[00:05.00]怀着冷却".to_string()),
        Some("[00:01.00]Today I\n[00:05.00]With a cooled heart".to_string()),
        Some("[00:01.00]gam tin o\n[00:05.00]waai zoek laang koek".to_string()),
        true,
        false,
    )
    .unwrap();
    assert!(l.synced);
    assert_eq!(l.lines.len(), 2);
    assert_eq!(l.lines[0].translation.as_deref(), Some("Today I"));
    assert_eq!(l.lines[0].romanization.as_deref(), Some("gam tin o"));
}

#[test]
fn client_romanizes_when_no_romaji_is_given() {
    let l = parse_lyric_response(Some("[00:01.00]中国".to_string()), None, None, true, true).unwrap();
    assert_eq!(l.lines[0].romanization.as_deref(), Some("zhong guo"));
    let l = parse_lyric_response(Some("[00:01.00]中国".to_string()), None, None, false, true).unwrap();
    assert_eq!(l.lines[0].romanization, None);
}

#[test]
fn maps_line_synced_lyrics() {
    let lines = vec![
        ("1000".to_string(), "hello".to_string()),
        ("2000".to_string(), "world".to_string()),
    ];
    let mapped = from_spotify_lines(true, false, "en".to_string(), &lines);
    assert!(mapped.synced);
    assert_eq!(mapped.provider, ProviderId::Spotify);
    assert_eq!(mapped.lines.len(), 2);
    assert_eq!(mapped.lines[0].start_ms, Some(1000));
    assert_eq!(mapped.lines[1].text, "world");
}

#[test]
fn unsynced_spotify_lines_have_no_start() {
    let lines = vec![("1000".to_string(), "hello".to_string())];
    let mapped = from_spotify_lines(false, true, "ar".to_string(), &lines);
    assert_eq!(mapped.lines[0].start_ms, None);
    assert!(mapped.rtl);
    assert_eq!(mapped.language.as_deref(), Some("ar"));
}

#[test]
fn decimal_parsing_follows_str_parse() {
    assert_eq!(parse_u32("42"), Some(42));
    assert_eq!(parse_u32("+7"), Some(7));
    assert_eq!(parse_u32("4294967295"), Some(u32::MAX));
    assert_eq!(parse_u32("4294967296"), None);
    assert_eq!(parse_u32(""), None);
    assert_eq!(parse_u32("+"), None);
    assert_eq!(parse_u32("-1"), None);
    assert_eq!(parse_u32("1a"), None);
    assert_eq!(parse_u64("18446744073709551615"), Some(u64::MAX));
    assert_eq!(parse_u64("18446744073709551616"), None);
}

// --- cache and manager ---

fn ly(p: ProviderId) -> Lyrics {
    Lyrics {
        provider: p,
        synced: true,
        rtl: false,
        language: None,
        lines: vec![LyricLine { start_ms: Some(0), text: "x".into(), translation: None, romanization: None }],
    }
}

fn track() -> TrackMeta {
    TrackMeta {
        spotify_id: Some("id1".into()),
        title: "t".into(),
        artist: "a".into(),
        album: None,
        duration_ms: 1000,
    }
}

/// Runs a search to its end, answering for each provider from `answers`.
fn run_search(mgr: &mut LyricsManager, order: &[ProviderId], answers: &dyn Fn(ProviderId) -> ProviderAnswer) -> FetchOutcome {
    let mut run = mgr.fetch(order, &track());
    while let Some(id) = run.next_provider() {
        if let Some(outcome) = mgr.answer(&mut run, id, answers(id)) {
            return outcome;
        }
    }
    run.finish()
}

#[test]
fn returns_first_non_empty_in_order() {
    let mut mgr = LyricsManager::new(vec![ProviderId::Lrclib, ProviderId::Netease], LyricsCache::new("cache".into()));
    let answers = |id: ProviderId| match id {
        ProviderId::Netease => ProviderAnswer::Found(ly(ProviderId::Netease)),
        _ => ProviderAnswer::Nothing,
    };
    match run_search(&mut mgr, &[ProviderId::Lrclib, ProviderId::Netease], &answers) {
        FetchOutcome::Found(l) => assert_eq!(l.provider, ProviderId::Netease),
        _ => panic!("expected Found"),
    }
}

#[test]
fn not_found_lists_tried() {
    let mut mgr = LyricsManager::new(vec![ProviderId::Lrclib], LyricsCache::new("cache".into()));
    match run_search(&mut mgr, &[ProviderId::Lrclib], &|_: ProviderId| ProviderAnswer::Nothing) {
        FetchOutcome::NotFound { tried } => assert_eq!(tried, vec![ProviderId::Lrclib]),
        _ => panic!("expected NotFound"),
    }
}

#[test]
fn provider_errors_surface_as_error() {
    let mut mgr = LyricsManager::new(vec![ProviderId::Lrclib], LyricsCache::new("cache".into()));
    match run_search(&mut mgr, &[ProviderId::Lrclib], &|_: ProviderId| ProviderAnswer::Failed("boom".into())) {
        FetchOutcome::Error { message } => {
            assert!(message.contains("lrclib"));
            assert_eq!(message, "lrclib: boom");
        }
        _ => panic!("expected Error"),
    }
}

#[test]
fn failures_are_joined_and_unregistered_providers_skipped() {
    let mut mgr = LyricsManager::new(vec![ProviderId::Lrclib, ProviderId::Netease], LyricsCache::new("c".into()));
    let order = [ProviderId::Spotify, ProviderId::Netease, ProviderId::Lrclib];
    match run_search(&mut mgr, &order, &|id: ProviderId| ProviderAnswer::Failed(id.as_str().to_uppercase())) {
        FetchOutcome::Error { message } => assert_eq!(message, "netease: NETEASE; lrclib: LRCLIB"),
        _ => panic!("expected Error"),
    }
}

#[test]
fn found_lyrics_are_cached_and_served_from_cache() {
    let mut mgr = LyricsManager::new(vec![ProviderId::Lrclib], LyricsCache::new("c".into()));
    let answers = |_: ProviderId| ProviderAnswer::Found(ly(ProviderId::Lrclib));
    assert!(matches!(run_search(&mut mgr, &[ProviderId::Lrclib], &answers), FetchOutcome::Found(_)));
    // The second search is answered by the cache without asking anyone.
    let mut run = mgr.fetch(&[ProviderId::Lrclib], &track());
    assert_eq!(run.next_provider(), None);
    match run.finish() {
        FetchOutcome::Found(l) => assert_eq!(l.provider, ProviderId::Lrclib),
        _ => panic!("expected Found"),
    }
    mgr.invalidate(&track());
    let mut run = mgr.fetch(&[ProviderId::Lrclib], &track());
    assert_eq!(run.next_provider(), Some(ProviderId::Lrclib));
}

#[test]
fn cache_keys_are_sanitized() {
    let mut t = track();
    t.spotify_id = None;
    t.title = "a/b".into();
    t.artist = "c\\d".into();
    assert_eq!(LyricsManager::cache_key(&t), "a_b|c_d");
    assert_eq!(LyricsManager::cache_key(&track()), "id1");
}

#[test]
fn cache_put_then_get_in_memory() {
    let mut c = LyricsCache::new("/tmp/lyrics".into());
    c.put("abc", &ly(ProviderId::Spotify));
    assert_eq!(c.get("abc").map(|l| l.provider), Some(ProviderId::Spotify));
    assert!(c.get("missing").is_none());
    c.put("abc", &ly(ProviderId::Netease));
    assert_eq!(c.get("abc").map(|l| l.provider), Some(ProviderId::Netease));
    c.remove("abc");
    assert!(c.get("abc").is_none());
    assert_eq!(c.path("abc"), "/tmp/lyrics/abc.json");
    assert_eq!(LyricsCache::new("/tmp/".into()).path("k"), "/tmp/k.json");
}

use ncspot::lyrics::requests::{
    lrclib_query, musixmatch_enabled, musixmatch_query, musixmatch_refused, netease_lyric_query,
    netease_search_query, provider_enabled,
};

fn request_track(album: Option<&str>, id: Option<&str>) -> TrackMeta {
    TrackMeta {
        spotify_id: id.map(|s| s.to_string()),
        title: "Song".to_string(),
        artist: "Band".to_string(),
        album: album.map(|s| s.to_string()),
        duration_ms: 215_900,
    }
}

fn pairs(q: &[(String, String)]) -> Vec<(&str, &str)> {
    q.iter().map(|(a, b)| (a.as_str(), b.as_str())).collect()
}

#[test]
fn provider_queries() {
    assert_eq!(
        pairs(&lrclib_query(&request_track(Some("LP"), None))),
        vec![("track_name", "Song"), ("artist_name", "Band"), ("duration", "215"), ("album_name", "LP")]
    );
    assert_eq!(pairs(&lrclib_query(&request_track(None, None))).len(), 3);
    assert_eq!(
        pairs(&netease_search_query(&request_track(None, None))),
        vec![("s", "Song Band"), ("type", "1"), ("limit", "10")]
    );
    assert_eq!(
        pairs(&netease_lyric_query(42)),
        vec![("id", "42"), ("lv", "-1"), ("kv", "-1"), ("tv", "-1")]
    );
    let q = musixmatch_query(&request_track(Some("LP"), Some("abc")), "tok");
    assert_eq!(
        pairs(&q),
        vec![
            ("format", "json"),
            ("subtitle_format", "lrc"),
            ("app_id", "web-desktop-app-v1.0"),
            ("q_track", "Song"),
            ("q_artist", "Band"),
            ("q_duration", "215"),
            ("usertoken", "tok"),
            ("q_album", "LP"),
            ("track_spotify_id", "spotify:track:abc"),
        ]
    );
}

#[test]
fn providers_enabled_by_settings() {
    let order = [ProviderId::Lrclib, ProviderId::Netease];
    assert!(provider_enabled(None, &order, ProviderId::Netease));
    assert!(!provider_enabled(Some(false), &order, ProviderId::Netease));
    assert!(!provider_enabled(Some(true), &order, ProviderId::Spotify));
    let with_mxm = [ProviderId::Musixmatch];
    assert!(musixmatch_enabled("tok", None, &with_mxm));
    assert!(!musixmatch_enabled("", None, &with_mxm));
    assert!(!musixmatch_enabled("tok", None, &order));
}

#[test]
fn musixmatch_refusals() {
    assert!(musixmatch_refused(401, "{}"));
    assert!(musixmatch_refused(503, "{}"));
    assert!(musixmatch_refused(200, "{\"captcha\":true}"));
    assert!(musixmatch_refused(200, "{\"header\":{\"status_code\":401}}"));
    assert!(!musixmatch_refused(200, "{\"message\":{}}"));
}

#[test]
fn tags_with_non_ascii_digits_count_as_zero() {
    // Arabic-Indic digits are decimal digits: the tag is a tag, its fields
    // do not parse as numbers and count as zero.
    let lines = parse_lrc("[\u{661}\u{662}:\u{663}\u{664}.\u{665}\u{666}]x\n[0\u{661}:05.00]y");
    assert_eq!(lines.len(), 2);
    assert_eq!(lines[0].start_ms, Some(0));
    assert_eq!(lines[0].text, "x");
    assert_eq!(lines[1].start_ms, Some(5000));
    assert_eq!(lines[1].text, "y");
    // Letters are no digits: no tag, no line.
    assert!(parse_lrc("[ab:cd]z").is_empty());
}

#[test]
fn digit_class_matches_decimal_digits() {
    assert!(digit_class('0'));
    assert!(digit_class('9'));
    assert!(digit_class('٣'));
    assert!(!digit_class('a'));
    assert!(!digit_class(':'));
}
