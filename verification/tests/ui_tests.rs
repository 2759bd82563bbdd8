use ncspot::ui::image_render::{can_use_kitty_graphics, is_iterm_terminal, terminal_supports_graphics};
use ncspot::ui::lyrics::{move_cursor, row_at, seek_target_ms};

#[test]
fn seek_target_subtracts_offset_and_clamps() {
    assert_eq!(seek_target_ms(10_000, 0), 10_000);
    assert_eq!(seek_target_ms(10_000, 500), 9_500);
    assert_eq!(seek_target_ms(10_000, -500), 10_500);
    assert_eq!(seek_target_ms(300, 1_000), 0);
}

#[test]
fn row_at_resolves_visible_row_to_owning_line() {
    let row_line = vec![Some(0), Some(0), Some(1), Some(2)];
    assert_eq!(row_at(0, 1, &row_line), Some(0));
    assert_eq!(row_at(1, 1, &row_line), Some(1));
    assert_eq!(row_at(2, 1, &row_line), Some(2));
    assert_eq!(row_at(3, 1, &row_line), None);
}

#[test]
fn move_cursor_reveals_at_active_then_steps_and_clamps() {
    assert_eq!(move_cursor(None, Some(3), 10, 1), Some(3));
    assert_eq!(move_cursor(None, None, 10, -1), Some(0));
    assert_eq!(move_cursor(Some(3), Some(3), 10, 1), Some(4));
    assert_eq!(move_cursor(Some(0), None, 10, -1), Some(0));
    assert_eq!(move_cursor(Some(9), None, 10, 1), Some(9));
    assert_eq!(move_cursor(Some(0), None, 0, 1), None);
}

#[test]
fn move_cursor_reveal_is_clamped_to_last_line() {
    assert_eq!(move_cursor(None, Some(12), 10, 0), Some(9));
    assert_eq!(move_cursor(Some(5), None, 10, -100), Some(0));
}

#[test]
fn kitty_graphics_everywhere_but_apple_terminal() {
    assert!(can_use_kitty_graphics(None));
    assert!(can_use_kitty_graphics(Some("iTerm.app")));
    assert!(!can_use_kitty_graphics(Some("Apple_Terminal")));
}

#[test]
fn iterm_is_recognised_by_either_variable() {
    assert!(is_iterm_terminal(Some("iTerm.app"), None));
    assert!(is_iterm_terminal(None, Some("iTerm2")));
    assert!(!is_iterm_terminal(Some("xterm"), Some("x")));
    assert!(!is_iterm_terminal(None, None));
}

#[test]
fn graphics_supported_unless_apple_terminal_without_iterm() {
    assert!(terminal_supports_graphics(None, None));
    assert!(!terminal_supports_graphics(Some("Apple_Terminal"), None));
    assert!(terminal_supports_graphics(Some("Apple_Terminal"), Some("iTerm2")));
}

use ncspot::lyrics::model::{LyricLine, Lyrics, ProviderId, TrackMeta};
use ncspot::lyrics::FetchOutcome;
use ncspot::ui::lyrics::{
    row_x, status_x, LyricRow, LyricsView, PaneAction, PaneEvent, PaneSettings, PlayingItem, RowKind,
};

fn meta(id: Option<&str>, title: &str, artist: &str) -> TrackMeta {
    TrackMeta {
        spotify_id: id.map(|s| s.to_string()),
        title: title.to_string(),
        artist: artist.to_string(),
        album: None,
        duration_ms: 200_000,
    }
}

fn synced_lyrics() -> Lyrics {
    let line = |ms: u32, t: &str, tr: Option<&str>| LyricLine {
        start_ms: Some(ms),
        text: t.to_string(),
        translation: tr.map(|s| s.to_string()),
        romanization: None,
    };
    Lyrics {
        provider: ProviderId::Lrclib,
        synced: true,
        rtl: false,
        language: None,
        lines: vec![line(1_000, "one", Some("uno")), line(2_000, "two", None), line(3_000, "three", None)],
    }
}

fn loaded_pane() -> LyricsView {
    let mut v = LyricsView::new();
    let key = v.ensure_fetch(Some(&meta(Some("id1"), "t", "a"))).unwrap();
    assert!(v.finish_fetch(&key, FetchOutcome::Found(synced_lyrics())));
    v
}

#[test]
fn track_key_prefers_spotify_id() {
    assert_eq!(LyricsView::track_key(&meta(Some("abc"), "t", "a")), "abc");
    assert_eq!(LyricsView::track_key(&meta(None, "Song", "Band")), "Song|Band");
}

#[test]
fn ensure_fetch_only_on_track_change() {
    let mut v = LyricsView::new();
    assert_eq!(v.ensure_fetch(None), None);
    assert_eq!(v.ensure_fetch(Some(&meta(Some("x"), "t", "a"))), Some("x".to_string()));
    assert_eq!(v.status_message(PlayingItem::Track), Some("Loading\u{2026}".to_string()));
    assert_eq!(v.ensure_fetch(Some(&meta(Some("x"), "t", "a"))), None);
    assert_eq!(v.ensure_fetch(Some(&meta(Some("y"), "t", "a"))), Some("y".to_string()));
}

#[test]
fn stale_fetch_result_is_dropped() {
    let mut v = LyricsView::new();
    v.ensure_fetch(Some(&meta(Some("old"), "t", "a")));
    v.ensure_fetch(Some(&meta(Some("new"), "t", "a")));
    assert!(!v.finish_fetch("old", FetchOutcome::NotFound { tried: vec![] }));
    assert_eq!(v.status_message(PlayingItem::Track), Some("Loading\u{2026}".to_string()));
    assert!(v.finish_fetch("new", FetchOutcome::NotFound { tried: vec![ProviderId::Lrclib, ProviderId::Netease] }));
    assert_eq!(
        v.status_message(PlayingItem::Track),
        Some("No lyrics found (tried: lrclib, netease)".to_string())
    );
}

#[test]
fn status_messages() {
    let mut v = LyricsView::new();
    assert_eq!(v.status_message(PlayingItem::Nothing), Some("Nothing playing".to_string()));
    assert_eq!(v.status_message(PlayingItem::NotATrack), Some("No lyrics for this item".to_string()));
    v.ensure_fetch(Some(&meta(Some("k"), "t", "a")));
    v.finish_fetch("k", FetchOutcome::Error { message: "timeout".to_string() });
    assert_eq!(v.status_message(PlayingItem::Track), Some("Lyrics unavailable: timeout".to_string()));
    v.force_refetch();
    v.ensure_fetch(Some(&meta(Some("k"), "t", "a")));
    v.finish_fetch("k", FetchOutcome::NotFound { tried: vec![] });
    assert_eq!(v.status_message(PlayingItem::Track), Some("No lyrics found".to_string()));
    let v = loaded_pane();
    assert_eq!(v.status_message(PlayingItem::Track), None);
}

#[test]
fn cursor_moves_and_seeks() {
    let mut v = loaded_pane();
    // At 2.5 s the second line plays; a first move selects it.
    v.move_cursor_by(2_500, 1);
    assert_eq!(v.seek_to_selected(2_500), Some(2_000));
    // The seek leaves the selection: the playing line again.
    assert_eq!(v.seek_to_selected(1_200), Some(1_000));
    v.move_cursor_by(2_500, 1);
    v.move_cursor_by(2_500, 1);
    v.move_cursor_by(2_500, 1);
    assert_eq!(v.seek_to_selected(0), Some(3_000));
    assert_eq!(v.seek_to_line(7), None);
}

#[test]
fn offset_shifts_active_line_and_seek() {
    let mut v = loaded_pane();
    assert_eq!(v.active_line(1_800), Some(0));
    v.adjust_offset(500);
    assert_eq!(v.position_ms(1_800), 2_300);
    assert_eq!(v.active_line(1_800), Some(1));
    assert_eq!(v.seek_to_line(2), Some(2_500));
}

#[test]
fn copy_line_and_all() {
    let v = loaded_pane();
    assert_eq!(v.copy_line(2_100), Some("two".to_string()));
    assert_eq!(v.copy_line(0), None);
    assert_eq!(v.copy_all(), Some("one\ntwo\nthree".to_string()));
    assert_eq!(LyricsView::new().copy_all(), None);
}

#[test]
fn draw_lays_out_rows_and_clicks_hit_them() {
    let mut v = loaded_pane();
    let rows = v.draw_lyrics(2_100, 10, true, false);
    assert_eq!(
        rows,
        vec![
            LyricRow { line: 0, kind: RowKind::Text, active: false, selected: false },
            LyricRow { line: 0, kind: RowKind::Translation, active: false, selected: false },
            LyricRow { line: 1, kind: RowKind::Text, active: true, selected: false },
            LyricRow { line: 2, kind: RowKind::Text, active: false, selected: false },
        ]
    );
    // A click on the translation row seeks to its line.
    assert_eq!(v.handle_click(1), Some(1_000));
    assert_eq!(v.handle_click(9), None);
    // A short pane centres on the playing line.
    let rows = v.draw_lyrics(3_100, 2, false, false);
    assert_eq!(
        rows,
        vec![
            LyricRow { line: 1, kind: RowKind::Text, active: false, selected: false },
            LyricRow { line: 2, kind: RowKind::Text, active: true, selected: false },
        ]
    );
    assert_eq!(v.draw_lyrics(0, 0, false, false), vec![]);
}

#[test]
fn events_follow_settings() {
    let mut v = loaded_pane();
    let all = PaneSettings::default();
    assert!(!v.on_event(PaneEvent::Esc, &all, 0).0);
    assert!(v.on_event(PaneEvent::Char('j'), &all, 2_500).0);
    assert!(v.on_event(PaneEvent::Esc, &all, 0).0);
    match v.on_event(PaneEvent::Char('y'), &all, 2_500).1 {
        PaneAction::Copy(t) => assert_eq!(t, "two"),
        _ => panic!("expected a copy"),
    }
    match v.on_event(PaneEvent::Enter, &all, 2_500).1 {
        PaneAction::Seek(ms) => assert_eq!(ms, 2_000),
        _ => panic!("expected a seek"),
    }
    let no_seek = PaneSettings { allow_seek: Some(false), ..PaneSettings::default() };
    assert!(!v.on_event(PaneEvent::Enter, &no_seek, 2_500).0);
    assert!(v.on_event(PaneEvent::Char(']'), &all, 0).0);
    assert_eq!(v.position_ms(0), 500);
    assert!(!v.on_event(PaneEvent::Char('x'), &all, 0).0);
    v.draw_lyrics(0, 10, false, false);
    match v.on_event(PaneEvent::LeftPress { offset_y: 3, position_y: 5 }, &all, 0).1 {
        PaneAction::Seek(ms) => assert_eq!(ms, 2_500),
        _ => panic!("expected a seek"),
    }
}

#[test]
fn text_columns() {
    assert_eq!(row_x(false, 40, "abc"), 0);
    assert_eq!(row_x(true, 40, "abc"), 37);
    assert_eq!(row_x(true, 2, "abc"), 0);
    assert_eq!(row_x(true, 10, "日本"), 6);
    assert_eq!(status_x(20, "Loading"), 6);
}
