use ncspot::mpris::playlists::{
    activate_target, active_playlist, all_playlist_tuples, find_playlist, orderings, page_playlists,
    parse_playlist_path, playlist_path_for_id,
};
use ncspot::mpris::root::MprisRoot;
use ncspot::mpris::tracklist::{parse_queue_path, uri_id};
use ncspot::mpris::{instance_bus_name, no_track_path, signal_for, track_path_for_id, MprisCommand, MprisSignal};
use ncspot::mpris::player::{
    can_go_next, can_go_previous, can_play, loop_status, parse_loop_status, play_collection,
    playback_status, previous_action, seek_action, set_position_target, PreviousAction, SeekAction,
};
use ncspot::mpris::tracklist::{
    add_track, added_after, current_track_path, go_to, metadata_targets, remove_track, tracks,
};
use ncspot::queue::{PlayerStatus, Queue, QueueEffect, QueueState, RepeatSetting};

fn queue_of(names: &[&str], current: Option<usize>, repeat: RepeatSetting) -> Queue<String> {
    Queue::new(
        QueueState {
            queue: names.iter().map(|n| n.to_string()).collect(),
            current_track: current,
            random_order: None,
        },
        repeat,
        false,
    )
}

fn make_list(names: &[&str]) -> Vec<(String, String, String)> {
    names
        .iter()
        .enumerate()
        .map(|(i, name)| (format!("/org/ncspot/playlist/{i}"), name.to_string(), String::new()))
        .collect()
}

#[test]
fn test_parse_playlist_path_ok() {
    assert_eq!(parse_playlist_path("/org/ncspot/playlist/abc123"), Some("abc123".to_string()));
}

#[test]
fn test_parse_playlist_path_rejects_other() {
    assert_eq!(parse_playlist_path("/org/ncspot/queue/42"), None);
}

#[test]
fn test_page_playlists_basic_skip_take() {
    let list = make_list(&["a", "b", "c", "d", "e"]);
    let result = page_playlists(&list, 1, 2, false);
    assert_eq!(result.len(), 2);
    assert_eq!(result[0].1, "b");
    assert_eq!(result[1].1, "c");
}

#[test]
fn test_page_playlists_reversed() {
    let list = make_list(&["a", "b", "c", "d", "e"]);
    let result = page_playlists(&list, 0, 3, true);
    assert_eq!(result.len(), 3);
    assert_eq!(result[0].1, "c");
    assert_eq!(result[1].1, "b");
    assert_eq!(result[2].1, "a");
}

#[test]
fn test_page_playlists_index_out_of_bounds() {
    let list = make_list(&["a", "b"]);
    let result = page_playlists(&list, 5, 10, false);
    assert!(result.is_empty());
}

#[test]
fn test_page_playlists_max_count_clamps_at_end() {
    let list = make_list(&["a", "b", "c"]);
    let result = page_playlists(&list, 1, 100, false);
    assert_eq!(result.len(), 2);
    assert_eq!(result[0].1, "b");
    assert_eq!(result[1].1, "c");
}

#[test]
fn test_page_playlists_empty_input() {
    let result = page_playlists(&[], 0, 10, false);
    assert!(result.is_empty());
}

#[test]
fn test_page_playlists_reversed_with_offset() {
    let list = make_list(&["a", "b", "c", "d", "e"]);
    let result = page_playlists(&list, 1, 3, true);
    assert_eq!(result.len(), 3);
    assert_eq!(result[0].1, "d");
    assert_eq!(result[1].1, "c");
    assert_eq!(result[2].1, "b");
}

#[test]
fn test_parse_queue_path_ok() {
    assert_eq!(parse_queue_path("/org/ncspot/queue/42"), Some(42));
}

#[test]
fn test_parse_queue_path_rejects_other() {
    assert_eq!(parse_queue_path("/org/ncspot/playlist/abc"), None);
    assert_eq!(parse_queue_path(no_track_path()), None);
}

#[test]
fn queue_paths_round_trip() {
    for id in [0u64, 7, 42, 1000, u64::MAX] {
        let p = track_path_for_id(id);
        assert_eq!(parse_queue_path(&p), Some(id));
    }
    assert_eq!(track_path_for_id(42), "/org/ncspot/queue/42");
}

#[test]
fn uri_id_takes_text_after_last_colon() {
    assert_eq!(uri_id("spotify:track:abc"), "abc");
    assert_eq!(uri_id("plain"), "plain");
    assert_eq!(uri_id("x:"), "");
}

#[test]
fn root_answers() {
    let r = MprisRoot {};
    assert!(!r.can_quit());
    assert!(!r.can_raise());
    assert!(r.has_tracklist());
    assert_eq!(r.identity(), "ncspot");
    assert_eq!(r.supported_uri_schemes(), vec!["spotify".to_string()]);
    assert!(r.supported_mime_types().is_empty());
    r.raise();
    r.quit();
}

#[test]
fn playback_and_loop_status_names() {
    assert_eq!(playback_status(PlayerStatus::Playing), "Playing");
    assert_eq!(playback_status(PlayerStatus::FinishedTrack), "Playing");
    assert_eq!(playback_status(PlayerStatus::Paused), "Paused");
    assert_eq!(playback_status(PlayerStatus::Stopped), "Stopped");
    assert_eq!(loop_status(RepeatSetting::Off), "None");
    assert_eq!(loop_status(RepeatSetting::RepeatTrack), "Track");
    assert_eq!(loop_status(RepeatSetting::RepeatPlaylist), "Playlist");
}

#[test]
fn loop_status_round_trips() {
    for r in [RepeatSetting::Off, RepeatSetting::RepeatTrack, RepeatSetting::RepeatPlaylist] {
        assert_eq!(parse_loop_status(loop_status(r)), r);
    }
    assert_eq!(parse_loop_status("bogus"), RepeatSetting::Off);
}

#[test]
fn previous_restarts_after_five_seconds() {
    assert_eq!(previous_action(0), PreviousAction::PreviousEntry);
    assert_eq!(previous_action(4999), PreviousAction::PreviousEntry);
    assert_eq!(previous_action(5000), PreviousAction::Restart);
}

#[test]
fn seek_moves_within_track_or_skips() {
    // 10.5 s in, forward 2 s, 60 s track.
    assert_eq!(seek_action(10, 500, 2_000_000, 60_000), SeekAction::SeekTo(12_500));
    // Backwards past the start clamps to zero.
    assert_eq!(seek_action(1, 0, -5_000_000, 60_000), SeekAction::SeekTo(0));
    // Past the end goes to the next track.
    assert_eq!(seek_action(59, 0, 2_000_000, 60_000), SeekAction::Next);
    // Microseconds are truncated toward zero.
    assert_eq!(seek_action(0, 0, 1_999, 60_000), SeekAction::SeekTo(1));
    assert_eq!(seek_action(1, 0, -1_999, 60_000), SeekAction::SeekTo(999));
}

#[test]
fn set_position_only_within_track() {
    assert_eq!(set_position_target(30_000_000, 60_000), Some(30_000));
    assert_eq!(set_position_target(60_000_000, 60_000), None);
    assert_eq!(set_position_target(1_999, 60_000), Some(1));
}

#[test]
fn can_go_next_and_previous() {
    let q = queue_of(&["a", "b", "c"], Some(0), RepeatSetting::Off);
    assert!(can_go_next(&q));
    assert!(!can_go_previous(&q));
    assert!(can_play(&q));
    let q = queue_of(&["a", "b", "c"], Some(2), RepeatSetting::Off);
    assert!(!can_go_next(&q));
    assert!(can_go_previous(&q));
    let q = queue_of(&["a", "b", "c"], Some(2), RepeatSetting::RepeatPlaylist);
    assert!(can_go_next(&q));
    let q = queue_of(&[], None, RepeatSetting::RepeatPlaylist);
    assert!(!can_go_next(&q));
    assert!(!can_go_previous(&q));
    assert!(!can_play(&q));
}

#[test]
fn play_collection_replaces_queue() {
    let mut q = queue_of(&["x", "y"], Some(1), RepeatSetting::Off);
    let tracks = vec!["a".to_string(), "b".to_string(), "c".to_string()];
    assert_eq!(play_collection(&mut q, &tracks), 0);
    assert_eq!(q.entries(), &tracks);
    assert_eq!(q.get_current_index(), Some(0));
    let mut q = queue_of(&["x"], Some(0), RepeatSetting::Off);
    assert_eq!(play_collection(&mut q, &[]), 0);
    assert_eq!(q.len(), 0);
    assert_eq!(q.get_current_index(), None);
}

#[test]
fn tracklist_paths_follow_entry_ids() {
    let q = queue_of(&["a", "b", "c"], Some(1), RepeatSetting::Off);
    assert_eq!(current_track_path(&q), "/org/ncspot/queue/1");
    assert_eq!(
        tracks(&q),
        vec!["/org/ncspot/queue/0", "/org/ncspot/queue/1", "/org/ncspot/queue/2"]
    );
    assert_eq!(added_after(&q, 0), Some((0, no_track_path().to_string())));
    assert_eq!(added_after(&q, 2), Some((2, "/org/ncspot/queue/1".to_string())));
    assert_eq!(added_after(&q, 9), None);
    let q = queue_of(&[], None, RepeatSetting::Off);
    assert_eq!(current_track_path(&q), no_track_path());
}

#[test]
fn tracklist_add_track_after_path() {
    let mut q = queue_of(&["a", "b"], Some(0), RepeatSetting::Off);
    assert_eq!(add_track(&mut q, "c".to_string(), "/org/ncspot/queue/0", false), Some(1));
    assert_eq!(q.entries(), &vec!["a".to_string(), "c".to_string(), "b".to_string()]);
    assert_eq!(q.id_for_index(1), Some(2));
    assert_eq!(add_track(&mut q, "d".to_string(), no_track_path(), true), Some(0));
    assert_eq!(q.get_current_index(), Some(0));
    assert_eq!(add_track(&mut q, "e".to_string(), "/org/ncspot/queue/77", false), None);
    assert_eq!(add_track(&mut q, "e".to_string(), "/elsewhere", false), None);
    assert_eq!(q.len(), 4);
}

#[test]
fn tracklist_remove_and_go_to() {
    let mut q = queue_of(&["a", "b", "c"], Some(0), RepeatSetting::Off);
    go_to(&mut q, "/org/ncspot/queue/2");
    assert_eq!(q.get_current_index(), Some(2));
    go_to(&mut q, "/nowhere");
    assert_eq!(q.get_current_index(), Some(2));
    let playable = vec![true; 3];
    remove_track(&mut q, "/org/ncspot/queue/1", &playable);
    assert_eq!(q.entries(), &vec!["a".to_string(), "c".to_string()]);
    assert_eq!(q.track_ids(), vec![0, 2]);
    let playable = vec![true; 2];
    remove_track(&mut q, "/org/ncspot/queue/1", &playable);
    assert_eq!(q.len(), 2);
}

#[test]
fn bus_name_carries_the_pid() {
    assert_eq!(instance_bus_name(4242), "org.mpris.MediaPlayer2.ncspot.instance4242");
    assert_eq!(instance_bus_name(0), "org.mpris.MediaPlayer2.ncspot.instance0");
}

fn library() -> Vec<(String, String)> {
    vec![
        ("abc".to_string(), "Mix".to_string()),
        ("x-y".to_string(), "Odd".to_string()),
        ("abc".to_string(), "Dup".to_string()),
    ]
}

#[test]
fn playlist_paths_are_valid_object_paths() {
    assert_eq!(playlist_path_for_id("37i9dQZF1DX"), "/org/ncspot/playlist/37i9dQZF1DX");
    assert_eq!(playlist_path_for_id("a_b/c"), "/org/ncspot/playlist/a_b/c");
    assert_eq!(playlist_path_for_id("x-y"), "/org/ncspot/playlist/_");
    assert_eq!(playlist_path_for_id(""), "/org/ncspot/playlist/_");
    assert_eq!(playlist_path_for_id("a//b"), "/org/ncspot/playlist/_");
    assert_eq!(playlist_path_for_id("a/"), "/org/ncspot/playlist/_");
    assert_eq!(parse_playlist_path(&playlist_path_for_id("abc")), Some("abc".to_string()));
}

#[test]
fn library_playlists_as_entries() {
    let all = all_playlist_tuples(&library());
    assert_eq!(all.len(), 3);
    assert_eq!(all[0], ("/org/ncspot/playlist/abc".to_string(), "Mix".to_string(), String::new()));
    assert_eq!(all[1].0, "/org/ncspot/playlist/_");
    assert_eq!(find_playlist(&library(), "abc"), Some(0));
    assert_eq!(find_playlist(&library(), "zzz"), None);
    assert_eq!(activate_target("/org/ncspot/playlist/x-y", &library()), Some(1));
    assert_eq!(activate_target("/elsewhere/abc", &library()), None);
    assert_eq!(orderings(), vec!["UserDefined".to_string()]);
}

#[test]
fn active_playlist_or_sentinel() {
    let (on, entry) = active_playlist(Some("abc"), &library());
    assert!(on);
    assert_eq!(entry, ("/org/ncspot/playlist/abc".to_string(), "Mix".to_string(), String::new()));
    let (on, entry) = active_playlist(Some("gone"), &library());
    assert!(!on);
    assert_eq!(entry, ("/".to_string(), String::new(), String::new()));
    let (on, _) = active_playlist(None, &library());
    assert!(!on);
}

#[test]
fn signals_for_commands() {
    let q = queue_of(&["a", "b", "c"], Some(1), RepeatSetting::Off);
    assert!(matches!(signal_for(MprisCommand::EmitPlaybackStatus, &q, &[]), MprisSignal::PlaybackStatus));
    assert!(matches!(signal_for(MprisCommand::EmitSeekedStatus(9), &q, &[]), MprisSignal::Seeked(9)));
    match signal_for(MprisCommand::EmitTrackListReplaced, &q, &[]) {
        MprisSignal::TrackListReplaced { tracks, current } => {
            assert_eq!(tracks.len(), 3);
            assert_eq!(current, "/org/ncspot/queue/1");
        }
        _ => panic!("expected the replaced list"),
    }
    match signal_for(MprisCommand::EmitTrackAdded(2), &q, &[]) {
        MprisSignal::TrackAdded { index, track, after } => {
            assert_eq!(index, 2);
            assert_eq!(track, "/org/ncspot/queue/2");
            assert_eq!(after, "/org/ncspot/queue/1");
        }
        _ => panic!("expected an added entry"),
    }
    assert!(matches!(signal_for(MprisCommand::EmitTrackAdded(7), &q, &[]), MprisSignal::Nothing));
    match signal_for(MprisCommand::EmitTrackRemoved(7), &q, &[]) {
        MprisSignal::TrackRemoved { track } => assert_eq!(track, "/org/ncspot/queue/7"),
        _ => panic!("expected a removal"),
    }
    assert!(matches!(
        signal_for(MprisCommand::EmitTrackMetadataChanged(0), &q, &[]),
        MprisSignal::TrackMetadataChanged { index: 0, .. }
    ));
    assert!(matches!(signal_for(MprisCommand::EmitPlaylistChanged, &q, &[]), MprisSignal::Nothing));
    match signal_for(MprisCommand::EmitPlaylistChanged, &q, &library()) {
        MprisSignal::PlaylistChanged { playlist } => assert_eq!(playlist.1, "Mix"),
        _ => panic!("expected a playlist change"),
    }
}

use ncspot::mpris::metadata::{build_metadata, EpisodeInfo, PlayableInfo, TrackInfo};

fn sample_episode() -> EpisodeInfo {
    EpisodeInfo {
        name: "Ep One".to_string(),
        duration_ms: 60_000,
        description: "A description".to_string(),
        release_date: "2021-05-04".to_string(),
        cover_url: Some("http://img".to_string()),
        share_url: None,
    }
}

fn sample_track() -> TrackInfo {
    TrackInfo {
        title: "T".to_string(),
        track_number: 1,
        disc_number: 1,
        duration_ms: 1000,
        artists: vec![],
        album: None,
        album_artists: vec![],
        cover_url: Some("x".to_string()),
        share_url: Some("https://open.spotify.com/track/t1".to_string()),
    }
}

#[test]
fn test_episode_enrichment_fields() {
    let p = PlayableInfo::Episode(sample_episode());
    let md = build_metadata(Some(&p), "/org/ncspot/queue/0", true);
    assert_eq!(md.content_created, Some("2021-05-04".to_string()));
    assert_eq!(md.comment, Some(vec!["A description".to_string()]));
    // Episodes are never rated as saved.
    assert!(!md.saved);
    assert_eq!(md.title, "Ep One");
    assert_eq!(md.length_us, 60_000_000);
    assert_eq!(md.art_url, "http://img");
    assert_eq!(md.url, "");
}

#[test]
fn test_track_has_autorating_and_no_content_created() {
    let p = PlayableInfo::Track(sample_track());
    let md = build_metadata(Some(&p), "/org/ncspot/queue/0", true);
    assert!(md.saved);
    assert_eq!(md.content_created, None);
    assert_eq!(md.comment, None);
    assert_eq!(md.track_id, "/org/ncspot/queue/0");
    assert_eq!(md.track_number, 1);
    assert_eq!(md.length_us, 1_000_000);
    assert_eq!(md.album, "");
    assert_eq!(md.url, "https://open.spotify.com/track/t1");
}

#[test]
fn metadata_of_nothing_is_defaults() {
    let md = build_metadata(None, "/org/mpris/MediaPlayer2/TrackList/NoTrack", true);
    assert!(!md.saved);
    assert_eq!(md.length_us, 0);
    assert_eq!(md.title, "");
    assert!(md.artists.is_empty());
    let mut e = sample_episode();
    e.description = String::new();
    e.release_date = String::new();
    let md = build_metadata(Some(&PlayableInfo::Episode(e)), "/p", false);
    assert_eq!(md.comment, None);
    assert_eq!(md.content_created, None);
}

#[test]
fn metadata_asked_for_known_entries_only() {
    let mut q = queue_of(&["a", "b", "c"], Some(0), RepeatSetting::Off);
    let playable = vec![true; 3];
    remove_track(&mut q, "/org/ncspot/queue/0", &playable);
    let paths = vec![
        "/org/ncspot/queue/2".to_string(),
        "/org/ncspot/queue/0".to_string(),
        "/elsewhere".to_string(),
        "/org/ncspot/queue/1".to_string(),
    ];
    assert_eq!(metadata_targets(&q, &paths), vec![(2, 1), (1, 0)]);
}

#[test]
fn open_single_track_replaces_queue() {
    let mut q = queue_of(&["a", "b"], Some(1), RepeatSetting::Off);
    ncspot::mpris::player::play_single(&mut q, "x".to_string());
    assert_eq!(q.entries(), &vec!["x".to_string()]);
    assert_eq!(q.get_current_index(), Some(0));
}

#[test]
fn play_collection_gives_fresh_ids_and_one_load() {
    let mut q = queue_of(&["x", "y"], Some(1), RepeatSetting::Off);
    q.take_effects();
    let tracks = vec!["a".to_string(), "b".to_string()];
    play_collection(&mut q, &tracks);
    assert_eq!(q.track_ids(), vec![2, 3]);
    assert_eq!(
        q.take_effects(),
        vec![
            QueueEffect::Stop,
            QueueEffect::TrackListReplaced,
            QueueEffect::TrackListReplaced,
            QueueEffect::Load(0)
        ]
    );
}
