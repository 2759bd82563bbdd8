use ncspot::spotify_worker::{
    LibraryEvent, PlayerEvent, Tick, TickReport, UriCheck, Worker, WorkerCommand, WorkerEffect,
};

fn load(check: UriCheck, start_playing: bool) -> WorkerCommand {
    WorkerCommand::Load { uri: "spotify:track:1".to_string(), check, start_playing, position_ms: 10 }
}

#[test]
fn unplayable_load_finishes_track() {
    let mut w = Worker::new();
    assert_eq!(
        w.on_command(load(UriCheck::Invalid, true), 0),
        vec![WorkerEffect::Report(PlayerEvent::FinishedTrack)]
    );
    assert_eq!(
        w.on_command(load(UriCheck::NotPlayable, true), 0),
        vec![WorkerEffect::Report(PlayerEvent::FinishedTrack)]
    );
    assert_eq!(
        w.on_command(load(UriCheck::Playable, false), 0),
        vec![WorkerEffect::Load { start_playing: false, position_ms: 10 }]
    );
}

#[test]
fn stalled_play_is_reported_once() {
    let mut w = Worker::new();
    w.on_command(load(UriCheck::Playable, true), 1_000);
    assert_eq!(w.on_tick(3_000).report, TickReport::Quiet);
    assert_eq!(w.on_tick(6_000), Tick { refresh: false, report: TickReport::Stalled, heartbeat: false });
    assert_eq!(w.on_tick(9_000).report, TickReport::Quiet);
}

#[test]
fn playing_settles_pending_request() {
    let mut w = Worker::new();
    w.on_command(load(UriCheck::Playable, true), 1_000);
    assert_eq!(
        w.on_library_event(LibraryEvent::Playing { position_ms: 500 }, 2_000),
        Some(WorkerEffect::Report(PlayerEvent::Playing(1_500)))
    );
    let t = w.on_tick(10_000);
    assert!(t.refresh);
    assert_eq!(t.report, TickReport::Quiet);
}

#[test]
fn seek_is_reported_by_status() {
    let mut w = Worker::new();
    assert_eq!(
        w.on_library_event(LibraryEvent::Seeked { position_ms: 100 }, 1_000),
        Some(WorkerEffect::Report(PlayerEvent::Stopped))
    );
    w.on_library_event(LibraryEvent::Paused { position_ms: 50 }, 1_000);
    assert_eq!(
        w.on_library_event(LibraryEvent::Seeked { position_ms: 100 }, 1_000),
        Some(WorkerEffect::Report(PlayerEvent::Paused(100)))
    );
    w.on_library_event(LibraryEvent::Playing { position_ms: 0 }, 1_000);
    assert_eq!(
        w.on_library_event(LibraryEvent::Seeked { position_ms: 100 }, 1_000),
        Some(WorkerEffect::Report(PlayerEvent::Playing(900)))
    );
    assert_eq!(
        w.on_library_event(LibraryEvent::TimeToPreloadNextTrack, 1_000),
        Some(WorkerEffect::RequestPreload)
    );
    assert_eq!(w.on_library_event(LibraryEvent::Other, 1_000), None);
}

#[test]
fn other_commands_map_to_player_calls() {
    let mut w = Worker::new();
    assert_eq!(w.on_command(WorkerCommand::Play, 0), vec![WorkerEffect::Play]);
    assert_eq!(w.on_command(WorkerCommand::Seek(42), 0), vec![WorkerEffect::Seek(42)]);
    assert_eq!(w.on_command(WorkerCommand::SetVolume(7), 0), vec![WorkerEffect::SetVolume(7)]);
    assert_eq!(w.on_command(WorkerCommand::Preload { check: UriCheck::Invalid }, 0), vec![]);
    assert_eq!(
        w.on_command(WorkerCommand::Preload { check: UriCheck::NotPlayable }, 0),
        vec![WorkerEffect::Preload]
    );
    assert_eq!(
        w.on_command(WorkerCommand::Shutdown, 0),
        vec![WorkerEffect::Stop, WorkerEffect::ShutdownSession]
    );
    // A pause forgets a pending play request.
    w.on_command(load(UriCheck::Playable, true), 0);
    assert_eq!(w.on_command(WorkerCommand::Pause, 0), vec![WorkerEffect::Pause]);
    assert_eq!(w.on_tick(100_000).report, TickReport::Quiet);
}

#[test]
fn heartbeat_every_150_ticks() {
    let mut w = Worker::new();
    for i in 1..=300u64 {
        let t = w.on_tick(0);
        assert_eq!(t.heartbeat, i % 150 == 0);
    }
}

use ncspot::spotify_worker::{check_session, WorkerFlow};

#[test]
fn worker_stops_on_invalid_session_or_closed_events() {
    assert_eq!(check_session(true), (WorkerFlow::Stop, Some(WorkerEffect::Report(PlayerEvent::Stopped))));
    assert_eq!(check_session(false), (WorkerFlow::Continue, None));
    let mut w = Worker::new();
    assert_eq!(w.on_library_message(None, 0), (WorkerFlow::Stop, None));
    assert_eq!(
        w.on_library_message(Some(LibraryEvent::EndOfTrack), 0),
        (WorkerFlow::Continue, Some(WorkerEffect::Report(PlayerEvent::FinishedTrack)))
    );
}
